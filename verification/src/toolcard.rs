//! Tool cards: narrowing of the views that tools send, and what the read,
//! search and diff cards show.
//!
//! A view crosses the event wire, so every field is checked; anything that is
//! not exactly a known card is refused and shown by the generic card.

use crate::json::{values, Json, JsonValue, Number};
use crate::text::{opt_view, str_eq, views};
use vstd::prelude::*;
use vstd::string::*;

pub mod layout;

verus! {

/// Details of a terminal card.
#[derive(Debug, Clone, PartialEq, Eq)]
pub struct TerminalDetail {
    pub exit_code: Option<i32>,
    pub signal: Option<String>,
    pub cwd: Option<String>,
}

/// A numbered line.
pub type Line = (u64, String);

/// A window of a file.
#[derive(Debug, Clone, PartialEq, Eq)]
pub struct ReadCard {
    pub path: String,
    pub lines: Vec<Line>,
    pub total_lines: u64,
    pub lang: Option<String>,
}

/// The matches in one file.
#[derive(Debug, Clone, PartialEq, Eq)]
pub struct FileGroup {
    pub path: String,
    pub matches: Vec<Line>,
}

/// What a search found.
#[derive(Debug, Clone, PartialEq, Eq)]
pub enum SearchCard {
    Matches { files: Vec<FileGroup>, truncated: bool, total: u64 },
    Paths { paths: Vec<String>, truncated: bool, total: u64 },
}

/// One change of a file.
#[derive(Debug, Clone, PartialEq, Eq)]
pub struct DiffHunk {
    pub path: String,
    pub old_text: Option<String>,
    pub new_text: String,
}

/// The changes of a tool call.
#[derive(Debug, Clone, PartialEq, Eq)]
pub struct DiffCard {
    pub diffs: Vec<DiffHunk>,
}

/// A view that was recognised.
#[derive(Debug, Clone, PartialEq, Eq)]
pub enum CardView {
    Terminal(TerminalDetail),
    Read(ReadCard),
    Search(SearchCard),
    Diff(DiffCard),
}

// ---------------------------------------------------------------------------
// Mathematical values
// ---------------------------------------------------------------------------
/// A numbered line, by value.
pub type LineValue = (u64, Seq<char>);

#[verifier::ext_equal]
pub struct GroupValue {
    pub path: Seq<char>,
    pub matches: Seq<LineValue>,
}

#[verifier::ext_equal]
pub struct HunkValue {
    pub path: Seq<char>,
    pub old_text: Option<Seq<char>>,
    pub new_text: Seq<char>,
}

#[verifier::ext_equal]
pub enum CardValue {
    Terminal { exit_code: Option<i32>, signal: Option<Seq<char>>, cwd: Option<Seq<char>> },
    Read { path: Seq<char>, lines: Seq<LineValue>, total_lines: u64, lang: Option<Seq<char>> },
    Matches { files: Seq<GroupValue>, truncated: bool, total: u64 },
    Paths { paths: Seq<Seq<char>>, truncated: bool, total: u64 },
    Diff { diffs: Seq<HunkValue> },
}

pub open spec fn line_values(v: Seq<Line>) -> Seq<LineValue> {
    v.map_values(|l: Line| (l.0, l.1@))
}

impl View for FileGroup {
    type V = GroupValue;

    open spec fn view(&self) -> GroupValue {
        GroupValue { path: self.path@, matches: line_values(self.matches@) }
    }
}

pub open spec fn file_group_values(v: Seq<FileGroup>) -> Seq<GroupValue> {
    v.map_values(|f: FileGroup| f@)
}

impl View for DiffHunk {
    type V = HunkValue;

    open spec fn view(&self) -> HunkValue {
        HunkValue { path: self.path@, old_text: opt_view(self.old_text), new_text: self.new_text@ }
    }
}

pub open spec fn hunk_values(v: Seq<DiffHunk>) -> Seq<HunkValue> {
    v.map_values(|d: DiffHunk| d@)
}

impl View for CardView {
    type V = CardValue;

    open spec fn view(&self) -> CardValue {
        match *self {
            CardView::Terminal(t) => CardValue::Terminal {
                exit_code: t.exit_code,
                signal: opt_view(t.signal),
                cwd: opt_view(t.cwd),
            },
            CardView::Read(r) => CardValue::Read {
                path: r.path@,
                lines: line_values(r.lines@),
                total_lines: r.total_lines,
                lang: opt_view(r.lang),
            },
            CardView::Search(SearchCard::Matches { files, truncated, total }) => CardValue::Matches {
                files: file_group_values(files@),
                truncated,
                total,
            },
            CardView::Search(SearchCard::Paths { paths, truncated, total }) => CardValue::Paths {
                paths: views(paths@),
                truncated,
                total,
            },
            CardView::Diff(d) => CardValue::Diff { diffs: hunk_values(d.diffs@) },
        }
    }
}

// ---------------------------------------------------------------------------
// Narrowing
// ---------------------------------------------------------------------------
/// The results for all items, where there is one for each.
pub open spec fn all_of<T>(items: Seq<JsonValue>, f: spec_fn(JsonValue) -> Option<T>) -> Option<
    Seq<T>,
>
    decreases items.len(),
{
    if items.len() == 0 {
        Some(Seq::empty())
    } else {
        match (all_of(items.drop_last(), f), f(items.last())) {
            (Some(init), Some(x)) => Some(init.push(x)),
            _ => None,
        }
    }
}

/// A numbered line of a view.
pub open spec fn line_of(j: JsonValue) -> Option<LineValue> {
    match (j.field("number"@).as_unsigned(), j.field("text"@).as_text()) {
        (Some(n), Some(t)) => Some((n, t)),
        _ => None,
    }
}

/// The numbered lines under a key.
pub open spec fn lines_under(j: JsonValue, key: Seq<char>) -> Option<Seq<LineValue>> {
    match j.field(key).as_items() {
        Some(items) => all_of(items, |l: JsonValue| line_of(l)),
        None => None,
    }
}

/// A file with its matches.
pub open spec fn group_of(j: JsonValue) -> Option<GroupValue> {
    match (j.field("path"@).as_text(), lines_under(j, "matches"@)) {
        (Some(path), Some(matches)) => Some(GroupValue { path, matches }),
        _ => None,
    }
}

/// One change of a file.
pub open spec fn hunk_of(j: JsonValue) -> Option<HunkValue> {
    match (j.field("path"@).as_text(), j.field("newText"@).as_text()) {
        (Some(path), Some(new_text)) => Some(
            HunkValue { path, old_text: j.field("oldText"@).as_text(), new_text },
        ),
        _ => None,
    }
}

pub open spec fn read_of(j: JsonValue) -> Option<CardValue> {
    match (
        j.field("path"@).as_text(),
        lines_under(j, "lines"@),
        j.field("totalLines"@).as_unsigned(),
    ) {
        (Some(path), Some(lines), Some(total_lines)) => Some(
            CardValue::Read { path, lines, total_lines, lang: j.field("lang"@).as_text() },
        ),
        _ => None,
    }
}

pub open spec fn search_of(j: JsonValue) -> Option<CardValue> {
    match (
        j.field("truncated"@).as_flag(),
        j.field("total"@).as_unsigned(),
        j.field("shape"@).as_text(),
    ) {
        (Some(truncated), Some(total), Some(shape)) => {
            if shape == "searchMatches"@ {
                match j.field("files"@).as_items() {
                    Some(items) => match all_of(items, |f: JsonValue| group_of(f)) {
                        Some(files) => Some(CardValue::Matches { files, truncated, total }),
                        None => None,
                    },
                    None => None,
                }
            } else if shape == "searchPaths"@ {
                match j.field("paths"@).as_items() {
                    Some(items) => match all_of(items, |p: JsonValue| p.as_text()) {
                        Some(paths) => Some(CardValue::Paths { paths, truncated, total }),
                        None => None,
                    },
                    None => None,
                }
            } else {
                None
            }
        },
        _ => None,
    }
}

pub open spec fn diff_of(j: JsonValue) -> Option<CardValue> {
    match j.field("diffs"@).as_items() {
        Some(items) => match all_of(items, |d: JsonValue| hunk_of(d)) {
            Some(diffs) => if diffs.len() == 0 {
                None
            } else {
                Some(CardValue::Diff { diffs })
            },
            None => None,
        },
        None => None,
    }
}

/// The exit code of a terminal view: the low 32 bits of the number it states.
pub open spec fn exit_code_of(j: JsonValue) -> Option<i32> {
    match j.field("exitCode"@).as_signed() {
        Some(c) => Some(c as i32),
        None => None,
    }
}

/// The card that a view stands for.
pub open spec fn card_of(j: JsonValue) -> Option<CardValue> {
    match j.field("card"@).as_text() {
        Some(card) => if card == "terminal"@ {
            Some(
                CardValue::Terminal {
                    exit_code: exit_code_of(j),
                    signal: j.field("signal"@).as_text(),
                    cwd: j.field("cwd"@).as_text(),
                },
            )
        } else if card == "read"@ {
            read_of(j)
        } else if card == "search"@ {
            search_of(j)
        } else if card == "diff"@ {
            diff_of(j)
        } else {
            None
        },
        None => None,
    }
}

proof fn lemma_all_of_fails<T>(
    items: Seq<JsonValue>,
    f: spec_fn(JsonValue) -> Option<T>,
    k: int,
)
    requires
        0 <= k <= items.len(),
        all_of(items.take(k), f) is None,
    ensures
        all_of(items, f) is None,
    decreases items.len() - k,
{
    if k == items.len() {
        assert(items.take(k) =~= items);
    } else {
        assert(items.take(k + 1).drop_last() =~= items.take(k));
        lemma_all_of_fails(items, f, k + 1);
    }
}

fn u64_at(j: &Json, key: &str) -> (r: Option<u64>)
    ensures
        r == j.value().field(key@).as_unsigned(),
{
    match j.get(key) {
        Some(v) => v.as_u64(),
        None => None,
    }
}

fn read_lines(j: &Json, key: &str) -> (r: Option<Vec<Line>>)
    ensures
        match r {
            Some(v) => lines_under(j.value(), key@) == Some(line_values(v@)),
            None => lines_under(j.value(), key@) is None,
        },
{
    let items = match j.items_at(key) {
        Some(items) => items,
        None => {
            return None;
        },
    };
    let ghost vals = values(items@);
    let ghost f = |l: JsonValue| line_of(l);
    let mut out: Vec<Line> = Vec::new();
    let mut i: usize = 0;
    assert(vals.take(0) =~= Seq::<JsonValue>::empty());
    assert(line_values(out@) =~= Seq::<LineValue>::empty());
    while i < items.len()
        invariant
            vals == values(items@),
            j.value().field(key@) == JsonValue::Array(vals),
            f == (|l: JsonValue| line_of(l)),
            i <= items@.len(),
            all_of(vals.take(i as int), f) == Some(line_values(out@)),
        decreases items@.len() - i,
    {
        let l = &items[i];
        proof {
            assert(vals.take(i + 1).drop_last() =~= vals.take(i as int));
            assert(vals.take(i + 1).last() == l.value());
        }
        match (u64_at(l, "number"), l.text_at("text")) {
            (Some(n), Some(t)) => {
                let ghost before = out@;
                out.push((n, t));
                assert(line_values(out@) =~= line_values(before).push((n, t@)));
            },
            _ => {
                proof {
                    lemma_all_of_fails(vals, f, i + 1);
                }
                return None;
            },
        }
        i = i + 1;
    }
    assert(vals.take(i as int) =~= vals);
    Some(out)
}

fn read_groups(items: &Vec<Json>) -> (r: Option<Vec<FileGroup>>)
    ensures
        match r {
            Some(v) => all_of(values(items@), |f: JsonValue| group_of(f)) == Some(
                file_group_values(v@),
            ),
            None => all_of(values(items@), |f: JsonValue| group_of(f)) is None,
        },
{
    let ghost vals = values(items@);
    let ghost f = |f: JsonValue| group_of(f);
    let mut out: Vec<FileGroup> = Vec::new();
    let mut i: usize = 0;
    assert(vals.take(0) =~= Seq::<JsonValue>::empty());
    assert(file_group_values(out@) =~= Seq::<GroupValue>::empty());
    while i < items.len()
        invariant
            vals == values(items@),
            f == (|f: JsonValue| group_of(f)),
            i <= items@.len(),
            all_of(vals.take(i as int), f) == Some(file_group_values(out@)),
        decreases items@.len() - i,
    {
        let g = &items[i];
        proof {
            assert(vals.take(i + 1).drop_last() =~= vals.take(i as int));
            assert(vals.take(i + 1).last() == g.value());
        }
        match (g.text_at("path"), read_lines(g, "matches")) {
            (Some(path), Some(matches)) => {
                let ghost before = out@;
                let group = FileGroup { path, matches };
                out.push(group);
                assert(file_group_values(out@) =~= file_group_values(before).push(group@));
            },
            _ => {
                proof {
                    lemma_all_of_fails(vals, f, i + 1);
                }
                return None;
            },
        }
        i = i + 1;
    }
    assert(vals.take(i as int) =~= vals);
    Some(out)
}

fn read_paths(items: &Vec<Json>) -> (r: Option<Vec<String>>)
    ensures
        match r {
            Some(v) => all_of(values(items@), |p: JsonValue| p.as_text()) == Some(views(v@)),
            None => all_of(values(items@), |p: JsonValue| p.as_text()) is None,
        },
{
    let ghost vals = values(items@);
    let ghost f = |p: JsonValue| p.as_text();
    let mut out: Vec<String> = Vec::new();
    let mut i: usize = 0;
    assert(vals.take(0) =~= Seq::<JsonValue>::empty());
    assert(views(out@) =~= Seq::<Seq<char>>::empty());
    while i < items.len()
        invariant
            vals == values(items@),
            f == (|p: JsonValue| p.as_text()),
            i <= items@.len(),
            all_of(vals.take(i as int), f) == Some(views(out@)),
        decreases items@.len() - i,
    {
        let p = &items[i];
        proof {
            assert(vals.take(i + 1).drop_last() =~= vals.take(i as int));
            assert(vals.take(i + 1).last() == p.value());
        }
        match p.as_str() {
            Some(s) => {
                let ghost before = out@;
                out.push(s.clone());
                assert(views(out@) =~= views(before).push(s@));
            },
            None => {
                proof {
                    lemma_all_of_fails(vals, f, i + 1);
                }
                return None;
            },
        }
        i = i + 1;
    }
    assert(vals.take(i as int) =~= vals);
    Some(out)
}

fn read_hunks(items: &Vec<Json>) -> (r: Option<Vec<DiffHunk>>)
    ensures
        match r {
            Some(v) => all_of(values(items@), |d: JsonValue| hunk_of(d)) == Some(hunk_values(v@)),
            None => all_of(values(items@), |d: JsonValue| hunk_of(d)) is None,
        },
{
    let ghost vals = values(items@);
    let ghost f = |d: JsonValue| hunk_of(d);
    let mut out: Vec<DiffHunk> = Vec::new();
    let mut i: usize = 0;
    assert(vals.take(0) =~= Seq::<JsonValue>::empty());
    assert(hunk_values(out@) =~= Seq::<HunkValue>::empty());
    while i < items.len()
        invariant
            vals == values(items@),
            f == (|d: JsonValue| hunk_of(d)),
            i <= items@.len(),
            all_of(vals.take(i as int), f) == Some(hunk_values(out@)),
        decreases items@.len() - i,
    {
        let d = &items[i];
        proof {
            assert(vals.take(i + 1).drop_last() =~= vals.take(i as int));
            assert(vals.take(i + 1).last() == d.value());
        }
        match (d.text_at("path"), d.text_at("newText")) {
            (Some(path), Some(new_text)) => {
                let ghost before = out@;
                let h = DiffHunk { path, old_text: d.text_at("oldText"), new_text };
                out.push(h);
                assert(hunk_values(out@) =~= hunk_values(before).push(h@));
            },
            _ => {
                proof {
                    lemma_all_of_fails(vals, f, i + 1);
                }
                return None;
            },
        }
        i = i + 1;
    }
    assert(vals.take(i as int) =~= vals);
    Some(out)
}

fn narrow_search(view: &Json) -> (r: Option<SearchCard>)
    ensures
        match r {
            Some(c) => search_of(view.value()) == Some(CardView::Search(c)@),
            None => search_of(view.value()) is None,
        },
{
    let truncated = match view.get("truncated") {
        Some(t) => match t.as_bool() {
            Some(b) => b,
            None => {
                return None;
            },
        },
        None => {
            return None;
        },
    };
    let total = match u64_at(view, "total") {
        Some(n) => n,
        None => {
            return None;
        },
    };
    let shape = match view.text_at("shape") {
        Some(s) => s,
        None => {
            return None;
        },
    };
    if str_eq(shape.as_str(), "searchMatches") {
        match view.items_at("files") {
            Some(items) => match read_groups(items) {
                Some(files) => Some(SearchCard::Matches { files, truncated, total }),
                None => None,
            },
            None => None,
        }
    } else if str_eq(shape.as_str(), "searchPaths") {
        match view.items_at("paths") {
            Some(items) => match read_paths(items) {
                Some(paths) => Some(SearchCard::Paths { paths, truncated, total }),
                None => None,
            },
            None => None,
        }
    } else {
        None
    }
}

/// Narrows a view to a card, or refuses it.
pub fn narrow(view: &Json) -> (r: Option<CardView>)
    ensures
        match r {
            Some(c) => card_of(view.value()) == Some(c@),
            None => card_of(view.value()) is None,
        },
{
    let card = match view.text_at("card") {
        Some(c) => c,
        None => {
            return None;
        },
    };
    let card = card.as_str();
    if str_eq(card, "terminal") {
        let code = match view.get("exitCode") {
            Some(c) => c.as_i64(),
            None => None,
        };
        let exit_code = match code {
            Some(c) => Some(
                #[verifier::truncate]
                (c as i32),
            ),
            None => None,
        };
        Some(
            CardView::Terminal(
                TerminalDetail {
                    exit_code,
                    signal: view.text_at("signal"),
                    cwd: view.text_at("cwd"),
                },
            ),
        )
    } else if str_eq(card, "read") {
        match (view.text_at("path"), read_lines(view, "lines"), u64_at(view, "totalLines")) {
            (Some(path), Some(lines), Some(total_lines)) => Some(
                CardView::Read(ReadCard { path, lines, total_lines, lang: view.text_at("lang") }),
            ),
            _ => None,
        }
    } else if str_eq(card, "search") {
        match narrow_search(view) {
            Some(c) => Some(CardView::Search(c)),
            None => None,
        }
    } else if str_eq(card, "diff") {
        match view.items_at("diffs") {
            Some(items) => match read_hunks(items) {
                Some(diffs) => {
                    assert(hunk_values(diffs@).len() == diffs@.len());
                    if diffs.len() == 0 {
                        None
                    } else {
                        Some(CardView::Diff(DiffCard { diffs }))
                    }
                },
                None => None,
            },
            None => None,
        }
    } else {
        None
    }
}

/// A view without a known `card` is refused, whatever else it holds.
pub proof fn law_unknown_cards_are_refused(j: JsonValue)
    requires
        j.field("card"@).as_text() matches Some(c) ==> c != "terminal"@ && c != "read"@ && c
            != "search"@ && c != "diff"@,
    ensures
        card_of(j) is None,
{
}

/// A list is read item by item: it has a result where every item has one, and
/// then these, in order.
pub proof fn law_lists_are_read_item_by_item<T>(
    items: Seq<JsonValue>,
    f: spec_fn(JsonValue) -> Option<T>,
    v: Seq<T>,
)
    ensures
        all_of(items, f) == Some(v) <==> v.len() == items.len() && forall|i: int|
            0 <= i < items.len() ==> f(#[trigger] items[i]) == Some(v[i]),
        (exists|i: int| 0 <= i < items.len() && f(#[trigger] items[i]) is None) ==> all_of(
            items,
            f,
        ) is None,
    decreases items.len(),
{
    if items.len() > 0 {
        let init = items.drop_last();
        let n = items.len() - 1;
        if v.len() > 0 {
            law_lists_are_read_item_by_item(init, f, v.drop_last());
        } else {
            law_lists_are_read_item_by_item(init, f, v);
        }
        if v.len() == items.len() && (forall|i: int|
            0 <= i < items.len() ==> f(#[trigger] items[i]) == Some(v[i])) {
            assert forall|i: int| 0 <= i < init.len() implies f(#[trigger] init[i]) == Some(
                v.drop_last()[i],
            ) by {
                assert(init[i] == items[i]);
            }
            assert(f(items[n]) == Some(v[n]));
            assert(v.drop_last().push(v[n]) =~= v);
        }
        if all_of(items, f) == Some(v) {
            let w = all_of(init, f)->0;
            assert(v == w.push(f(items.last())->0));
            assert(v.drop_last() =~= w);
            assert forall|i: int| 0 <= i < items.len() implies f(#[trigger] items[i]) == Some(
                v[i],
            ) by {
                if i < n {
                    assert(init[i] == items[i]);
                    assert(f(init[i]) == Some(v.drop_last()[i]));
                }
            }
        }
        if exists|i: int| 0 <= i < items.len() && f(#[trigger] items[i]) is None {
            let i = choose|i: int| 0 <= i < items.len() && f(#[trigger] items[i]) is None;
            if i < n {
                assert(f(init[i]) is None);
            }
        }
    } else if v.len() == 0 {
        assert(v =~= Seq::<T>::empty());
    }
}

/// A terminal card tells the exit code, the signal and the directory, each where
/// the view states it.
pub proof fn law_terminal_cards(j: JsonValue, code: i32)
    requires
        j.get("card"@) == Some(JsonValue::Str("terminal"@)),
    ensures
        card_of(j) matches Some(CardValue::Terminal { exit_code, signal, cwd }) && {
            &&& j.field("exitCode"@).as_signed() == Some(code as i64) ==> exit_code == Some(code)
            &&& j.get("exitCode"@) is None ==> exit_code is None
            &&& signal == j.field("signal"@).as_text()
            &&& cwd == j.field("cwd"@).as_text()
        },
{
}

/// A read card has the path, the numbered lines in order, the length of the file
/// and its language, where the view states it.
pub proof fn law_read_cards(
    j: JsonValue,
    path: Seq<char>,
    total: u64,
    items: Seq<JsonValue>,
    lines: Seq<LineValue>,
)
    requires
        j.get("card"@) == Some(JsonValue::Str("read"@)),
        j.get("path"@) == Some(JsonValue::Str(path)),
        j.get("totalLines"@) == Some(JsonValue::Number(Number::Unsigned(total))),
        j.get("lines"@) == Some(JsonValue::Array(items)),
        lines.len() == items.len(),
        forall|i: int|
            0 <= i < items.len() ==> (#[trigger] items[i]).get("number"@) == Some(
                JsonValue::Number(Number::Unsigned(lines[i].0)),
            ) && items[i].get("text"@) == Some(JsonValue::Str(lines[i].1)),
    ensures
        card_of(j) == Some(
            CardValue::Read {
                path,
                lines,
                total_lines: total,
                lang: match j.get("lang"@) {
                    Some(JsonValue::Str(l)) => Some(l),
                    _ => None,
                },
            },
        ),
{
    lemma_card_names();
    law_lists_are_read_item_by_item(items, |l: JsonValue| line_of(l), lines);
}

/// A search card of matches has the files in order, each with its numbered
/// matches; one of paths has the paths in order.
pub proof fn law_search_cards(
    j: JsonValue,
    truncated: bool,
    total: u64,
    items: Seq<JsonValue>,
    files: Seq<GroupValue>,
    paths: Seq<Seq<char>>,
)
    requires
        j.get("card"@) == Some(JsonValue::Str("search"@)),
        j.get("truncated"@) == Some(JsonValue::Bool(truncated)),
        j.get("total"@) == Some(JsonValue::Number(Number::Unsigned(total))),
    ensures
        j.get("shape"@) == Some(JsonValue::Str("searchPaths"@)) && j.get("paths"@) == Some(
            JsonValue::Array(items),
        ) && paths.len() == items.len() && (forall|i: int|
            0 <= i < items.len() ==> #[trigger] items[i] == JsonValue::Str(paths[i])) ==> card_of(j)
            == Some(CardValue::Paths { paths, truncated, total }),
        j.get("shape"@) == Some(JsonValue::Str("searchMatches"@)) && j.get("files"@) == Some(
            JsonValue::Array(items),
        ) && files.len() == items.len() && (forall|i: int|
            0 <= i < items.len() ==> is_group(#[trigger] items[i], files[i]))
                ==> card_of(j) == Some(
            CardValue::Matches { files, truncated, total },
        ),
{
    lemma_card_names();
    law_lists_are_read_item_by_item(items, |p: JsonValue| p.as_text(), paths);
    law_lists_are_read_item_by_item(items, |f: JsonValue| group_of(f), files);
    if files.len() == items.len() && (forall|i: int|
        0 <= i < items.len() ==> is_group(#[trigger] items[i], files[i])) {
        assert forall|i: int| 0 <= i < items.len() implies group_of(#[trigger] items[i]) == Some(
            files[i],
        ) by {
            assert(is_group(items[i], files[i]));
            let ms = items[i].field("matches"@)->Array_0;
            law_lists_are_read_item_by_item(ms, |l: JsonValue| line_of(l), files[i].matches);
        }
    }
}

/// Whether a value states a file and its numbered matches.
pub open spec fn is_group(j: JsonValue, g: GroupValue) -> bool {
    &&& j.get("path"@) == Some(JsonValue::Str(g.path))
    &&& j.get("matches"@) matches Some(JsonValue::Array(ms)) && ms.len() == g.matches.len()
        && forall|k: int|
        0 <= k < ms.len() ==> (#[trigger] ms[k]).get("number"@) == Some(
            JsonValue::Number(Number::Unsigned(g.matches[k].0)),
        ) && ms[k].get("text"@) == Some(JsonValue::Str(g.matches[k].1))
}

/// A diff card has the changes in order, each with its file, the new text, and
/// the old text where there was one. A card without changes is refused.
pub proof fn law_diff_cards(j: JsonValue, items: Seq<JsonValue>, diffs: Seq<HunkValue>)
    requires
        j.get("card"@) == Some(JsonValue::Str("diff"@)),
        j.get("diffs"@) == Some(JsonValue::Array(items)),
        diffs.len() == items.len(),
        forall|i: int|
            0 <= i < items.len() ==> {
                &&& (#[trigger] items[i]).get("path"@) == Some(JsonValue::Str(diffs[i].path))
                &&& items[i].get("newText"@) == Some(JsonValue::Str(diffs[i].new_text))
                &&& items[i].field("oldText"@).as_text() == diffs[i].old_text
            },
    ensures
        card_of(j) == (if items.len() == 0 {
            None
        } else {
            Some(CardValue::Diff { diffs })
        }),
{
    lemma_card_names();
    law_lists_are_read_item_by_item(items, |d: JsonValue| hunk_of(d), diffs);
}

proof fn lemma_card_names()
    ensures
        "read"@ != "terminal"@,
        "search"@ != "terminal"@,
        "search"@ != "read"@,
        "diff"@ != "terminal"@,
        "diff"@ != "read"@,
        "diff"@ != "search"@,
        "searchPaths"@ != "searchMatches"@,
{
    reveal_strlit("terminal");
    reveal_strlit("read");
    reveal_strlit("search");
    reveal_strlit("diff");
    reveal_strlit("searchPaths");
    reveal_strlit("searchMatches");
    assert("terminal"@.len() == 8 && "read"@.len() == 4 && "search"@.len() == 6
        && "diff"@.len() == 4
        && "searchPaths"@.len() == 11 && "searchMatches"@.len() == 13);
    assert("read"@[0] == 'r' && "diff"@[0] == 'd');
}

} // verus!
