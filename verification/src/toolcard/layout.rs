//! What the read, search and diff cards show: their rows, the rows that fold
//! away, and their texts.

use crate::cache::MemoCache;
use crate::decimal::{dec, u64_text, usize_text};
use crate::highlight::{
    fingerprint, highlight_window, highlighted, lines_bytes, looked_up, opt_lines, span_lines,
    span_values, str_views, unshared, window_key, Engine, Span,
};
use crate::markdown::text_hash;
use crate::scan::{lines, lines_of, split, split_chars, stands_at, starts_with_str};
use crate::text::{
    cat2, cat3, cat4, cat5, chars_of, join, join_strings, opt_view, owned, str_eq,
    string_of_range, views,
};
use crate::toolcard::{
    file_group_values, hunk_values, line_values, DiffCard, FileGroup, GroupValue, HunkValue,
    LineValue, ReadCard, SearchCard,
};
use vstd::prelude::*;
use vstd::string::*;

verus! {

/// Rows that a card shows in a chat before it folds.
pub const CHAT_CARD_MAX_LINES: usize = 8;

// ---------------------------------------------------------------------------
// Folding
// ---------------------------------------------------------------------------
/// How a list of rows folds: `head` rows at its start and `tail` at its end
/// stay visible.
#[derive(Debug, Clone, Copy, PartialEq, Eq, Structural)]
pub struct HeadTail {
    /// Rows over the cap, whether or not they are folded now.
    pub hidden: usize,
    /// Whether they are folded now.
    pub capped: bool,
    pub head: usize,
    pub tail: usize,
}

/// How a list of rows folds: the larger half of the cap stands at the head.
pub open spec fn head_tail_of(total: nat, cap: nat, expanded: bool) -> HeadTail {
    let hidden: int = if total > cap {
        total - cap
    } else {
        0
    };
    HeadTail {
        hidden: hidden as usize,
        capped: hidden > 0 && !expanded,
        head: ((cap + 1) / 2) as usize,
        tail: (cap - (cap + 1) / 2) as usize,
    }
}

/// How a list of rows folds.
pub fn head_tail(total: usize, cap: usize, expanded: bool) -> (r: HeadTail)
    ensures
        r == head_tail_of(total as nat, cap as nat, expanded),
{
    let hidden: usize = total.saturating_sub(cap);
    let head: usize = cap - cap / 2;
    assert(cap - cap / 2 == (cap + 1) / 2);
    HeadTail { hidden, capped: hidden > 0 && !expanded, head, tail: cap - head }
}

/// The head and the tail make up the cap, and with the hidden rows a folded
/// list is complete. Unfolding keeps the count of hidden rows.
pub proof fn law_folding_is_exact(total: usize, cap: usize)
    ensures
        ({
            let folded = head_tail_of(total as nat, cap as nat, false);
            let open = head_tail_of(total as nat, cap as nat, true);
            &&& folded.head + folded.tail == cap
            &&& 0 <= folded.head - folded.tail <= 1
            &&& folded.capped ==> folded.head + folded.tail + folded.hidden == total
            &&& !folded.capped ==> total <= cap
            &&& !open.capped
            &&& open.hidden == folded.hidden
        }),
{
}

/// A place in a card body.
#[derive(Debug, Clone, Copy, PartialEq, Eq, Structural)]
pub enum Slot {
    /// The row with this index.
    Row(usize),
    /// The button that folds and unfolds.
    Expand,
}

/// The rows `from..to`.
pub open spec fn row_slots(from: int, to: int) -> Seq<Slot> {
    Seq::new(
        if from < to {
            (to - from) as nat
        } else {
            0
        },
        |i: int| Slot::Row((from + i) as usize),
    )
}

/// The places of a body with `total` rows: the head, the button where rows
/// are over the cap, and the tail where it is folded.
pub open spec fn slots_of(total: nat, cap: nat, expanded: bool) -> Seq<Slot> {
    let ht = head_tail_of(total, cap, expanded);
    row_slots(
        0,
        if ht.capped {
            ht.head as int
        } else {
            total as int
        },
    ) + (if ht.hidden > 0 {
        seq![Slot::Expand]
    } else {
        Seq::empty()
    }) + row_slots(
        total - (if ht.capped {
            ht.tail as int
        } else {
            0
        }),
        total as int,
    )
}

fn push_rows(out: &mut Vec<Slot>, from: usize, to: usize)
    requires
        from <= to,
    ensures
        final(out)@ == old(out)@ + row_slots(from as int, to as int),
{
    let mut i: usize = from;
    assert(old(out)@ + row_slots(from as int, from as int) =~= old(out)@);
    while i < to
        invariant
            from <= i <= to,
            out@ == old(out)@ + row_slots(from as int, i as int),
        decreases to - i,
    {
        out.push(Slot::Row(i));
        assert(out@ =~= old(out)@ + row_slots(from as int, i + 1));
        i = i + 1;
    }
}

/// The places of a body with `total` rows.
pub fn body_slots(total: usize, cap: usize, expanded: bool) -> (r: Vec<Slot>)
    ensures
        r@ == slots_of(total as nat, cap as nat, expanded),
{
    let ht = head_tail(total, cap, expanded);
    let mut out: Vec<Slot> = Vec::new();
    push_rows(
        &mut out,
        0,
        if ht.capped {
            ht.head
        } else {
            total
        },
    );
    if ht.hidden > 0 {
        out.push(Slot::Expand);
    }
    let tail: usize = if ht.capped {
        ht.tail
    } else {
        0
    };
    push_rows(&mut out, total - tail, total);
    assert(out@ =~= slots_of(total as nat, cap as nat, expanded));
    out
}

/// The text of the button that folds and unfolds; none where nothing is over
/// the cap.
pub open spec fn expand_label_of(hidden: nat, expanded: bool) -> Option<Seq<char>> {
    if hidden == 0 {
        None
    } else if expanded {
        Some("收起"@)
    } else {
        Some("… 其余 "@ + dec(hidden) + " 行"@)
    }
}

/// The text of the button that folds and unfolds.
pub fn expand_label(hidden: usize, expanded: bool) -> (r: Option<String>)
    ensures
        opt_view(r) == expand_label_of(hidden as nat, expanded),
{
    if hidden == 0 {
        None
    } else if expanded {
        Some(owned("收起"))
    } else {
        let n = usize_text(hidden);
        Some(cat3("… 其余 ", n.as_str(), " 行"))
    }
}

/// The text of a copy button.
pub fn copy_label(copied: bool) -> (r: &'static str)
    ensures
        r@ == (if copied {
            "复制成功"@
        } else {
            "复制"@
        }),
{
    if copied {
        "复制成功"
    } else {
        "复制"
    }
}

// ---------------------------------------------------------------------------
// Read
// ---------------------------------------------------------------------------
/// What a read card shows around its lines.
#[derive(Debug, Clone, PartialEq, Eq)]
pub struct ReadLayout {
    /// How much of the file is there, where it is not all.
    pub window_note: Option<String>,
    /// What the copy button copies; none where there is nothing.
    pub copy_text: Option<String>,
    pub slots: Vec<Slot>,
    pub expand_label: Option<String>,
}

/// The texts of numbered lines.
pub open spec fn line_texts(v: Seq<LineValue>) -> Seq<Seq<char>> {
    v.map_values(|l: LineValue| l.1)
}

/// How much of a file a read card has, where it is not all.
pub open spec fn window_note_of(shown: nat, total: u64) -> Option<Seq<char>> {
    if shown < total {
        Some("显示 "@ + dec(shown) + " / "@ + dec(total as nat) + " 行"@)
    } else {
        None
    }
}

fn texts_of(lines: &Vec<(u64, String)>) -> (r: Vec<String>)
    ensures
        views(r@) == line_texts(line_values(lines@)),
{
    let mut out: Vec<String> = Vec::new();
    let mut i: usize = 0;
    while i < lines.len()
        invariant
            i <= lines@.len(),
            out@.len() == i,
            forall|k: int| 0 <= k < i ==> (#[trigger] out@[k])@ == lines@[k].1@,
        decreases lines@.len() - i,
    {
        out.push(lines[i].1.clone());
        i = i + 1;
    }
    assert(views(out@) =~= line_texts(line_values(lines@)));
    out
}

/// What a read card shows around its lines.
pub fn read_layout(card: &ReadCard, expanded: bool) -> (r: ReadLayout)
    ensures
        opt_view(r.window_note) == window_note_of(card.lines@.len(), card.total_lines),
        opt_view(r.copy_text) == (if card.lines@.len() == 0 {
            None
        } else {
            Some(join(line_texts(line_values(card.lines@)), "\n"@))
        }),
        r.slots@ == slots_of(card.lines@.len(), CHAT_CARD_MAX_LINES as nat, expanded),
        opt_view(r.expand_label) == expand_label_of(
            head_tail_of(card.lines@.len(), CHAT_CARD_MAX_LINES as nat, expanded).hidden as nat,
            expanded,
        ),
{
    let n: usize = card.lines.len();
    let ht = head_tail(n, CHAT_CARD_MAX_LINES, expanded);
    let window_note = if (n as u64) < card.total_lines {
        let shown = usize_text(n);
        let total = u64_text(card.total_lines);
        Some(cat5("显示 ", shown.as_str(), " / ", total.as_str(), " 行"))
    } else {
        None
    };
    let copy_text = if n == 0 {
        None
    } else {
        let texts = texts_of(&card.lines);
        Some(join_strings(texts.as_slice(), "\n"))
    };
    ReadLayout {
        window_note,
        copy_text,
        slots: body_slots(n, CHAT_CARD_MAX_LINES, expanded),
        expand_label: expand_label(ht.hidden, expanded),
    }
}

/// The content of a line of a read card.
#[derive(Debug, PartialEq, Eq)]
pub enum ReadText {
    /// The text in one colour.
    Plain(String),
    /// The text in pieces of one colour each.
    Coloured(Vec<Span>),
}

/// A line of a read card.
#[derive(Debug, PartialEq, Eq)]
pub struct ReadLine {
    pub number: u64,
    pub content: ReadText,
}

/// The content of a line.
#[verifier::ext_equal]
pub enum ReadLineValue {
    Plain { number: u64, text: Seq<char> },
    Coloured { number: u64, spans: Seq<(u32, Seq<char>)> },
}

impl View for ReadLine {
    type V = ReadLineValue;

    open spec fn view(&self) -> ReadLineValue {
        match self.content {
            ReadText::Plain(t) => ReadLineValue::Plain { number: self.number, text: t@ },
            ReadText::Coloured(v) => ReadLineValue::Coloured {
                number: self.number,
                spans: span_values(v@),
            },
        }
    }
}

/// A line of a read card with the spans at its place, where there are any;
/// else with its text.
pub open spec fn read_line_of(
    line: LineValue,
    hl: Option<Seq<Seq<(u32, Seq<char>)>>>,
    i: int,
) -> ReadLineValue {
    match hl {
        Some(v) if 0 <= i < v.len() && v[i].len() > 0 => ReadLineValue::Coloured {
            number: line.0,
            spans: v[i],
        },
        _ => ReadLineValue::Plain { number: line.0, text: line.1 },
    }
}

/// The lines of a read card: line by line with its spans.
pub open spec fn read_lines_of(
    v: Seq<LineValue>,
    hl: Option<Seq<Seq<(u32, Seq<char>)>>>,
) -> Seq<ReadLineValue> {
    Seq::new(v.len(), |i: int| read_line_of(v[i], hl, i))
}

fn copy_spans(v: &Vec<Span>) -> (r: Vec<Span>)
    ensures
        span_values(r@) == span_values(v@),
{
    let mut out: Vec<Span> = Vec::new();
    let mut i: usize = 0;
    while i < v.len()
        invariant
            i <= v@.len(),
            out@.len() == i,
            forall|k: int|
                0 <= k < i ==> (#[trigger] out@[k]).colour == v@[k].colour && out@[k].text@
                    == v@[k].text@,
        decreases v@.len() - i,
    {
        out.push(Span { colour: v[i].colour, text: owned(v[i].text.as_str()) });
        i = i + 1;
    }
    assert(span_values(out@) =~= span_values(v@));
    out
}

/// Puts lines and highlighted lines together.
pub fn join_read_lines(lines: &Vec<(u64, String)>, hl: Option<&Vec<Vec<Span>>>) -> (r: Vec<
    ReadLine,
>)
    ensures
        r@.map_values(|l: ReadLine| l@) == read_lines_of(
            line_values(lines@),
            match hl {
                Some(v) => Some(span_lines(v@)),
                None => None,
            },
        ),
{
    let ghost want = match hl {
        Some(v) => Some(span_lines(v@)),
        None => None,
    };
    let mut out: Vec<ReadLine> = Vec::new();
    let mut i: usize = 0;
    while i < lines.len()
        invariant
            i <= lines@.len(),
            want == (match hl {
                Some(v) => Some(span_lines(v@)),
                None => None,
            }),
            out@.len() == i,
            forall|k: int|
                0 <= k < i ==> (#[trigger] out@[k])@ == read_line_of(
                    line_values(lines@)[k],
                    want,
                    k,
                ),
        decreases lines@.len() - i,
    {
        let number: u64 = lines[i].0;
        let ghost at = line_values(lines@)[i as int];
        let content = match hl {
            Some(v) => {
                assert(span_lines(v@).len() == v@.len());
                if i < v.len() && v[i].len() > 0 {
                    assert(span_lines(v@)[i as int] == span_values(v@[i as int]@));
                    assert(span_values(v@[i as int]@).len() == v@[i as int]@.len());
                    ReadText::Coloured(copy_spans(&v[i]))
                } else {
                    assert(i < v@.len() ==> span_lines(v@)[i as int].len() == 0);
                    ReadText::Plain(owned(lines[i].1.as_str()))
                }
            },
            None => ReadText::Plain(owned(lines[i].1.as_str())),
        };
        let line = ReadLine { number, content };
        assert(line@ == read_line_of(at, want, i as int));
        out.push(line);
        i = i + 1;
    }
    assert(out@.map_values(|l: ReadLine| l@) =~= read_lines_of(line_values(lines@), want));
    out
}

/// The lines of a read card in colours, from the cache or anew; in one colour
/// without a language, or in one that is not known.
pub fn read_lines(
    cache: &mut MemoCache<Vec<Vec<Span>>>,
    engine: &Engine,
    dark: bool,
    key: &str,
    card: &ReadCard,
) -> (r: Vec<ReadLine>)
    requires
        old(cache).wf(),
        engine.wf(),
    ensures
        final(cache).wf(),
        match card.lang {
            None => r@.map_values(|l: ReadLine| l@) == read_lines_of(line_values(card.lines@), None)
                && *final(cache) == *old(cache),
            Some(lang) => {
                let texts = line_texts(line_values(card.lines@));
                exists|hl: Option<Vec<Vec<Span>>>| #[trigger]
                    looked_up(
                        *old(cache),
                        *final(cache),
                        window_key(dark, key@ + "·read"@, lang@),
                        text_hash(fingerprint(lang@, texts)),
                        lines_bytes(texts),
                        highlighted(lang@, dark, texts),
                        hl,
                    ) && r@.map_values(|l: ReadLine| l@) == read_lines_of(
                        line_values(card.lines@),
                        opt_lines(hl),
                    )
            },
        },
{
    let lang = match &card.lang {
        Some(l) => l.as_str(),
        None => {
            return join_read_lines(&card.lines, None);
        },
    };
    let mut refs: Vec<&str> = Vec::new();
    let mut i: usize = 0;
    while i < card.lines.len()
        invariant
            i <= card.lines@.len(),
            refs@.len() == i,
            forall|k: int| 0 <= k < i ==> (#[trigger] refs@[k])@ == card.lines@[k].1@,
        decreases card.lines@.len() - i,
    {
        refs.push(card.lines[i].1.as_str());
        i = i + 1;
    }
    assert(str_views(refs@) =~= line_texts(line_values(card.lines@)));
    let window = cat2(key, "·read");
    let found = highlight_window(cache, engine, dark, window.as_str(), Some(lang), refs.as_slice());
    let ghost value = unshared(found);
    let r = match &found {
        Some(hl) => join_read_lines(&card.lines, Some(&**hl)),
        None => join_read_lines(&card.lines, None),
    };
    assert(r@.map_values(|l: ReadLine| l@) == read_lines_of(
        line_values(card.lines@),
        opt_lines(value),
    ));
    r
}

// ---------------------------------------------------------------------------
// Search
// ---------------------------------------------------------------------------
/// A row of a search card.
#[derive(Debug, Clone, PartialEq, Eq)]
pub enum SearchRow {
    File { path: String, count: usize, group: usize },
    Match { number: u64, line: String, group: usize },
    Path(String),
}

/// A row of a search card, by value.
#[verifier::ext_equal]
pub enum RowValue {
    File { path: Seq<char>, count: nat, group: int },
    Match { number: u64, line: Seq<char>, group: int },
    Path(Seq<char>),
}

impl View for SearchRow {
    type V = RowValue;

    open spec fn view(&self) -> RowValue {
        match *self {
            SearchRow::File { path, count, group } => RowValue::File {
                path: path@,
                count: count as nat,
                group: group as int,
            },
            SearchRow::Match { number, line, group } => RowValue::Match {
                number,
                line: line@,
                group: group as int,
            },
            SearchRow::Path(p) => RowValue::Path(p@),
        }
    }
}

pub open spec fn row_values(v: Seq<SearchRow>) -> Seq<RowValue> {
    v.map_values(|r: SearchRow| r@)
}

/// The key under which a group of a card is folded.
pub open spec fn group_key(key: Seq<char>, path: Seq<char>) -> Seq<char> {
    key + ":"@ + path
}

/// The rows of the matches of a group.
pub open spec fn match_rows(ms: Seq<LineValue>, group: int) -> Seq<RowValue> {
    ms.map_values(|l: LineValue| RowValue::Match { number: l.0, line: l.1, group })
}

/// The rows of the first `n` groups: a header each, and its matches unless it
/// is folded.
pub open spec fn group_rows(
    files: Seq<GroupValue>,
    key: Seq<char>,
    collapsed: Seq<Seq<char>>,
    n: int,
) -> Seq<RowValue>
    decreases n,
{
    if n <= 0 {
        Seq::empty()
    } else {
        let f = files[n - 1];
        let init = group_rows(files, key, collapsed, n - 1).push(
            RowValue::File { path: f.path, count: f.matches.len(), group: n - 1 },
        );
        if collapsed.contains(group_key(key, f.path)) {
            init
        } else {
            init + match_rows(f.matches, n - 1)
        }
    }
}

/// The number of matches in the first `n` groups.
pub open spec fn match_count(files: Seq<GroupValue>, n: int) -> nat
    decreases n,
{
    if n <= 0 {
        0
    } else {
        match_count(files, n - 1) + files[n - 1].matches.len()
    }
}

/// How many results there are, and how many of them are shown.
pub open spec fn count_text(shown: nat, truncated: bool, total: u64) -> Seq<char> {
    if truncated {
        "显示 "@ + dec(shown) + " / 共 "@ + dec(total as nat)
    } else {
        dec(shown)
    }
}

/// A group as copied text: its path, then its matches.
pub open spec fn group_text(f: GroupValue) -> Seq<char> {
    join(
        seq![f.path] + f.matches.map_values(|l: LineValue| dec(l.0 as nat) + ": "@ + l.1),
        "\n"@,
    )
}

/// The rows of a search card.
pub open spec fn search_rows_of(
    card: SearchCard,
    key: Seq<char>,
    collapsed: Seq<Seq<char>>,
) -> Seq<RowValue> {
    match card {
        SearchCard::Matches { files, truncated, total } => group_rows(
            file_group_values(files@),
            key,
            collapsed,
            files@.len() as int,
        ),
        SearchCard::Paths { paths, truncated, total } => views(paths@).map_values(
            |p: Seq<char>| RowValue::Path(p),
        ),
    }
}

/// The summary of a search card.
pub open spec fn search_summary_of(card: SearchCard) -> Seq<char> {
    match card {
        SearchCard::Matches { files, truncated, total } => count_text(
            match_count(file_group_values(files@), files@.len() as int),
            truncated,
            total,
        ) + " 处匹配 · "@ + dec(files@.len()) + " 个文件"@,
        SearchCard::Paths { paths, truncated, total } => count_text(paths@.len(), truncated, total)
            + " 个路径"@,
    }
}

/// What the copy button of a search card copies.
pub open spec fn search_copy_of(card: SearchCard) -> Seq<char> {
    match card {
        SearchCard::Matches { files, truncated, total } => join(
            file_group_values(files@).map_values(|f: GroupValue| group_text(f)),
            "\n\n"@,
        ),
        SearchCard::Paths { paths, truncated, total } => join(views(paths@), "\n"@),
    }
}

/// Index of the header of a group among rows, or the number of rows.
pub open spec fn header_index(rows: Seq<RowValue>, group: int) -> int
    decreases rows.len(),
{
    if rows.len() == 0 {
        0
    } else if rows[0] matches RowValue::File { group: g, .. } && g == group {
        0
    } else {
        1 + header_index(rows.drop_first(), group)
    }
}

/// The places of a search card. Where the folded tail starts inside a group
/// whose header is not visible, the header takes the place of that row.
pub open spec fn search_slots_of(rows: Seq<RowValue>, expanded: bool) -> Seq<Slot> {
    let total = rows.len();
    let ht = head_tail_of(total, CHAT_CARD_MAX_LINES as nat, expanded);
    if !ht.capped {
        slots_of(total, CHAT_CARD_MAX_LINES as nat, expanded)
    } else {
        let from = total - ht.tail;
        let head = row_slots(0, ht.head as int).push(Slot::Expand);
        match rows[from] {
            RowValue::Match { number, line, group } => {
                let h = header_index(rows, group);
                if ht.head <= h < total {
                    head.push(Slot::Row(h as usize)) + row_slots(from + 1, total as int)
                } else {
                    head + row_slots(from, total as int)
                }
            },
            _ => head + row_slots(from, total as int),
        }
    }
}

/// What a search card shows.
#[derive(Debug, Clone, PartialEq, Eq)]
pub struct SearchLayout {
    pub summary: String,
    pub rows: Vec<SearchRow>,
    pub slots: Vec<Slot>,
    /// What the copy button copies; none where there are no rows.
    pub copy_text: Option<String>,
    pub expand_label: Option<String>,
}

fn contains_key(keys: &[String], key: &str) -> (r: bool)
    ensures
        r == views(keys@).contains(key@),
{
    let ghost v = views(keys@);
    let mut i: usize = 0;
    while i < keys.len()
        invariant
            v == views(keys@),
            i <= keys@.len(),
            forall|k: int| 0 <= k < i ==> #[trigger] v[k] != key@,
        decreases keys@.len() - i,
    {
        if str_eq(keys[i].as_str(), key) {
            assert(v[i as int] == key@);
            return true;
        }
        i = i + 1;
    }
    false
}

fn rows_of_groups(files: &Vec<FileGroup>, key: &str, collapsed: &[String]) -> (r: Vec<SearchRow>)
    ensures
        row_values(r@) == group_rows(
            file_group_values(files@),
            key@,
            views(collapsed@),
            files@.len() as int,
        ),
{
    let ghost fv = file_group_values(files@);
    let mut out: Vec<SearchRow> = Vec::new();
    let mut i: usize = 0;
    assert(row_values(out@) =~= Seq::<RowValue>::empty());
    while i < files.len()
        invariant
            fv == file_group_values(files@),
            i <= files@.len(),
            row_values(out@) == group_rows(fv, key@, views(collapsed@), i as int),
        decreases files@.len() - i,
    {
        let f = &files[i];
        assert(fv[i as int] == f@);
        let ghost before = out@;
        let header = SearchRow::File { path: f.path.clone(), count: f.matches.len(), group: i };
        out.push(header);
        assert(row_values(out@) =~= row_values(before).push(header@));
        let ghost base = row_values(out@);
        let k = cat3(key, ":", f.path.as_str());
        if !contains_key(collapsed, k.as_str()) {
            let ghost want = match_rows(line_values(f.matches@), i as int);
            let mut m: usize = 0;
            assert(base + want.take(0) =~= base);
            while m < f.matches.len()
                invariant
                    want == match_rows(line_values(f.matches@), i as int),
                    m <= f.matches@.len(),
                    row_values(out@) == base + want.take(m as int),
                decreases f.matches@.len() - m,
            {
                let ghost mid = out@;
                let row = SearchRow::Match {
                    number: f.matches[m].0,
                    line: f.matches[m].1.clone(),
                    group: i,
                };
                out.push(row);
                assert(row_values(out@) =~= row_values(mid).push(row@));
                assert(want[m as int] == row@);
                assert(row_values(out@) =~= base + want.take(m + 1));
                m = m + 1;
            }
            assert(want.take(m as int) =~= want);
        }
        i = i + 1;
    }
    out
}

fn count_matches(files: &Vec<FileGroup>) -> (n: usize)
    requires
        match_count(file_group_values(files@), files@.len() as int) <= usize::MAX,
    ensures
        n == match_count(file_group_values(files@), files@.len() as int),
{
    let ghost fv = file_group_values(files@);
    let mut n: usize = 0;
    let mut i: usize = 0;
    while i < files.len()
        invariant
            fv == file_group_values(files@),
            i <= files@.len(),
            n == match_count(fv, i as int),
            match_count(fv, files@.len() as int) <= usize::MAX,
        decreases files@.len() - i,
    {
        proof {
            lemma_match_count_grows(fv, i + 1, files@.len() as int);
            assert(fv[i as int].matches.len() == files@[i as int].matches@.len());
        }
        n = n + files[i].matches.len();
        i = i + 1;
    }
    n
}

proof fn lemma_match_count_grows(files: Seq<GroupValue>, i: int, j: int)
    requires
        0 <= i <= j,
    ensures
        match_count(files, i) <= match_count(files, j),
    decreases j - i,
{
    if i < j {
        lemma_match_count_grows(files, i, j - 1);
    }
}

fn copied_group(f: &FileGroup) -> (r: String)
    ensures
        r@ == group_text(f@),
{
    let ghost want = seq![f@.path] + f@.matches.map_values(
        |l: LineValue| dec(l.0 as nat) + ": "@ + l.1,
    );
    let mut parts: Vec<String> = Vec::new();
    parts.push(f.path.clone());
    let mut i: usize = 0;
    while i < f.matches.len()
        invariant
            want == seq![f@.path] + f@.matches.map_values(
                |l: LineValue| dec(l.0 as nat) + ": "@ + l.1,
            ),
            i <= f.matches@.len(),
            parts@.len() == i + 1,
            forall|k: int| 0 <= k <= i ==> (#[trigger] parts@[k])@ == want[k],
        decreases f.matches@.len() - i,
    {
        let n = u64_text(f.matches[i].0);
        parts.push(cat3(n.as_str(), ": ", f.matches[i].1.as_str()));
        i = i + 1;
    }
    assert(views(parts@) =~= want);
    join_strings(parts.as_slice(), "\n")
}

fn copied_groups(files: &Vec<FileGroup>) -> (r: String)
    ensures
        r@ == join(
            file_group_values(files@).map_values(|f: GroupValue| group_text(f)),
            "\n\n"@,
        ),
{
    let ghost want = file_group_values(files@).map_values(|f: GroupValue| group_text(f));
    let mut parts: Vec<String> = Vec::new();
    let mut i: usize = 0;
    while i < files.len()
        invariant
            want == file_group_values(files@).map_values(|f: GroupValue| group_text(f)),
            i <= files@.len(),
            parts@.len() == i,
            forall|k: int| 0 <= k < i ==> (#[trigger] parts@[k])@ == want[k],
        decreases files@.len() - i,
    {
        parts.push(copied_group(&files[i]));
        i = i + 1;
    }
    assert(views(parts@) =~= want);
    join_strings(parts.as_slice(), "\n\n")
}

fn counted(shown: usize, truncated: bool, total: u64) -> (r: String)
    ensures
        r@ == count_text(shown as nat, truncated, total),
{
    let n = usize_text(shown);
    if truncated {
        let t = u64_text(total);
        cat4("显示 ", n.as_str(), " / 共 ", t.as_str())
    } else {
        n
    }
}

fn find_header(rows: &Vec<SearchRow>, group: usize) -> (h: usize)
    ensures
        h == header_index(row_values(rows@), group as int),
        h <= rows@.len(),
{
    let ghost v = row_values(rows@);
    let mut h: usize = 0;
    assert(v.skip(0) =~= v);
    while h < rows.len()
        invariant
            v == row_values(rows@),
            h <= rows@.len(),
            header_index(v, group as int) == h + header_index(v.skip(h as int), group as int),
        decreases rows@.len() - h,
    {
        assert(v.skip(h as int)[0] == rows@[h as int]@);
        assert(v.skip(h as int).drop_first() =~= v.skip(h + 1));
        match &rows[h] {
            SearchRow::File { group: g, .. } => {
                if *g == group {
                    return h;
                }
            },
            _ => {},
        }
        h = h + 1;
    }
    h
}

fn search_slots(rows: &Vec<SearchRow>, expanded: bool) -> (r: Vec<Slot>)
    ensures
        r@ == search_slots_of(row_values(rows@), expanded),
{
    let total: usize = rows.len();
    let ht = head_tail(total, CHAT_CARD_MAX_LINES, expanded);
    if !ht.capped {
        return body_slots(total, CHAT_CARD_MAX_LINES, expanded);
    }
    let mut out: Vec<Slot> = Vec::new();
    push_rows(&mut out, 0, ht.head);
    out.push(Slot::Expand);
    assert(out@ =~= row_slots(0, ht.head as int).push(Slot::Expand));
    let from: usize = total - ht.tail;
    assert(row_values(rows@)[from as int] == rows@[from as int]@);
    match &rows[from] {
        SearchRow::Match { group, .. } => {
            let h = find_header(rows, *group);
            if ht.head <= h && h < total {
                out.push(Slot::Row(h));
                push_rows(&mut out, from + 1, total);
            } else {
                push_rows(&mut out, from, total);
            }
        },
        _ => {
            push_rows(&mut out, from, total);
        },
    }
    out
}

fn path_rows(paths: &Vec<String>) -> (r: Vec<SearchRow>)
    ensures
        row_values(r@) == views(paths@).map_values(|p: Seq<char>| RowValue::Path(p)),
{
    let mut out: Vec<SearchRow> = Vec::new();
    let mut i: usize = 0;
    while i < paths.len()
        invariant
            i <= paths@.len(),
            out@.len() == i,
            forall|k: int| 0 <= k < i ==> (#[trigger] out@[k])@ == RowValue::Path(paths@[k]@),
        decreases paths@.len() - i,
    {
        out.push(SearchRow::Path(paths[i].clone()));
        i = i + 1;
    }
    assert(row_values(out@) =~= views(paths@).map_values(|p: Seq<char>| RowValue::Path(p)));
    out
}

/// What a search card shows. `collapsed` lists the keys of folded groups.
pub fn search_layout(card: &SearchCard, key: &str, expanded: bool, collapsed: &[String]) -> (r:
    SearchLayout)
    requires
        card matches SearchCard::Matches { files, .. } ==> match_count(
            file_group_values(files@),
            files@.len() as int,
        ) <= usize::MAX,
    ensures
        r.summary@ == search_summary_of(*card),
        row_values(r.rows@) == search_rows_of(*card, key@, views(collapsed@)),
        r.slots@ == search_slots_of(row_values(r.rows@), expanded),
        opt_view(r.copy_text) == (if r.rows@.len() == 0 {
            None
        } else {
            Some(search_copy_of(*card))
        }),
        opt_view(r.expand_label) == expand_label_of(
            head_tail_of(r.rows@.len(), CHAT_CARD_MAX_LINES as nat, expanded).hidden as nat,
            expanded,
        ),
{
    let (rows, summary, copy) = match card {
        SearchCard::Matches { files, truncated, total } => {
            let shown = count_matches(files);
            let count = counted(shown, *truncated, *total);
            let n = usize_text(files.len());
            let summary = cat4(count.as_str(), " 处匹配 · ", n.as_str(), " 个文件");
            (rows_of_groups(files, key, collapsed), summary, copied_groups(files))
        },
        SearchCard::Paths { paths, truncated, total } => {
            let count = counted(paths.len(), *truncated, *total);
            let summary = cat2(count.as_str(), " 个路径");
            (path_rows(paths), summary, join_strings(paths.as_slice(), "\n"))
        },
    };
    let ht = head_tail(rows.len(), CHAT_CARD_MAX_LINES, expanded);
    let slots = search_slots(&rows, expanded);
    let copy_text = if rows.len() == 0 {
        None
    } else {
        Some(copy)
    };
    SearchLayout { summary, rows, slots, copy_text, expand_label: expand_label(ht.hidden, expanded) }
}

/// Whether a line notes that a search was cut off.
pub open spec fn is_truncation_note(line: Seq<char>) -> bool {
    stands_at(line, 0, "(truncated"@)
}

/// The first line of an output that notes a truncation.
pub open spec fn first_note(ls: Seq<Seq<char>>) -> Option<Seq<char>>
    decreases ls.len(),
{
    if ls.len() == 0 {
        None
    } else if is_truncation_note(ls[0]) {
        Some(ls[0])
    } else {
        first_note(ls.drop_first())
    }
}

/// The truncation note of a search output, shown below its card.
pub fn search_recovery_footer(output: Option<&str>) -> (r: Option<String>)
    ensures
        opt_view(r) == (match output {
            Some(s) => first_note(lines(s@)),
            None => None,
        }),
{
    let text = match output {
        Some(s) => s,
        None => {
            return None;
        },
    };
    let ls = lines_of(text);
    let ghost v = views(ls@);
    let mut i: usize = 0;
    assert(v.skip(0) =~= v);
    while i < ls.len()
        invariant
            v == views(ls@),
            v == lines(text@),
            i <= ls@.len(),
            first_note(v) == first_note(v.skip(i as int)),
            output is Some && output->0@ == text@,
        decreases ls@.len() - i,
    {
        assert(v.skip(i as int)[0] == ls@[i as int]@);
        assert(v.skip(i as int).drop_first() =~= v.skip(i + 1));
        if starts_with_str(ls[i].as_str(), "(truncated") {
            return Some(ls[i].clone());
        }
        i = i + 1;
    }
    assert(v.skip(i as int).len() == 0);
    None
}

// ---------------------------------------------------------------------------
// Diff
// ---------------------------------------------------------------------------
/// The lines of one side of a change: none for an empty text, and a line feed
/// at the end closes the last line instead of opening another.
pub open spec fn content_lines_of(text: Seq<char>) -> Seq<Seq<char>> {
    if text.len() == 0 {
        Seq::empty()
    } else if text.last() == '\n' {
        split(text.drop_last(), '\n')
    } else {
        split(text, '\n')
    }
}

/// The lines of one side of a change.
pub fn content_lines(text: &str) -> (r: Vec<String>)
    ensures
        views(r@) == content_lines_of(text@),
{
    let cs = chars_of(text);
    let n: usize = cs.len();
    if n == 0 {
        let r: Vec<String> = Vec::new();
        assert(views(r@) =~= Seq::<Seq<char>>::empty());
        return r;
    }
    if cs[n - 1] == '\n' {
        let body = chars_of(string_of_range(cs.as_slice(), 0, n - 1).as_str());
        assert(body@ =~= text@.drop_last());
        split_chars(body.as_slice(), '\n')
    } else {
        split_chars(cs.as_slice(), '\n')
    }
}

/// A row of a diff card.
#[derive(Debug, Clone, PartialEq, Eq)]
pub enum DiffRow {
    Path(String),
    Del(String),
    Add(String),
    /// The gap between two changes of one file.
    Gap,
}

/// A row of a diff card, by value.
#[verifier::ext_equal]
pub enum DiffRowValue {
    Path(Seq<char>),
    Del(Seq<char>),
    Add(Seq<char>),
    Gap,
}

impl View for DiffRow {
    type V = DiffRowValue;

    open spec fn view(&self) -> DiffRowValue {
        match *self {
            DiffRow::Path(s) => DiffRowValue::Path(s@),
            DiffRow::Del(s) => DiffRowValue::Del(s@),
            DiffRow::Add(s) => DiffRowValue::Add(s@),
            DiffRow::Gap => DiffRowValue::Gap,
        }
    }
}

pub open spec fn diff_row_values(v: Seq<DiffRow>) -> Seq<DiffRowValue> {
    v.map_values(|r: DiffRow| r@)
}

/// The removed lines of a change.
pub open spec fn removed_lines(h: HunkValue) -> Seq<Seq<char>> {
    match h.old_text {
        Some(t) => content_lines_of(t),
        None => Seq::empty(),
    }
}

/// The rows of one change.
pub open spec fn hunk_rows(h: HunkValue, same_file: bool) -> Seq<DiffRowValue> {
    seq![
        if same_file {
            DiffRowValue::Gap
        } else {
            DiffRowValue::Path(h.path)
        },
    ] + removed_lines(h).map_values(|l: Seq<char>| DiffRowValue::Del(l)) + content_lines_of(
        h.new_text,
    ).map_values(|l: Seq<char>| DiffRowValue::Add(l))
}

/// The rows of the first `n` changes: a path where the file changes, else a
/// gap, then what was removed and what was added.
pub open spec fn diff_rows_of(hs: Seq<HunkValue>, n: int) -> Seq<DiffRowValue>
    decreases n,
{
    if n <= 0 {
        Seq::empty()
    } else {
        diff_rows_of(hs, n - 1) + hunk_rows(
            hs[n - 1],
            n >= 2 && hs[n - 2].path == hs[n - 1].path,
        )
    }
}

/// The number of lines that the first `n` changes remove.
pub open spec fn removed_count(hs: Seq<HunkValue>, n: int) -> nat
    decreases n,
{
    if n <= 0 {
        0
    } else {
        removed_count(hs, n - 1) + removed_lines(hs[n - 1]).len()
    }
}

/// The number of lines that the first `n` changes add.
pub open spec fn added_count(hs: Seq<HunkValue>, n: int) -> nat
    decreases n,
{
    if n <= 0 {
        0
    } else {
        added_count(hs, n - 1) + content_lines_of(hs[n - 1].new_text).len()
    }
}

/// The files that the first `n` changes touch, each once.
pub open spec fn touched(hs: Seq<HunkValue>, n: int) -> Seq<Seq<char>>
    decreases n,
{
    if n <= 0 {
        Seq::empty()
    } else if touched(hs, n - 1).contains(hs[n - 1].path) {
        touched(hs, n - 1)
    } else {
        touched(hs, n - 1).push(hs[n - 1].path)
    }
}

/// The footer of a diff card.
pub open spec fn diff_footer_of(hs: Seq<HunkValue>) -> Seq<char> {
    let n = hs.len() as int;
    "└ +"@ + dec(added_count(hs, n)) + " -"@ + dec(removed_count(hs, n)) + " · "@ + dec(
        touched(hs, n).len(),
    ) + " file"@ + (if touched(hs, n).len() == 1 {
        ""@
    } else {
        "s"@
    })
}

/// The text of a diff row.
pub open spec fn diff_row_text(r: DiffRowValue) -> Seq<char> {
    match r {
        DiffRowValue::Path(s) => s,
        DiffRowValue::Del(s) => "- "@ + s,
        DiffRowValue::Add(s) => "+ "@ + s,
        DiffRowValue::Gap => "⋯"@,
    }
}

/// The text of a diff row.
pub fn diff_row_label(row: &DiffRow) -> (r: String)
    ensures
        r@ == diff_row_text(row@),
{
    match row {
        DiffRow::Path(s) => s.clone(),
        DiffRow::Del(s) => cat2("- ", s.as_str()),
        DiffRow::Add(s) => cat2("+ ", s.as_str()),
        DiffRow::Gap => owned("⋯"),
    }
}

/// What a diff card shows.
#[derive(Debug, Clone, PartialEq, Eq)]
pub struct DiffLayout {
    pub rows: Vec<DiffRow>,
    pub slots: Vec<Slot>,
    pub footer: String,
    pub copy_text: String,
    pub expand_label: Option<String>,
}

fn push_dels(out: &mut Vec<DiffRow>, ls: &Vec<String>)
    ensures
        diff_row_values(final(out)@) == diff_row_values(old(out)@) + views(ls@).map_values(
            |l: Seq<char>| DiffRowValue::Del(l),
        ),
        final(out)@.len() == old(out)@.len() + ls@.len(),
{
    let ghost want = views(ls@).map_values(|l: Seq<char>| DiffRowValue::Del(l));
    let ghost base = diff_row_values(out@);
    let mut i: usize = 0;
    assert(base + want.take(0) =~= base);
    while i < ls.len()
        invariant
            want == views(ls@).map_values(|l: Seq<char>| DiffRowValue::Del(l)),
            base == diff_row_values(old(out)@),
            i <= ls@.len(),
            diff_row_values(out@) == base + want.take(i as int),
            out@.len() == old(out)@.len() + i,
        decreases ls@.len() - i,
    {
        let ghost before = out@;
        let row = DiffRow::Del(ls[i].clone());
        out.push(row);
        assert(diff_row_values(out@) =~= diff_row_values(before).push(row@));
        assert(want[i as int] == row@);
        assert(diff_row_values(out@) =~= base + want.take(i + 1));
        i = i + 1;
    }
    assert(want.take(i as int) =~= want);
}

fn push_adds(out: &mut Vec<DiffRow>, ls: &Vec<String>)
    ensures
        diff_row_values(final(out)@) == diff_row_values(old(out)@) + views(ls@).map_values(
            |l: Seq<char>| DiffRowValue::Add(l),
        ),
        final(out)@.len() == old(out)@.len() + ls@.len(),
{
    let ghost want = views(ls@).map_values(|l: Seq<char>| DiffRowValue::Add(l));
    let ghost base = diff_row_values(out@);
    let mut i: usize = 0;
    assert(base + want.take(0) =~= base);
    while i < ls.len()
        invariant
            want == views(ls@).map_values(|l: Seq<char>| DiffRowValue::Add(l)),
            base == diff_row_values(old(out)@),
            i <= ls@.len(),
            diff_row_values(out@) == base + want.take(i as int),
            out@.len() == old(out)@.len() + i,
        decreases ls@.len() - i,
    {
        let ghost before = out@;
        let row = DiffRow::Add(ls[i].clone());
        out.push(row);
        assert(diff_row_values(out@) =~= diff_row_values(before).push(row@));
        assert(want[i as int] == row@);
        assert(diff_row_values(out@) =~= base + want.take(i + 1));
        i = i + 1;
    }
    assert(want.take(i as int) =~= want);
}

fn diff_text(rows: &Vec<DiffRow>) -> (r: String)
    ensures
        r@ == join(
            diff_row_values(rows@).map_values(|r: DiffRowValue| diff_row_text(r)),
            "\n"@,
        ),
{
    let ghost want = diff_row_values(rows@).map_values(|r: DiffRowValue| diff_row_text(r));
    let mut parts: Vec<String> = Vec::new();
    let mut i: usize = 0;
    while i < rows.len()
        invariant
            want == diff_row_values(rows@).map_values(|r: DiffRowValue| diff_row_text(r)),
            i <= rows@.len(),
            parts@.len() == i,
            forall|k: int| 0 <= k < i ==> (#[trigger] parts@[k])@ == want[k],
        decreases rows@.len() - i,
    {
        parts.push(diff_row_label(&rows[i]));
        i = i + 1;
    }
    assert(views(parts@) =~= want);
    join_strings(parts.as_slice(), "\n")
}

/// What a diff card shows.
pub fn diff_layout(card: &DiffCard, expanded: bool) -> (r: DiffLayout)
    ensures
        diff_row_values(r.rows@) == diff_rows_of(
            hunk_values(card.diffs@),
            card.diffs@.len() as int,
        ),
        r.slots@ == slots_of(r.rows@.len(), CHAT_CARD_MAX_LINES as nat, expanded),
        r.footer@ == diff_footer_of(hunk_values(card.diffs@)),
        r.copy_text@ == join(
            diff_row_values(r.rows@).map_values(|r: DiffRowValue| diff_row_text(r)),
            "\n"@,
        ),
        opt_view(r.expand_label) == expand_label_of(
            head_tail_of(r.rows@.len(), CHAT_CARD_MAX_LINES as nat, expanded).hidden as nat,
            expanded,
        ),
{
    let ghost hs = hunk_values(card.diffs@);
    let mut rows: Vec<DiffRow> = Vec::new();
    let mut added: usize = 0;
    let mut removed: usize = 0;
    let mut paths: Vec<String> = Vec::new();
    let mut i: usize = 0;
    assert(diff_row_values(rows@) =~= Seq::<DiffRowValue>::empty());
    assert(views(paths@) =~= Seq::<Seq<char>>::empty());
    while i < card.diffs.len()
        invariant
            hs == hunk_values(card.diffs@),
            i <= card.diffs@.len(),
            diff_row_values(rows@) == diff_rows_of(hs, i as int),
            added == added_count(hs, i as int),
            removed == removed_count(hs, i as int),
            added + removed <= rows@.len(),
            views(paths@) == touched(hs, i as int),
        decreases card.diffs@.len() - i,
    {
        let d = &card.diffs[i];
        assert(hs[i as int] == d@);
        let ghost base = diff_row_values(rows@);
        let ghost before = rows@;
        if !contains_key(paths.as_slice(), d.path.as_str()) {
            let ghost old_paths = paths@;
            paths.push(d.path.clone());
            assert(views(paths@) =~= views(old_paths).push(d.path@));
        }
        let same = i > 0 && str_eq(card.diffs[i - 1].path.as_str(), d.path.as_str());
        if i > 0 {
            assert(hs[i - 1] == card.diffs@[i - 1]@);
        }
        let first = if same {
            DiffRow::Gap
        } else {
            DiffRow::Path(d.path.clone())
        };
        rows.push(first);
        assert(diff_row_values(rows@) =~= base.push(first@));
        let old_lines = match &d.old_text {
            Some(t) => content_lines(t.as_str()),
            None => Vec::new(),
        };
        assert(views(old_lines@) =~= removed_lines(d@));
        assert(old_lines@.len() == removed_lines(d@).len());
        push_dels(&mut rows, &old_lines);
        let new_lines = content_lines(d.new_text.as_str());
        assert(new_lines@.len() == content_lines_of(d.new_text@).len()) by {
            assert(views(new_lines@).len() == new_lines@.len());
        }
        push_adds(&mut rows, &new_lines);
        assert(rows@.len() == rows.len());
        removed = removed + old_lines.len();
        added = added + new_lines.len();
        assert(diff_row_values(rows@) =~= base + hunk_rows(
            d@,
            i + 1 >= 2 && hs[i - 1].path == hs[i as int].path,
        ));
        i = i + 1;
    }
    let ht = head_tail(rows.len(), CHAT_CARD_MAX_LINES, expanded);
    let files: usize = paths.len();
    assert(views(paths@).len() == files);
    let a = usize_text(added);
    let b = usize_text(removed);
    let c = usize_text(files);
    let mut footer = cat5("└ +", a.as_str(), " -", b.as_str(), " · ");
    footer.append(c.as_str());
    footer.append(" file");
    footer.append(
        if files == 1 {
            ""
        } else {
            "s"
        },
    );
    let copy_text = diff_text(&rows);
    let slots = body_slots(rows.len(), CHAT_CARD_MAX_LINES, expanded);
    DiffLayout { rows, slots, footer, copy_text, expand_label: expand_label(ht.hidden, expanded) }
}

// ---------------------------------------------------------------------------
// Laws
// ---------------------------------------------------------------------------
/// The rows of a diff card are its paths or gaps, its removed and its added
/// lines, and nothing else.
pub proof fn law_diff_rows_are_complete(hs: Seq<HunkValue>, n: int)
    requires
        0 <= n <= hs.len(),
    ensures
        diff_rows_of(hs, n).len() == n + removed_count(hs, n) + added_count(hs, n),
    decreases n,
{
    if n > 0 {
        law_diff_rows_are_complete(hs, n - 1);
    }
}

/// The footer counts every file once.
pub proof fn law_touched_files_are_distinct(hs: Seq<HunkValue>, n: int)
    requires
        0 <= n <= hs.len(),
    ensures
        touched(hs, n).no_duplicates(),
        forall|i: int| 0 <= i < n ==> touched(hs, n).contains((#[trigger] hs[i]).path),
    decreases n,
{
    if n > 0 {
        law_touched_files_are_distinct(hs, n - 1);
        let init = touched(hs, n - 1);
        let all = touched(hs, n);
        assert forall|i: int| 0 <= i < n implies all.contains((#[trigger] hs[i]).path) by {
            if i < n - 1 {
                assert(init.contains(hs[i].path));
                let w = choose|w: int| 0 <= w < init.len() && init[w] == hs[i].path;
                assert(all[w] == hs[i].path);
            } else if !init.contains(hs[n - 1].path) {
                assert(all[init.len() as int] == hs[n - 1].path);
            }
        }
    }
}

/// Joining the lines of a side of a change with line feeds gives the text
/// back, up to the line feed that closes it.
pub proof fn law_content_lines_keep_the_text(text: Seq<char>)
    requires
        text.len() > 0,
    ensures
        join(content_lines_of(text), "\n"@) == (if text.last() == '\n' {
            text.drop_last()
        } else {
            text
        }),
{
    reveal_strlit("\n");
    assert("\n"@ =~= seq!['\n']);
    if text.last() == '\n' {
        crate::scan::law_split_join(text.drop_last(), '\n');
    } else {
        crate::scan::law_split_join(text, '\n');
    }
}

/// A folded body shows its first rows, the button, and its last rows; together
/// they are as many rows as the cap. Any other body shows all its rows in order,
/// with the button behind them where they are more than the cap.
pub proof fn law_bodies_show_head_and_tail(total: usize, cap: usize, expanded: bool, i: int)
    ensures
        ({
            let s = slots_of(total as nat, cap as nat, expanded);
            let head = (cap + 1) / 2;
            let tail = cap / 2;
            if total > cap && !expanded {
                &&& s.len() == cap + 1
                &&& 0 <= i < head ==> s[i] == Slot::Row(i as usize)
                &&& s[head] == Slot::Expand
                &&& 0 <= i < tail ==> s[head + 1 + i] == Slot::Row((total - tail + i) as usize)
            } else {
                &&& s.len() == total + (if total > cap {
                    1int
                } else {
                    0
                })
                &&& 0 <= i < total ==> s[i] == Slot::Row(i as usize)
                &&& total > cap ==> s[total as int] == Slot::Expand
            }
        }),
{
}

/// The button says how many rows are hidden, or that they can be folded away;
/// there is none where nothing is over the cap.
pub proof fn law_button_counts_hidden_rows(hidden: nat)
    ensures
        expand_label_of(0, false) is None,
        expand_label_of(0, true) is None,
        hidden > 0 ==> expand_label_of(hidden, false) == Some(
            "… 其余 "@ + dec(hidden) + " 行"@,
        ),
        hidden > 0 ==> expand_label_of(hidden, true) == Some("收起"@),
{
}

/// Each line of a read card keeps its number; it is shown in colours where there
/// are spans for it, else as its text.
pub proof fn law_lines_keep_their_numbers(
    v: Seq<LineValue>,
    hl: Option<Seq<Seq<(u32, Seq<char>)>>>,
    i: int,
)
    requires
        0 <= i < v.len(),
    ensures
        read_lines_of(v, hl).len() == v.len(),
        match read_lines_of(v, hl)[i] {
            ReadLineValue::Plain { number, text } => number == v[i].0 && text == v[i].1,
            ReadLineValue::Coloured { number, spans } => number == v[i].0 && hl is Some && i
                < hl->0.len() && spans == hl->0[i],
        },
        hl is None ==> read_lines_of(v, hl)[i] is Plain,
        hl matches Some(h) && i < h.len() && h[i].len() > 0 ==> read_lines_of(v, hl)[i] is Coloured,
{
}

/// The rows of one more file: its header with its path and the number of its
/// matches, and behind it, unless it is folded, a row for each match with its
/// number and its line.
pub proof fn law_search_rows_of_a_file(
    files: Seq<GroupValue>,
    key: Seq<char>,
    collapsed: Seq<Seq<char>>,
    n: int,
    k: int,
)
    requires
        0 <= n < files.len(),
    ensures
        ({
            let before = group_rows(files, key, collapsed, n);
            let rows = group_rows(files, key, collapsed, n + 1);
            let f = files[n];
            let at = before.len() as int;
            &&& rows.take(at) == before
            &&& rows[at] == (RowValue::File { path: f.path, count: f.matches.len(), group: n })
            &&& collapsed.contains(key + ":"@ + f.path) ==> rows.len() == at + 1
            &&& !collapsed.contains(key + ":"@ + f.path) ==> rows.len() == at + 1 + f.matches.len()
            &&& !collapsed.contains(key + ":"@ + f.path) && 0 <= k < f.matches.len() ==> rows[at + 1
                + k] == (RowValue::Match {
                number: f.matches[k].0,
                line: f.matches[k].1,
                group: n,
            })
        }),
{
    let before = group_rows(files, key, collapsed, n);
    let rows = group_rows(files, key, collapsed, n + 1);
    assert(rows.take(before.len() as int) =~= before);
}

/// Without files there are no rows and no matches; each file adds its matches.
pub proof fn law_matches_are_counted(files: Seq<GroupValue>, n: int)
    requires
        0 <= n < files.len(),
    ensures
        match_count(files, 0) == 0,
        match_count(files, n + 1) == match_count(files, n) + files[n].matches.len(),
        count_text(match_count(files, n), false, 0) == dec(match_count(files, n)),
{
}

/// Where the folded tail of a search card starts inside a file whose header is
/// not among the first rows, the header takes the place of that row; every other
/// place is that of a plain folded body.
pub proof fn law_tail_names_its_file(rows: Seq<RowValue>, group: int, h: int, i: int)
    requires
        rows.len() > 8,
        rows.len() <= usize::MAX,
        rows[rows.len() - 4] matches RowValue::Match { group: g, .. } && g == group,
        4 <= h < rows.len(),
        rows[h] matches RowValue::File { group: g, .. } && g == group,
        forall|k: int|
            0 <= k < h ==> !((#[trigger] rows[k]) matches RowValue::File { group: g, .. } && g
                == group),
    ensures
        ({
            let s = search_slots_of(rows, false);
            let plain = slots_of(rows.len(), 8, false);
            &&& s.len() == plain.len()
            &&& s[5] == Slot::Row(h as usize)
            &&& 0 <= i < s.len() && i != 5 ==> s[i] == plain[i]
        }),
{
    lemma_header_index(rows, group, h);
}

proof fn lemma_header_index(rows: Seq<RowValue>, group: int, h: int)
    requires
        0 <= h < rows.len(),
        rows[h] matches RowValue::File { group: g, .. } && g == group,
        forall|k: int|
            0 <= k < h ==> !((#[trigger] rows[k]) matches RowValue::File { group: g, .. } && g
                == group),
    ensures
        header_index(rows, group) == h,
    decreases h,
{
    if h > 0 {
        assert(!(rows[0] matches RowValue::File { group: g, .. } && g == group));
        let rest = rows.drop_first();
        assert forall|k: int| 0 <= k < h - 1 implies !((#[trigger] rest[k]) matches RowValue::File {
            group: g,
            ..
        } && g == group) by {
            assert(rest[k] == rows[k + 1]);
        }
        lemma_header_index(rest, group, h - 1);
    }
}

/// The note of a truncation is the first line that starts with it.
pub proof fn law_first_truncation_note(ls: Seq<Seq<char>>, k: int)
    requires
        0 <= k <= ls.len(),
        forall|i: int| 0 <= i < k ==> !stands_at(#[trigger] ls[i], 0, "(truncated"@),
        k < ls.len() ==> stands_at(ls[k], 0, "(truncated"@),
    ensures
        first_note(ls) == (if k < ls.len() {
            Some(ls[k])
        } else {
            None
        }),
    decreases k,
{
    if k > 0 {
        assert(!stands_at(ls[0], 0, "(truncated"@));
        let rest = ls.drop_first();
        assert forall|i: int| 0 <= i < k - 1 implies !stands_at(
            #[trigger] rest[i],
            0,
            "(truncated"@,
        ) by {
            assert(rest[i] == ls[i + 1]);
        }
        law_first_truncation_note(rest, k - 1);
    }
}

/// The rows of one more change: its path, or a gap where the change before is in
/// the same file; then the lines of the old text as removed, and the lines of the
/// new text as added.
pub proof fn law_diff_rows_of_a_change(hs: Seq<HunkValue>, n: int, k: int)
    requires
        0 <= n < hs.len(),
    ensures
        ({
            let before = diff_rows_of(hs, n);
            let rows = diff_rows_of(hs, n + 1);
            let at = before.len() as int;
            let gone = match hs[n].old_text {
                Some(t) => content_lines_of(t),
                None => Seq::empty(),
            };
            let come = content_lines_of(hs[n].new_text);
            &&& rows.take(at) == before
            &&& rows.len() == at + 1 + gone.len() + come.len()
            &&& rows[at] == (if n > 0 && hs[n - 1].path == hs[n].path {
                DiffRowValue::Gap
            } else {
                DiffRowValue::Path(hs[n].path)
            })
            &&& 0 <= k < gone.len() ==> rows[at + 1 + k] == DiffRowValue::Del(gone[k])
            &&& 0 <= k < come.len() ==> rows[at + 1 + gone.len() + k] == DiffRowValue::Add(come[k])
        }),
{
    let before = diff_rows_of(hs, n);
    let rows = diff_rows_of(hs, n + 1);
    assert(rows.take(before.len() as int) =~= before);
}

/// Removed lines are marked by a minus sign and added ones by a plus sign.
pub proof fn law_diff_rows_are_marked(s: Seq<char>)
    ensures
        diff_row_text(DiffRowValue::Del(s)) == seq!['-', ' '] + s,
        diff_row_text(DiffRowValue::Add(s)) == seq!['+', ' '] + s,
        diff_row_text(DiffRowValue::Path(s)) == s,
{
    reveal_strlit("- ");
    reveal_strlit("+ ");
    assert("- "@ =~= seq!['-', ' ']);
    assert("+ "@ =~= seq!['+', ' ']);
}

/// The footer of a diff card counts added lines, removed lines and files.
pub proof fn law_diff_footer(hs: Seq<HunkValue>, files: Seq<Seq<char>>)
    requires
        files == touched(hs, hs.len() as int),
    ensures
        ({
            let n = hs.len() as int;
            let counts = "└ +"@ + dec(added_count(hs, n)) + " -"@ + dec(removed_count(hs, n))
                + " · "@ + dec(files.len());
            &&& files.len() == 1 ==> diff_footer_of(hs) == counts + " file"@
            &&& files.len() != 1 ==> diff_footer_of(hs) == counts + " files"@
        }),
        added_count(hs, 0) == 0,
        removed_count(hs, 0) == 0,
        forall|i: int|
            0 <= i < hs.len() ==> added_count(hs, i + 1) == added_count(hs, i) + content_lines_of(
                (#[trigger] hs[i]).new_text,
            ).len(),
        forall|i: int|
            0 <= i < hs.len() ==> removed_count(hs, i + 1) == removed_count(hs, i) + (
            match (#[trigger] hs[i]).old_text {
                Some(t) => content_lines_of(t).len(),
                None => 0,
            }),
{
    reveal_strlit("");
    reveal_strlit("s");
    reveal_strlit(" file");
    reveal_strlit(" files");
    assert(" file"@ + "s"@ =~= " files"@);
    let n = hs.len() as int;
    let counts = "└ +"@ + dec(added_count(hs, n)) + " -"@ + dec(removed_count(hs, n)) + " · "@ + dec(
        files.len(),
    );
    assert(counts + " file"@ + ""@ =~= counts + " file"@);
    assert(counts + " file"@ + "s"@ =~= counts + (" file"@ + "s"@));
}

/// The lines of a text are those that were written, whether or not a line feed
/// closes the last one; an empty text has none.
pub proof fn law_content_lines(text: Seq<char>)
    requires
        text.len() > 0,
        text.last() != '\n',
    ensures
        content_lines_of(text.push('\n')) == content_lines_of(text),
        content_lines_of(Seq::empty()) == Seq::<Seq<char>>::empty(),
{
    assert(text.push('\n').drop_last() =~= text);
}

/// A read card copies its lines as they are, tells how many of the file's lines
/// it has where it lacks some, and folds behind its cap.
pub proof fn law_read_cards_are_laid_out(card: &ReadCard, expanded: bool, r: ReadLayout)
    requires
        call_ensures(read_layout, (card, expanded), r),
    ensures
        r.window_note is Some <==> card.lines@.len() < card.total_lines,
        r.window_note matches Some(t) ==> t@ == "显示 "@ + dec(card.lines@.len()) + " / "@ + dec(
            card.total_lines as nat,
        ) + " 行"@,
        r.copy_text is None <==> card.lines@.len() == 0,
        card.lines@.len() == 1 ==> (r.copy_text matches Some(t) && t@ == card.lines@[0].1@),
        card.lines@.len() == 2 ==> (r.copy_text matches Some(t) && t@ == card.lines@[0].1@ + "\n"@
            + card.lines@[1].1@),
        card.lines@.len() <= 8 ==> r.expand_label is None && r.slots@.len()
            == card.lines@.len(),
        card.lines@.len() > 8 && !expanded ==> r.expand_label is Some
            && r.slots@.len() == 8 + 1,
        card.lines@.len() > 8 && expanded ==> r.expand_label is Some
            && r.slots@.len() == card.lines@.len() + 1,
{
    assert(card.lines.len() == card.lines@.len());
    let v = line_texts(line_values(card.lines@));
    reveal_with_fuel(join, 4);
    assert(v.len() == card.lines@.len());
    if v.len() == 1 {
        assert(v[0] == card.lines@[0].1@);
        assert(r.copy_text->0@ =~= v[0]);
    }
    if v.len() == 2 {
        assert(v[0] == card.lines@[0].1@);
        assert(v[1] == card.lines@[1].1@);
        assert(v.drop_last()[0] == v[0]);
        assert(r.copy_text->0@ =~= v[0] + "\n"@ + v[1]);
    }
}

/// A card of paths lists and counts every path; one of matches counts its
/// files. A search that was cut short says so.
pub proof fn law_search_cards_are_laid_out(
    card: &SearchCard,
    key: &str,
    expanded: bool,
    collapsed: &[String],
    r: SearchLayout,
)
    requires
        call_ensures(search_layout, (card, key, expanded, collapsed), r),
    ensures
        *card matches SearchCard::Paths { paths, truncated, total } ==> {
            &&& r.rows@.len() == paths@.len()
            &&& forall|i: int|
                0 <= i < paths@.len() ==> (#[trigger] r.rows@[i])@ == RowValue::Path(paths@[i]@)
            &&& !truncated ==> r.summary@ == dec(paths@.len()) + " 个路径"@
            &&& truncated ==> r.summary@ == "显示 "@ + dec(paths@.len()) + " / 共 "@ + dec(
                total as nat,
            ) + " 个路径"@
            &&& paths@.len() == 1 ==> (r.copy_text matches Some(t) && t@ == paths@[0]@)
        },
        *card matches SearchCard::Matches { files, truncated, total } ==> {
            let n = match_count(file_group_values(files@), files@.len() as int);
            &&& !truncated ==> r.summary@ == dec(n) + " 处匹配 · "@ + dec(files@.len())
                + " 个文件"@
            &&& truncated ==> r.summary@ == "显示 "@ + dec(n) + " / 共 "@ + dec(total as nat)
                + " 处匹配 · "@ + dec(files@.len()) + " 个文件"@
            &&& row_values(r.rows@) == group_rows(
                file_group_values(files@),
                key@,
                views(collapsed@),
                files@.len() as int,
            )
        },
        r.copy_text is None <==> r.rows@.len() == 0,
        r.expand_label is Some <==> r.rows@.len() > 8,
{
    assert(r.rows.len() == r.rows@.len());
    match *card {
        SearchCard::Paths { paths, truncated, total } => {
            assert(row_values(r.rows@).len() == paths@.len());
            assert forall|i: int| 0 <= i < paths@.len() implies (#[trigger] r.rows@[i])@
                == RowValue::Path(paths@[i]@) by {
                assert(row_values(r.rows@)[i] == r.rows@[i]@);
                assert(views(paths@)[i] == paths@[i]@);
            }
            reveal_with_fuel(join, 3);
            if paths@.len() == 1 {
                assert(views(paths@)[0] == paths@[0]@);
                assert(r.copy_text->0@ =~= paths@[0]@);
            }
        },
        _ => {},
    }
}

/// What is copied of a file of matches is its path and then, a line for each,
/// the number and the text of the match.
pub proof fn law_matches_are_copied_with_their_numbers(
    path: Seq<char>,
    number: u64,
    line: Seq<char>,
)
    ensures
        group_text(GroupValue { path, matches: seq![(number, line)] }) == path + "\n"@ + dec(
            number as nat,
        ) + ": "@ + line,
        group_text(GroupValue { path, matches: Seq::empty() }) == path,
{
    let f = GroupValue { path, matches: seq![(number, line)] };
    let v = seq![path] + f.matches.map_values(|l: LineValue| dec(l.0 as nat) + ": "@ + l.1);
    assert(v.len() == 2);
    assert(v[0] == path && v[1] == dec(number as nat) + ": "@ + line);
    assert(v.drop_last() =~= seq![path]);
    reveal_with_fuel(join, 4);
    assert(group_text(f) =~= path + "\n"@ + dec(number as nat) + ": "@ + line);
    let g = GroupValue { path, matches: Seq::empty() };
    let w = seq![path] + g.matches.map_values(|l: LineValue| dec(l.0 as nat) + ": "@ + l.1);
    assert(w =~= seq![path]);
    assert(group_text(g) =~= path);
}

/// A diff card shows the rows of its changes, in order, and folds behind its
/// cap.
pub proof fn law_diff_cards_are_laid_out(card: &DiffCard, expanded: bool, r: DiffLayout)
    requires
        call_ensures(diff_layout, (card, expanded), r),
    ensures
        diff_row_values(r.rows@) == diff_rows_of(
            hunk_values(card.diffs@),
            card.diffs@.len() as int,
        ),
        r.footer@ == diff_footer_of(hunk_values(card.diffs@)),
        r.expand_label is Some <==> r.rows@.len() > 8,
        r.rows@.len() <= 8 ==> r.slots@.len() == r.rows@.len(),
        r.rows@.len() > 8 && !expanded ==> r.slots@.len() == 8
            + 1,
        r.rows@.len() > 8 && expanded ==> r.slots@.len() == r.rows@.len() + 1,
        r.rows@.len() == 1 ==> r.copy_text@ == diff_row_text(r.rows@[0]@),
{
    assert(r.rows.len() == r.rows@.len());
    reveal_with_fuel(join, 3);
    if r.rows@.len() == 1 {
        let v = diff_row_values(r.rows@).map_values(|r: DiffRowValue| diff_row_text(r));
        assert(v.len() == 1);
        assert(v[0] == diff_row_text(r.rows@[0]@));
        assert(r.copy_text@ =~= v[0]);
    }
}

/// The button says whether something was copied.
pub proof fn law_copying_is_told(done: &str, not: &str)
    requires
        call_ensures(copy_label, (true,), done),
        call_ensures(copy_label, (false,), not),
    ensures
        done@ == not@ + "成功"@,
        not@ == "复制"@,
{
    reveal_strlit("复制成功");
    reveal_strlit("复制");
    reveal_strlit("成功");
    assert(done@ =~= not@ + "成功"@);
}

} // verus!
