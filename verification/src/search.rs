//! The results of a search over all sessions.

use crate::decimal::{dec, usize_text};
use crate::json::{text_field, values, Json, JsonValue};
use crate::scan::{blank, is_blank, lines, lines_of};
use crate::shell::store::AppStore;
use crate::subagents::title_of;
use crate::text::{cat3, cat4, chars_of, owned, string_of_range, views};
use vstd::prelude::*;
use vstd::string::*;

verus! {

/// How many characters of a line are shown.
pub const PREVIEW_CHARS: usize = 40;

/// A record that was found.
#[derive(Debug, PartialEq, Eq)]
pub struct HitRow {
    pub session_id: String,
    /// The number of the record in its session.
    pub seq: u64,
    pub title: String,
    pub text: String,
}

/// The content of a row.
#[verifier::ext_equal]
pub struct HitValue {
    pub session_id: Seq<char>,
    pub seq: u64,
    pub title: Seq<char>,
    pub text: Seq<char>,
}

impl View for HitRow {
    type V = HitValue;

    open spec fn view(&self) -> HitValue {
        HitValue {
            session_id: self.session_id@,
            seq: self.seq,
            title: self.title@,
            text: self.text@,
        }
    }
}

pub open spec fn hit_values(v: Seq<HitRow>) -> Seq<HitValue> {
    v.map_values(|h: HitRow| h@)
}

/// What a search found.
#[derive(Debug, PartialEq, Eq)]
pub struct HitsPanel {
    pub header: String,
    /// What is said where nothing was found.
    pub hint: Option<String>,
    pub rows: Vec<HitRow>,
}

/// The first line that is not blank; nothing where all are.
pub open spec fn first_filled(ls: Seq<Seq<char>>) -> Seq<char>
    decreases ls.len(),
{
    if ls.len() == 0 {
        Seq::empty()
    } else if !blank(ls[0]) {
        ls[0]
    } else {
        first_filled(ls.skip(1))
    }
}

/// The start of a text: of its first line that is not blank.
pub open spec fn preview_of(content: Seq<char>) -> Seq<char> {
    let line = first_filled(lines(content));
    if line.len() > PREVIEW_CHARS {
        line.take(PREVIEW_CHARS as int)
    } else {
        line
    }
}

/// See [`preview_of`].
pub fn preview(content: &str) -> (r: String)
    ensures
        r@ == preview_of(content@),
{
    let ls = lines_of(content);
    let ghost all = views(ls@);
    let mut i: usize = 0;
    assert(all.skip(0) =~= all);
    while i < ls.len() && is_blank(ls[i].as_str())
        invariant
            i <= ls@.len(),
            all == views(ls@),
            first_filled(all) == first_filled(all.skip(i as int)),
        decreases ls@.len() - i,
    {
        assert(all.skip(i as int)[0] == ls@[i as int]@);
        assert(all.skip(i as int).skip(1) =~= all.skip(i + 1));
        i = i + 1;
    }
    if i < ls.len() {
        assert(all.skip(i as int)[0] == ls@[i as int]@);
        let cs = chars_of(ls[i].as_str());
        let n: usize = if cs.len() > PREVIEW_CHARS {
            PREVIEW_CHARS
        } else {
            cs.len()
        };
        assert(cs@.subrange(0, n as int) =~= preview_of(content@));
        string_of_range(cs.as_slice(), 0, n)
    } else {
        assert(all.skip(i as int).len() == 0);
        proof {
            reveal_strlit("");
        }
        assert(""@ =~= preview_of(content@));
        owned("")
    }
}

/// The row of a record.
pub open spec fn hit_row(hit: JsonValue, titles: Map<Seq<char>, String>) -> HitValue {
    let id = text_field(hit, "sessionId"@);
    HitValue {
        session_id: id,
        seq: match hit.field("seq"@).as_unsigned() {
            Some(n) => n,
            None => 0,
        },
        title: title_of(titles, id),
        text: "["@ + text_field(hit, "kind"@) + "] "@ + preview_of(text_field(hit, "content"@)),
    }
}

impl AppStore {
    fn row_of_hit(&self, hit: &Json) -> (r: HitRow)
        requires
            self.wf(),
        ensures
            r@ == hit_row(hit.value(), self.state.titles@),
    {
        let session_id = hit.text_or_empty("sessionId");
        let seq: u64 = match hit.get("seq") {
            Some(v) => match v.as_u64() {
                Some(n) => n,
                None => 0,
            },
            None => 0,
        };
        let title = self.title_for(session_id.as_str());
        let kind = hit.text_or_empty("kind");
        let content = hit.text_or_empty("content");
        let start = preview(content.as_str());
        HitRow { session_id, seq, title, text: cat4("[", kind.as_str(), "] ", start.as_str()) }
    }

    /// What is shown of the records that a search found.
    pub fn search_hits_panel(&self, hits: &Vec<Json>) -> (r: HitsPanel)
        requires
            self.wf(),
        ensures
            r.header@ == "全库检索 · "@ + dec(hits@.len()) + " 条命中"@,
            match r.hint {
                Some(t) => hits@.len() == 0 && t@ == "无命中"@,
                None => hits@.len() > 0,
            },
            hit_values(r.rows@) == values(hits@).map_values(
                |h: JsonValue| hit_row(h, self.state.titles@),
            ),
    {
        let n = usize_text(hits.len());
        let header = cat3("全库检索 · ", n.as_str(), " 条命中");
        let hint = if hits.len() == 0 {
            Some(owned("无命中"))
        } else {
            None
        };
        let ghost want = values(hits@).map_values(|h: JsonValue| hit_row(h, self.state.titles@));
        let mut rows: Vec<HitRow> = Vec::new();
        let mut i: usize = 0;
        assert(hit_values(rows@) =~= want.take(0));
        while i < hits.len()
            invariant
                self.wf(),
                i <= hits@.len(),
                want == values(hits@).map_values(|h: JsonValue| hit_row(h, self.state.titles@)),
                hit_values(rows@) == want.take(i as int),
            decreases hits@.len() - i,
        {
            let ghost before = hit_values(rows@);
            assert(values(hits@)[i as int] == hits@[i as int].value());
            let row = self.row_of_hit(&hits[i]);
            assert(row@ == want[i as int]);
            rows.push(row);
            assert(hit_values(rows@) =~= before.push(row@));
            assert(want.take(i + 1) =~= before.push(row@));
            i = i + 1;
        }
        assert(want.take(i as int) =~= want);
        HitsPanel { header, hint, rows }
    }
}

/// A preview has at most [`PREVIEW_CHARS`] characters.
pub proof fn law_preview_is_short(content: Seq<char>)
    ensures
        preview_of(content).len() <= PREVIEW_CHARS,
{
}

/// A preview is the first line with text, or its first forty characters.
pub proof fn law_preview_is_the_first_line_with_text(content: Seq<char>, k: int)
    requires
        0 <= k < lines(content).len(),
        !blank(lines(content)[k]),
        forall|i: int| 0 <= i < k ==> blank(#[trigger] lines(content)[i]),
    ensures
        lines(content)[k].len() <= 40 ==> preview_of(content) == lines(content)[k],
        lines(content)[k].len() > 40 ==> preview_of(content) == lines(content)[k].take(40),
{
    lemma_first_filled(lines(content), k);
}

proof fn lemma_first_filled(ls: Seq<Seq<char>>, k: int)
    requires
        0 <= k < ls.len(),
        !blank(ls[k]),
        forall|i: int| 0 <= i < k ==> blank(#[trigger] ls[i]),
    ensures
        first_filled(ls) == ls[k],
    decreases k,
{
    if k > 0 {
        assert(blank(ls[0]));
        let rest = ls.skip(1);
        assert forall|i: int| 0 <= i < k - 1 implies blank(#[trigger] rest[i]) by {
            assert(rest[i] == ls[i + 1]);
        }
        lemma_first_filled(rest, k - 1);
    }
}

/// Each record that was found has a row, in order, with its session, its number,
/// the title of the session, and its kind before a preview of it.
pub proof fn law_every_hit_has_a_row(s: &AppStore, hits: &Vec<Json>, r: HitsPanel, i: int)
    requires
        call_ensures(AppStore::search_hits_panel, (s, hits), r),
        0 <= i < hits@.len(),
    ensures
        r.rows@.len() == hits@.len(),
        r.hint is None,
        ({
            let h = hits@[i].value();
            let row = r.rows@[i];
            let id = text_field(h, "sessionId"@);
            &&& row.session_id@ == id
            &&& row.title@ == title_of(s.state.titles@, id)
            &&& h.field("seq"@).as_unsigned() matches Some(n) ==> row.seq == n
            &&& row.text@ == "["@ + text_field(h, "kind"@) + "] "@ + preview_of(
                text_field(h, "content"@),
            )
        }),
{
    let want = values(hits@).map_values(|h: JsonValue| hit_row(h, s.state.titles@));
    assert(hit_values(r.rows@).len() == r.rows@.len());
    assert(hit_values(r.rows@)[i] == want[i]);
    assert(hit_values(r.rows@)[i] == r.rows@[i]@);
}

} // verus!
