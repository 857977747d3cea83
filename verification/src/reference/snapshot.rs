//! Snapshots of referenced sessions: an untrusted, bounded projection of what
//! was said in them.

use crate::json::{
    array_of, lemma_lookup_at, lookup, member_values, object_of, push_member, text_field, values, Json, JsonValue, Number,
};
use crate::scan::{law_replace_leaves_other_text, replace, replace_str};
use crate::text::{
    byte_len, cat3, char_width, chars_of, chars_within, count_within, law_text_before_is_longest,
    lemma_byte_len_concat,
    lemma_byte_len_push, lemma_chars_within, len_bytes, str_eq, string_of_range, text_before,
    width_of,
};
use vstd::prelude::*;
use vstd::string::*;
use vstd::utf8::encode_utf8;

verus! {

/// Bytes that the messages of one snapshot may take.
pub const MAX_REFERENCE_BYTES: usize = 65_536;

/// Sessions that one message may reference.
pub const MAX_REFERENCES: usize = 3;

/// Bytes of the start of a message that is cut.
pub const HEAD_BYTES: usize = 32_768;

/// Bytes of the end of a message that is cut.
pub const TAIL_BYTES: usize = 32_751;

/// A referenced session.
#[derive(Debug, Clone, PartialEq, Eq)]
pub struct SnapshotSession {
    pub session_id: String,
    pub label: String,
    pub retained: usize,
    pub original: usize,
}

/// A message: role and text.
pub type Message = (Seq<char>, Seq<char>);

pub open spec fn message_values(v: Seq<(String, String)>) -> Seq<Message> {
    v.map_values(|p: (String, String)| (p.0@, p.1@))
}

// ---------------------------------------------------------------------------
// Projection
// ---------------------------------------------------------------------------
/// The texts of the text blocks among content blocks, in a row.
pub open spec fn block_text(blocks: Seq<JsonValue>) -> Seq<char>
    decreases blocks.len(),
{
    if blocks.len() == 0 {
        Seq::empty()
    } else {
        let init = block_text(blocks.drop_last());
        let b = blocks.last();
        if b.field("type"@).as_text() == Some("text"@) {
            init + text_field(b, "text"@)
        } else {
            init
        }
    }
}

/// The text of a message: its content, or the text blocks of its content.
pub open spec fn message_text(m: JsonValue) -> Seq<char> {
    match m.field("content"@) {
        JsonValue::Str(s) => s,
        JsonValue::Array(blocks) => block_text(blocks),
        _ => Seq::empty(),
    }
}

/// Whether a message is kept: one of the user or the assistant, with text.
pub open spec fn is_spoken(m: JsonValue) -> bool {
    let role = text_field(m, "role"@);
    (role == "user"@ || role == "assistant"@) && message_text(m).len() > 0
}

/// The spoken messages, in order.
pub open spec fn spoken(ms: Seq<JsonValue>) -> Seq<Message>
    decreases ms.len(),
{
    if ms.len() == 0 {
        Seq::empty()
    } else {
        let init = spoken(ms.drop_last());
        if is_spoken(ms.last()) {
            init.push((text_field(ms.last(), "role"@), message_text(ms.last())))
        } else {
            init
        }
    }
}

fn blocks_text(blocks: &Vec<Json>) -> (r: String)
    ensures
        r@ == block_text(values(blocks@)),
{
    let ghost v = values(blocks@);
    let mut out = String::new();
    let mut i: usize = 0;
    assert(v.take(0) =~= Seq::<JsonValue>::empty());
    while i < blocks.len()
        invariant
            v == values(blocks@),
            i <= blocks@.len(),
            out@ == block_text(v.take(i as int)),
        decreases blocks@.len() - i,
    {
        let b = &blocks[i];
        assert(v.take(i + 1).drop_last() =~= v.take(i as int));
        assert(v.take(i + 1).last() == b.value());
        match b.text_at("type") {
            Some(t) => {
                if str_eq(t.as_str(), "text") {
                    let text = b.text_or_empty("text");
                    out.append(text.as_str());
                }
            },
            None => {},
        }
        i = i + 1;
    }
    assert(v.take(i as int) =~= v);
    out
}

fn text_of(m: &Json) -> (r: String)
    ensures
        r@ == message_text(m.value()),
{
    match m.get("content") {
        Some(c) => match c.as_str() {
            Some(s) => s.clone(),
            None => match c.as_array() {
                Some(blocks) => blocks_text(blocks),
                None => String::new(),
            },
        },
        None => String::new(),
    }
}

fn project(messages: &[Json]) -> (r: Vec<(String, String)>)
    ensures
        message_values(r@) == spoken(values(messages@)),
{
    let ghost v = values(messages@);
    let mut out: Vec<(String, String)> = Vec::new();
    let mut i: usize = 0;
    assert(v.take(0) =~= Seq::<JsonValue>::empty());
    assert(message_values(out@) =~= Seq::<Message>::empty());
    while i < messages.len()
        invariant
            v == values(messages@),
            i <= messages@.len(),
            message_values(out@) == spoken(v.take(i as int)),
        decreases messages@.len() - i,
    {
        let m = &messages[i];
        assert(v.take(i + 1).drop_last() =~= v.take(i as int));
        assert(v.take(i + 1).last() == m.value());
        let role = m.text_or_empty("role");
        if str_eq(role.as_str(), "user") || str_eq(role.as_str(), "assistant") {
            let text = text_of(m);
            if !text.as_str().is_empty() {
                let ghost before = out@;
                out.push((role, text));
                assert(message_values(out@) =~= message_values(before).push((role@, text@)));
            }
        }
        i = i + 1;
    }
    assert(v.take(i as int) =~= v);
    out
}

// ---------------------------------------------------------------------------
// Budget
// ---------------------------------------------------------------------------
/// The bytes of the texts of messages.
pub open spec fn total_bytes(ms: Seq<Message>) -> nat
    decreases ms.len(),
{
    if ms.len() == 0 {
        0
    } else {
        byte_len(ms[0].1) + total_bytes(ms.drop_first())
    }
}

/// The newest messages that fit the budget; at least one is kept.
pub open spec fn newest(ms: Seq<Message>) -> Seq<Message>
    decreases ms.len(),
{
    if ms.len() <= 1 || total_bytes(ms) <= MAX_REFERENCE_BYTES {
        ms
    } else {
        newest(ms.drop_first())
    }
}

/// The longest end of a text that takes at most `bytes` bytes.
pub open spec fn tail_within(s: Seq<char>, bytes: int) -> Seq<char>
    decreases s.len(),
{
    if s.len() == 0 || char_width(s.last()) > bytes {
        Seq::empty()
    } else {
        tail_within(s.drop_last(), bytes - char_width(s.last())).push(s.last())
    }
}

/// A text cut in the middle, with a note in the gap.
pub open spec fn cut_text(s: Seq<char>) -> Seq<char> {
    s.take(chars_within(s, HEAD_BYTES as int)) + "[… omitted …]"@ + tail_within(
        s,
        TAIL_BYTES as int,
    )
}

/// Messages within the budget: the oldest are dropped, and a single one that
/// is too long is cut. The flag says whether one was cut.
pub open spec fn fitted(ms: Seq<Message>) -> (Seq<Message>, bool) {
    let kept = newest(ms);
    if total_bytes(kept) <= MAX_REFERENCE_BYTES {
        (kept, false)
    } else {
        (seq![(kept[0].0, cut_text(kept[0].1))], true)
    }
}

proof fn lemma_total_skip(ms: Seq<Message>, k: int)
    requires
        0 <= k < ms.len(),
    ensures
        total_bytes(ms.skip(k)) == byte_len(ms[k].1) + total_bytes(ms.skip(k + 1)),
{
    assert(ms.skip(k).drop_first() =~= ms.skip(k + 1));
    assert(ms.skip(k)[0] == ms[k]);
}

proof fn lemma_newest_is(ms: Seq<Message>, k: int)
    requires
        0 <= k <= ms.len(),
        ms.len() > 0 ==> k < ms.len(),
        ms.skip(k).len() <= 1 || total_bytes(ms.skip(k)) <= MAX_REFERENCE_BYTES,
        k > 0 ==> total_bytes(ms.skip(k - 1)) > MAX_REFERENCE_BYTES,
    ensures
        newest(ms) == ms.skip(k),
    decreases k,
{
    if k == 0 {
        assert(ms.skip(0) =~= ms);
    } else {
        let rest = ms.drop_first();
        assert(rest.skip(k - 1) =~= ms.skip(k));
        if k > 1 {
            assert(rest.skip(k - 2) =~= ms.skip(k - 1));
        }
        lemma_newest_is(rest, k - 1);
        lemma_total_grows(ms, k - 1);
    }
}

proof fn lemma_total_grows(ms: Seq<Message>, k: int)
    requires
        0 <= k <= ms.len(),
    ensures
        total_bytes(ms.skip(k)) <= total_bytes(ms),
    decreases k,
{
    if k == 0 {
        assert(ms.skip(0) =~= ms);
    } else {
        lemma_total_grows(ms.drop_first(), k - 1);
        assert(ms.drop_first().skip(k - 1) =~= ms.skip(k));
    }
}

proof fn lemma_tail_within(s: Seq<char>, bytes: int)
    requires
        bytes >= 0,
    ensures
        byte_len(tail_within(s, bytes)) <= bytes,
    decreases s.len(),
{
    if s.len() == 0 || char_width(s.last()) > bytes {
        assert(encode_utf8(Seq::<char>::empty()).len() == 0);
    } else {
        lemma_tail_within(s.drop_last(), bytes - char_width(s.last()));
        lemma_byte_len_push(tail_within(s.drop_last(), bytes - char_width(s.last())), s.last());
    }
}

fn tail_start(cs: &[char], bytes: usize) -> (k: usize)
    ensures
        k <= cs@.len(),
        tail_within(cs@, bytes as int) == cs@.skip(k as int),
{
    let mut k: usize = cs.len();
    let mut left: usize = bytes;
    let ghost done = Seq::<char>::empty();
    assert(cs@.skip(k as int) =~= done);
    assert(cs@.take(k as int) =~= cs@);
    assert(tail_within(cs@, bytes as int) + done =~= tail_within(cs@, bytes as int));
    while k > 0 && width_of(cs[k - 1]) <= left
        invariant
            k <= cs@.len(),
            done == cs@.skip(k as int),
            tail_within(cs@.take(k as int), left as int) + done == tail_within(
                cs@,
                bytes as int,
            ),
        decreases k,
    {
        let w = width_of(cs[k - 1]);
        proof {
            let head = cs@.take(k as int);
            assert(head.drop_last() =~= cs@.take(k - 1));
            assert(head.last() == cs@[k - 1]);
            let t = tail_within(cs@.take(k - 1), left - w);
            assert(t.push(cs@[k - 1]) + done =~= t + cs@.skip(k - 1));
            done = cs@.skip(k - 1);
        }
        left = left - w;
        k = k - 1;
    }
    proof {
        let head = cs@.take(k as int);
        if k > 0 {
            assert(head.last() == cs@[k - 1]);
        }
        assert(tail_within(head, left as int) =~= Seq::<char>::empty());
        assert(Seq::<char>::empty() + done =~= done);
    }
    k
}

fn cut(text: &str) -> (r: String)
    ensures
        r@ == cut_text(text@),
{
    let cs = chars_of(text);
    let head_end = count_within(cs.as_slice(), HEAD_BYTES);
    let tail_from = tail_start(cs.as_slice(), TAIL_BYTES);
    let head = string_of_range(cs.as_slice(), 0, head_end);
    let tail = string_of_range(cs.as_slice(), tail_from, cs.len());
    assert(cs@.subrange(0, head_end as int) =~= cs@.take(head_end as int));
    assert(cs@.subrange(tail_from as int, cs@.len() as int) =~= cs@.skip(tail_from as int));
    cat3(head.as_str(), "[… omitted …]", tail.as_str())
}

/// Brings messages within [`MAX_REFERENCE_BYTES`].
pub fn fit_budget(messages: Vec<(String, String)>) -> (r: (Vec<(String, String)>, bool))
    ensures
        (message_values(r.0@), r.1) == fitted(message_values(messages@)),
{
    let ghost ms = message_values(messages@);
    let n: usize = messages.len();
    let mut k: usize = n;
    let mut acc: usize = 0;
    assert(ms.skip(n as int) =~= Seq::<Message>::empty());
    let mut full = false;
    while k > 0 && !full
        invariant
            ms == message_values(messages@),
            n == messages@.len(),
            k <= n,
            acc == total_bytes(ms.skip(k as int)),
            acc <= MAX_REFERENCE_BYTES,
            full ==> k > 0 && total_bytes(ms.skip(k - 1)) > MAX_REFERENCE_BYTES,
        decreases
            k,
            if full {
                0nat
            } else {
                1nat
            },
    {
        let len = len_bytes(messages[k - 1].1.as_str());
        proof {
            lemma_total_skip(ms, k - 1);
            assert(ms[k - 1].1 == messages@[k - 1].1@);
        }
        if len <= MAX_REFERENCE_BYTES - acc {
            acc = acc + len;
            k = k - 1;
        } else {
            full = true;
        }
    }
    if n > 0 && k == n {
        // Only the newest message, and it is too long on its own.
        let role = messages[n - 1].0.clone();
        let text = cut(messages[n - 1].1.as_str());
        proof {
            if n > 1 {
                lemma_total_skip(ms, n - 2);
            }
            lemma_newest_is(ms, n - 1);
            assert(ms.skip(n - 1)[0] == ms[n - 1]);
        }
        let mut out: Vec<(String, String)> = Vec::new();
        out.push((role, text));
        assert(message_values(out@) =~= seq![(role@, text@)]);
        return (out, true);
    }
    let mut out: Vec<(String, String)> = Vec::new();
    let mut i: usize = k;
    while i < n
        invariant
            n == messages@.len(),
            k <= i <= n,
            out@.len() == i - k,
            forall|j: int|
                0 <= j < out@.len() ==> (#[trigger] out@[j]).0@ == messages@[k + j].0@
                    && out@[j].1@ == messages@[k + j].1@,
        decreases n - i,
    {
        out.push((messages[i].0.clone(), messages[i].1.clone()));
        i = i + 1;
    }
    proof {
        assert(message_values(out@) =~= ms.skip(k as int));
        lemma_newest_is(ms, k as int);
    }
    (out, false)
}

/// What is kept of a session never exceeds the budget.
pub proof fn law_snapshot_fits_budget(ms: Seq<Message>)
    ensures
        total_bytes(fitted(ms).0) <= MAX_REFERENCE_BYTES,
{
    let kept = newest(ms);
    if total_bytes(kept) > MAX_REFERENCE_BYTES {
        let text = kept[0].1;
        let head = text.take(chars_within(text, HEAD_BYTES as int));
        let tail = tail_within(text, TAIL_BYTES as int);
        lemma_chars_within(text, HEAD_BYTES as int);
        lemma_tail_within(text, TAIL_BYTES as int);
        lemma_note_bytes();
        lemma_byte_len_concat(head, "[… omitted …]"@);
        lemma_byte_len_concat(head + "[… omitted …]"@, tail);
        let one = seq![(kept[0].0, cut_text(text))];
        assert(one.drop_first() =~= Seq::<Message>::empty());
        reveal_with_fuel(total_bytes, 2);
    }
}

proof fn lemma_note_bytes()
    ensures
        byte_len("[… omitted …]"@) == 17,
{
    reveal_strlit("[… omitted …]");
    let note = "[… omitted …]"@;
    assert(note.len() == 13);
    lemma_bytes_from(note, 13);
    lemma_bytes_from(note, 12);
    lemma_bytes_from(note, 11);
    lemma_bytes_from(note, 10);
    lemma_bytes_from(note, 9);
    lemma_bytes_from(note, 8);
    lemma_bytes_from(note, 7);
    lemma_bytes_from(note, 6);
    lemma_bytes_from(note, 5);
    lemma_bytes_from(note, 4);
    lemma_bytes_from(note, 3);
    lemma_bytes_from(note, 2);
    lemma_bytes_from(note, 1);
    assert(note.take(0) =~= Seq::<char>::empty());
    assert(byte_len(note.take(0)) == 0);
    assert(note.take(13) =~= note);
}

proof fn lemma_bytes_from(s: Seq<char>, k: int)
    requires
        0 < k <= s.len(),
    ensures
        byte_len(s.take(k)) == byte_len(s.take(k - 1)) + char_width(s[k - 1]),
{
    lemma_byte_len_push(s.take(k - 1), s[k - 1]);
    assert(s.take(k) =~= s.take(k - 1).push(s[k - 1]));
}

/// Messages within the budget are kept as they are.
pub proof fn law_small_snapshot_is_complete(ms: Seq<Message>)
    requires
        total_bytes(ms) <= MAX_REFERENCE_BYTES,
    ensures
        fitted(ms) == (ms, false),
{
}

// ---------------------------------------------------------------------------
// The document
// ---------------------------------------------------------------------------
/// The JSON value of a message.
pub open spec fn message_value(m: Message) -> JsonValue {
    JsonValue::Object(seq![("role"@, JsonValue::Str(m.0)), ("text"@, JsonValue::Str(m.1))])
}

/// The JSON value of the snapshot of one session.
pub open spec fn snapshot_value(r: SnapshotSession, ms: Seq<Message>) -> JsonValue {
    let (kept, cut) = fitted(ms);
    JsonValue::Object(
        seq![
            ("sessionId"@, JsonValue::Str(r.session_id@)),
            ("label"@, JsonValue::Str(r.label@)),
            ("conversation"@, JsonValue::Array(kept.map_values(|m: Message| message_value(m)))),
            ("capturedThroughSeq"@, JsonValue::Number(Number::Unsigned(ms.len() as u64))),
            ("retainedMessages"@, JsonValue::Number(Number::Unsigned(r.retained as u64))),
            ("originalMessages"@, JsonValue::Number(Number::Unsigned(r.original as u64))),
            ("truncated"@, JsonValue::Bool(cut)),
        ],
    )
}

fn conversation(ms: &Vec<(String, String)>) -> (r: Json)
    ensures
        r.value() == JsonValue::Array(
            message_values(ms@).map_values(|m: Message| message_value(m)),
        ),
{
    let ghost want = message_values(ms@).map_values(|m: Message| message_value(m));
    let mut out: Vec<Json> = Vec::new();
    let mut i: usize = 0;
    while i < ms.len()
        invariant
            want == message_values(ms@).map_values(|m: Message| message_value(m)),
            i <= ms@.len(),
            out@.len() == i,
            forall|k: int| 0 <= k < i ==> (#[trigger] out@[k]).value() == want[k],
        decreases ms@.len() - i,
    {
        let mut v: Vec<(String, Json)> = Vec::new();
        push_member(&mut v, "role", Json::text(ms[i].0.as_str()));
        push_member(&mut v, "text", Json::text(ms[i].1.as_str()));
        assert(member_values(v@) =~= seq![
            ("role"@, JsonValue::Str(ms@[i as int].0@)),
            ("text"@, JsonValue::Str(ms@[i as int].1@)),
        ]);
        out.push(object_of(v));
        i = i + 1;
    }
    assert(values(out@) =~= want);
    array_of(out)
}

/// The snapshots of sessions whose messages are given, as a JSON document.
pub fn session_snapshot(refs: &[SnapshotSession], messages: &[Json]) -> (r: Json)
    ensures
        r.value() == JsonValue::Array(
            Seq::new(
                refs@.len(),
                |i: int| snapshot_value(refs@[i], spoken(values(messages@))),
            ),
        ),
{
    let ghost ms = spoken(values(messages@));
    let mut out: Vec<Json> = Vec::new();
    let mut i: usize = 0;
    while i < refs.len()
        invariant
            ms == spoken(values(messages@)),
            i <= refs@.len(),
            out@.len() == i,
            forall|k: int| 0 <= k < i
                ==> (#[trigger] out@[k]).value() == snapshot_value(refs@[k], ms),
        decreases refs@.len() - i,
    {
        let r = &refs[i];
        let projected = project(messages);
        let original: usize = projected.len();
        assert(message_values(projected@).len() == original);
        let (kept, truncated) = fit_budget(projected);
        let mut v: Vec<(String, Json)> = Vec::new();
        push_member(&mut v, "sessionId", Json::text(r.session_id.as_str()));
        push_member(&mut v, "label", Json::text(r.label.as_str()));
        push_member(&mut v, "conversation", conversation(&kept));
        push_member(
            &mut v,
            "capturedThroughSeq",
            Json::Number(Number::Unsigned(original as u64)),
        );
        push_member(
            &mut v,
            "retainedMessages",
            Json::Number(Number::Unsigned(r.retained as u64)),
        );
        push_member(
            &mut v,
            "originalMessages",
            Json::Number(Number::Unsigned(r.original as u64)),
        );
        push_member(&mut v, "truncated", Json::Bool(truncated));
        let j = object_of(v);
        assert(j.value()->Object_0 =~= snapshot_value(*r, ms)->Object_0);
        out.push(j);
        i = i + 1;
    }
    let r = array_of(out);
    assert(values(out@) =~= Seq::new(refs@.len(), |i: int| snapshot_value(refs@[i], ms)));
    r
}

/// The prompt part for the JSON text of snapshots: inside tags, with `<`
/// escaped so that the text cannot close them.
pub open spec fn framed(json: Seq<char>) -> Seq<char> {
    "<referenced-sessions>\n"@ + replace(json, "<"@, "\\u003c"@) + "\n</referenced-sessions>"@
}

/// Frames the JSON text of snapshots.
pub fn frame_snapshot(json: &str) -> (r: String)
    ensures
        r@ == framed(json@),
{
    let escaped = replace_str(json, "<", "\\u003c");
    cat3("<referenced-sessions>\n", escaped.as_str(), "\n</referenced-sessions>")
}

/// The escaped text holds no `<`, whatever was in the snapshot.
pub proof fn law_snapshot_cannot_close_its_tag(json: Seq<char>)
    ensures
        !replace(json, "<"@, "\\u003c"@).contains('<'),
    decreases json.len(),
{
    reveal_strlit("<");
    reveal_strlit("\\u003c");
    let p = "<"@;
    let with = "\\u003c"@;
    if json.len() > 0 {
        if json[0] == '<' {
            assert(json.subrange(0, 1) =~= p);
            law_snapshot_cannot_close_its_tag(json.skip(1));
            let rest = replace(json.skip(1), p, with);
            assert(replace(json, p, with) == with + rest);
            assert forall|i: int| 0 <= i < (with + rest).len() implies (with + rest)[i] != '<' by {
                if i >= with.len() {
                    assert((with + rest)[i] == rest[i - with.len()]);
                    assert(rest.contains(rest[i - with.len()]));
                }
            }
        } else {
            assert(json.subrange(0, 1)[0] == json[0]);
            law_snapshot_cannot_close_its_tag(json.drop_first());
            let rest = replace(json.drop_first(), p, with);
            let all = seq![json[0]] + rest;
            assert(replace(json, p, with) == all);
            assert forall|i: int| 0 <= i < all.len() implies all[i] != '<' by {
                if i > 0 {
                    assert(all[i] == rest[i - 1]);
                    assert(rest.contains(rest[i - 1]));
                }
            }
        }
    }
}

// ---------------------------------------------------------------------------
// Laws
// ---------------------------------------------------------------------------
/// What the user and the assistant say is kept, in order, with who said it;
/// messages of anyone else, and empty ones, leave no trace.
pub proof fn law_spoken_messages_are_kept(
    before: Seq<JsonValue>,
    message: Seq<(Seq<char>, JsonValue)>,
    role: Seq<char>,
    text: Seq<char>,
)
    requires
        lookup(message, "role"@) == Some(JsonValue::Str(role)),
        lookup(message, "content"@) == Some(JsonValue::Str(text)),
    ensures
        spoken(Seq::<JsonValue>::empty()) == Seq::<Message>::empty(),
        (role == "user"@ || role == "assistant"@) && text.len() > 0 ==> spoken(
            before.push(JsonValue::Object(message)),
        ) == spoken(before).push((role, text)),
        (role != "user"@ && role != "assistant"@) || text.len() == 0 ==> spoken(
            before.push(JsonValue::Object(message)),
        ) == spoken(before),
{
    assert(before.push(JsonValue::Object(message)).drop_last() =~= before);
}

/// A conversation of the user and the assistant, without empty messages, is
/// kept message by message.
pub proof fn law_a_conversation_is_kept_whole(
    ms: Seq<JsonValue>,
    roles: Seq<Seq<char>>,
    texts: Seq<Seq<char>>,
)
    requires
        roles.len() == ms.len(),
        texts.len() == ms.len(),
        forall|i: int|
            0 <= i < ms.len() ==> {
                &&& (#[trigger] ms[i]).get("role"@) == Some(JsonValue::Str(roles[i]))
                &&& ms[i].get("content"@) == Some(JsonValue::Str(texts[i]))
                &&& roles[i] == "user"@ || roles[i] == "assistant"@
                &&& texts[i].len() > 0
            },
    ensures
        spoken(ms) == Seq::new(ms.len(), |i: int| (roles[i], texts[i])),
    decreases ms.len(),
{
    if ms.len() > 0 {
        let init = ms.drop_last();
        let n = ms.len() - 1;
        assert forall|i: int| 0 <= i < init.len() implies {
            &&& (#[trigger] init[i]).get("role"@) == Some(JsonValue::Str(roles.drop_last()[i]))
            &&& init[i].get("content"@) == Some(JsonValue::Str(texts.drop_last()[i]))
            &&& roles.drop_last()[i] == "user"@ || roles.drop_last()[i] == "assistant"@
            &&& texts.drop_last()[i].len() > 0
        } by {
            assert(init[i] == ms[i]);
        }
        law_a_conversation_is_kept_whole(init, roles.drop_last(), texts.drop_last());
        assert(ms[n].get("role"@) == Some(JsonValue::Str(roles[n])));
        assert(spoken(ms) =~= Seq::new(ms.len(), |i: int| (roles[i], texts[i])));
    } else {
        assert(spoken(ms) =~= Seq::new(ms.len(), |i: int| (roles[i], texts[i])));
    }
}

/// A message in blocks says what its text blocks say, in order; blocks of
/// another type say nothing.
pub proof fn law_text_blocks_are_read(
    before: Seq<JsonValue>,
    block: Seq<(Seq<char>, JsonValue)>,
    kind: Seq<char>,
    text: Seq<char>,
    message: Seq<(Seq<char>, JsonValue)>,
)
    requires
        lookup(block, "type"@) == Some(JsonValue::Str(kind)),
        lookup(block, "text"@) == Some(JsonValue::Str(text)),
        lookup(message, "content"@) == Some(
            JsonValue::Array(before.push(JsonValue::Object(block))),
        ),
    ensures
        block_text(Seq::<JsonValue>::empty()) == Seq::<char>::empty(),
        message_text(JsonValue::Object(message)) == (if kind == "text"@ {
            block_text(before) + text
        } else {
            block_text(before)
        }),
{
    assert(before.push(JsonValue::Object(block)).drop_last() =~= before);
}

/// What does not fit is left out from the oldest message on: the kept messages
/// are the last ones, and with one more the budget would be exceeded. A last
/// message that does not fit by itself is kept alone, cut in the middle; its
/// start and its end stay as far as their shares of the budget go.
pub proof fn law_newest_messages_are_kept(ms: Seq<Message>)
    ensures
        !fitted(ms).1 ==> exists|k: int|
            0 <= k <= ms.len() && fitted(ms).0 == #[trigger] ms.skip(k) && (k > 0 ==> total_bytes(
                ms.skip(k - 1),
            ) > 65_536),
        fitted(ms).1 <==> ms.len() > 0 && byte_len(ms.last().1) > 65_536,
        fitted(ms).1 ==> exists|a: int, b: int|
            #![trigger ms.last().1.take(a), ms.last().1.skip(b)]
            {
                let s = ms.last().1;
                &&& 0 <= a <= s.len()
                &&& 0 <= b <= s.len()
                &&& fitted(ms).0 == seq![
                    (
                        ms.last().0,
                        s.take(a) + "[… omitted …]"@ + s.skip(b),
                    ),
                ]
                &&& byte_len(s.take(a)) <= 32_768
                &&& a == s.len() || byte_len(s.take(a + 1)) > 32_768
                &&& byte_len(s.skip(b)) <= 32_751
                &&& b == 0 || byte_len(s.skip(b - 1)) > 32_751
            },
{
    let k = lemma_newest(ms);
    let kept = newest(ms);
    assert(MAX_REFERENCE_BYTES == 65_536);
    if ms.len() > 0 {
        let n = ms.len() - 1;
        lemma_total_skip(ms, n);
        assert(ms.skip(n + 1) =~= Seq::<Message>::empty());
        assert(total_bytes(ms.skip(n)) == byte_len(ms.last().1));
        assert(ms.skip(k).skip(n - k) =~= ms.skip(n));
        lemma_total_grows(ms.skip(k), n - k);
    } else {
        assert(total_bytes(kept) == 0);
    }
    if fitted(ms).1 {
        assert(kept.len() == 1);
        assert(kept[0] == ms.last());
        let s = ms.last().1;
        let a = chars_within(s, HEAD_BYTES as int);
        lemma_chars_within(s, HEAD_BYTES as int);
        law_text_before_is_longest(s, HEAD_BYTES as int);
        let w = choose|w: int|
            0 <= w <= s.len() && text_before(s, HEAD_BYTES as int) == #[trigger] s.take(w)
                && byte_len(s.take(w)) <= HEAD_BYTES && (w == s.len() || byte_len(s.take(w + 1))
                > HEAD_BYTES);
        assert(s.take(w).len() == w && s.take(a).len() == a);
        let b = lemma_tail_is_longest(s, TAIL_BYTES as int);
        assert(fitted(ms).0 =~= seq![
            (ms.last().0, s.take(a) + "[… omitted …]"@ + s.skip(b)),
        ]);
    } else {
        assert(fitted(ms).0 == ms.skip(k));
    }
}

proof fn lemma_newest(ms: Seq<Message>) -> (k: int)
    ensures
        0 <= k <= ms.len(),
        newest(ms) == ms.skip(k),
        k > 0 ==> total_bytes(ms.skip(k - 1)) > MAX_REFERENCE_BYTES,
        total_bytes(newest(ms)) <= MAX_REFERENCE_BYTES || newest(ms).len() == 1,
        ms.len() > 0 ==> k < ms.len(),
    decreases ms.len(),
{
    if ms.len() <= 1 || total_bytes(ms) <= MAX_REFERENCE_BYTES {
        assert(ms.skip(0) =~= ms);
        0
    } else {
        let rest = ms.drop_first();
        let k = lemma_newest(rest);
        assert(rest.skip(k) =~= ms.skip(k + 1));
        if k > 0 {
            assert(rest.skip(k - 1) =~= ms.skip(k));
        } else {
            assert(ms.skip(0) =~= ms);
        }
        k + 1
    }
}

proof fn lemma_tail_is_longest(s: Seq<char>, bytes: int) -> (b: int)
    requires
        bytes >= 0,
    ensures
        0 <= b <= s.len(),
        tail_within(s, bytes) == s.skip(b),
        byte_len(s.skip(b)) <= bytes,
        b == 0 || byte_len(s.skip(b - 1)) > bytes,
    decreases s.len(),
{
    lemma_tail_within(s, bytes);
    if s.len() == 0 {
        assert(s.skip(0) =~= s);
        assert(tail_within(s, bytes) =~= s.skip(0));
        0
    } else if char_width(s.last()) > bytes {
        let b = s.len() as int;
        assert(tail_within(s, bytes) =~= s.skip(b));
        lemma_byte_len_push(Seq::<char>::empty(), s.last());
        assert(s.skip(b - 1) =~= Seq::<char>::empty().push(s.last()));
        b
    } else {
        let init = s.drop_last();
        let c = s.last();
        let b = lemma_tail_is_longest(init, bytes - char_width(c));
        assert(s.skip(b) =~= init.skip(b).push(c));
        if b > 0 {
            assert(s.skip(b - 1) =~= init.skip(b - 1).push(c));
            lemma_byte_len_push(init.skip(b - 1), c);
        }
        b
    }
}

/// The snapshot of a session names the session, holds what was kept of its
/// conversation with roles and texts, and says how many messages there were and
/// whether one was cut.
pub proof fn law_snapshot_holds_the_conversation(r: SnapshotSession, ms: Seq<Message>, i: int)
    requires
        ms.len() <= u64::MAX,
    ensures
        ({
            let doc = snapshot_value(r, ms);
            let kept = fitted(ms).0;
            &&& doc.field("sessionId"@) == JsonValue::Str(r.session_id@)
            &&& doc.field("label"@) == JsonValue::Str(r.label@)
            &&& doc.field("capturedThroughSeq"@).as_unsigned() == Some(ms.len() as u64)
            &&& doc.field("retainedMessages"@).as_unsigned() == Some(r.retained as u64)
            &&& doc.field("originalMessages"@).as_unsigned() == Some(r.original as u64)
            &&& doc.field("truncated"@) == JsonValue::Bool(fitted(ms).1)
            &&& doc.field("conversation"@).as_items() matches Some(items) && {
                &&& items.len() == kept.len()
                &&& 0 <= i < kept.len() ==> items[i].field("role"@) == JsonValue::Str(kept[i].0)
                    && items[i].field("text"@) == JsonValue::Str(kept[i].1)
            }
        }),
{
    lemma_snapshot_keys();
    let m = seq![
        ("sessionId"@, JsonValue::Str(r.session_id@)),
        ("label"@, JsonValue::Str(r.label@)),
        (
            "conversation"@,
            JsonValue::Array(fitted(ms).0.map_values(|m: Message| message_value(m))),
        ),
        ("capturedThroughSeq"@, JsonValue::Number(Number::Unsigned(ms.len() as u64))),
        ("retainedMessages"@, JsonValue::Number(Number::Unsigned(r.retained as u64))),
        ("originalMessages"@, JsonValue::Number(Number::Unsigned(r.original as u64))),
        ("truncated"@, JsonValue::Bool(fitted(ms).1)),
    ];
    assert(snapshot_value(r, ms) == JsonValue::Object(m));
    assert forall|k: int| 0 <= k < 7 implies (#[trigger] m[k]).0 == snapshot_keys()[k] by {}
    lemma_lookup_at(m, 0);
    lemma_lookup_at(m, 1);
    lemma_lookup_at(m, 2);
    lemma_lookup_at(m, 3);
    lemma_lookup_at(m, 4);
    lemma_lookup_at(m, 5);
    lemma_lookup_at(m, 6);
    let kept = fitted(ms).0;
    if 0 <= i < kept.len() {
        let p = seq![
            ("role"@, JsonValue::Str(kept[i].0)),
            ("text"@, JsonValue::Str(kept[i].1)),
        ];
        assert(message_value(kept[i]) == JsonValue::Object(p));
        lemma_lookup_at(p, 0);
        lemma_lookup_at(p, 1);
    }
}

spec fn snapshot_keys() -> Seq<Seq<char>> {
    seq![
        "sessionId"@,
        "label"@,
        "conversation"@,
        "capturedThroughSeq"@,
        "retainedMessages"@,
        "originalMessages"@,
        "truncated"@,
    ]
}

proof fn lemma_snapshot_keys()
    ensures
        forall|i: int, j: int|
            0 <= i < j < 7 ==> #[trigger] snapshot_keys()[i] != #[trigger] snapshot_keys()[j],
        "role"@ != "text"@,
{
    reveal_strlit("sessionId");
    reveal_strlit("label");
    reveal_strlit("conversation");
    reveal_strlit("capturedThroughSeq");
    reveal_strlit("retainedMessages");
    reveal_strlit("originalMessages");
    reveal_strlit("truncated");
    reveal_strlit("role");
    reveal_strlit("text");
    assert("sessionId"@.len() == 9 && "label"@.len() == 5 && "conversation"@.len() == 12
        && "capturedThroughSeq"@.len() == 18 && "retainedMessages"@.len() == 16
        && "originalMessages"@.len() == 16 && "truncated"@.len() == 9 && "role"@.len() == 4
        && "text"@.len() == 4);
    assert("sessionId"@[0] == 's' && "truncated"@[0] == 't' && "retainedMessages"@[0] == 'r'
        && "originalMessages"@[0] == 'o' && "role"@[0] == 'r' && "text"@[0] == 't');
}

/// The framed text starts and ends with its tags; between them stands the
/// snapshot, in which only `<` is written otherwise.
pub proof fn law_frame_keeps_the_snapshot(json: Seq<char>)
    requires
        !json.contains('<'),
    ensures
        framed(json) == "<referenced-sessions>\n"@ + json + "\n</referenced-sessions>"@,
{
    reveal_strlit("<");
    assert forall|i: int| 0 <= i <= json.len() - "<"@.len() implies #[trigger] json.subrange(
        i,
        i + "<"@.len(),
    ) != "<"@ by {
        assert(json.subrange(i, i + 1)[0] == json[i]);
        assert(json.contains(json[i]));
    }
    law_replace_leaves_other_text(json, "<"@, "\\u003c"@);
}

/// There is a snapshot for each session that is referenced, in order, under its
/// own id and title.
pub proof fn law_each_session_has_its_snapshot(
    refs: &[SnapshotSession],
    messages: &[Json],
    r: Json,
    i: int,
)
    requires
        call_ensures(session_snapshot, (refs, messages), r),
        0 <= i < refs@.len(),
    ensures
        r.value() matches JsonValue::Array(v) && v.len() == refs@.len() && v[i] == snapshot_value(
            refs@[i],
            spoken(values(messages@)),
        ),
{
}

} // verus!
