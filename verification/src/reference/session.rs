//! Session mentions and the `dsh-session:` URI codec.
//!
//! A session is referenced by a URI that holds its id as base64url JSON,
//! either bare or as the target of `@[label](uri)`.

use crate::scan::{
    find_from, first_at, lemma_first_at, lemma_first_at_is, matches_at, push_repeated, repeated,
    stands_at, trim_end_char, trim_end_char_index,
};
use crate::text::{
    ascii_alnum, byte_len, cat2, cat5, chars_of, is_ascii_alnum, lemma_len_le_bytes, len_bytes,
    str_eq, string_of_range,
};
use base64::Engine;
use vstd::prelude::*;
use vstd::string::*;
use vstd::utf8::{encode_utf8, is_ascii_chars, is_ascii_chars_encode_utf8};

verus! {

// ---------------------------------------------------------------------------
// Outside encodings
// ---------------------------------------------------------------------------
/// The padded URL-safe base64 text of some bytes.
pub uninterp spec fn base64_text(bytes: Seq<u8>) -> Seq<char>;

/// The bytes of a padded URL-safe base64 text; `None` where it is not one.
pub uninterp spec fn base64_bytes(text: Seq<char>) -> Option<Seq<u8>>;

/// The compact JSON text of an object with one string member.
pub uninterp spec fn json_object_text(key: Seq<char>, value: Seq<char>) -> Seq<char>;

/// The string under a key of a JSON text; `None` where the bytes are no JSON
/// text, or it has no such string.
pub uninterp spec fn json_string_member(bytes: Seq<u8>, key: Seq<char>) -> Option<Seq<char>>;

/// A character of the URL-safe base64 alphabet.
pub open spec fn is_base64_char(c: char) -> bool {
    is_ascii_alnum(c) || c == '_' || c == '-'
}

/// Alphabet characters followed by at most two padding signs, a multiple of
/// four in all.
pub open spec fn is_padded_base64(s: Seq<char>, pad: int) -> bool {
    &&& s.len() % 4 == 0
    &&& 0 <= pad <= 2
    &&& pad <= s.len()
    &&& forall|i: int| 0 <= i < s.len() - pad ==> is_base64_char(#[trigger] s[i])
    &&& forall|i: int| s.len() - pad <= i < s.len() ==> #[trigger] s[i] == '='
}

/// `base64`'s `URL_SAFE.encode`: the padded text over the URL-safe alphabet,
/// which `URL_SAFE.decode` turns back into the bytes.
#[verifier::external_body]
fn encode_base64(bytes: &[u8]) -> (r: String)
    ensures
        r@ == base64_text(bytes@),
        exists|pad: int| is_padded_base64(r@, pad),
        base64_bytes(r@) == Some(bytes@),
{
    base64::engine::general_purpose::URL_SAFE.encode(bytes)
}

/// `base64`'s `URL_SAFE.decode`: the bytes of a padded text, or nothing where
/// the text is not valid.
#[verifier::external_body]
fn decode_base64(text: &str) -> (r: Option<Vec<u8>>)
    ensures
        match r {
            Some(v) => base64_bytes(text@) == Some(v@),
            None => base64_bytes(text@) is None,
        },
{
    base64::engine::general_purpose::URL_SAFE.decode(text).ok()
}

/// `serde_json`'s compact text of an object with one string member, from which
/// `serde_json` reads the string back.
#[verifier::external_body]
fn write_json_member(key: &str, value: &str) -> (r: String)
    ensures
        r@ == json_object_text(key@, value@),
        json_string_member(encode_utf8(r@), key@) == Some(value@),
{
    let mut members = serde_json::Map::new();
    members.insert(key.to_string(), serde_json::Value::from(value));
    serde_json::Value::Object(members).to_string()
}

/// `serde_json::from_slice` into a value, indexed by a key and read as a
/// string; nothing where one of these fails.
#[verifier::external_body]
fn read_json_member(bytes: &[u8], key: &str) -> (r: Option<String>)
    ensures
        match r {
            Some(s) => json_string_member(bytes@, key@) == Some(s@),
            None => json_string_member(bytes@, key@) is None,
        },
{
    let value: serde_json::Value = serde_json::from_slice(bytes).ok()?;
    value[key].as_str().map(String::from)
}

// ---------------------------------------------------------------------------
// The URI codec
// ---------------------------------------------------------------------------
/// The scheme of session URIs, with its colon.
pub open spec fn scheme() -> Seq<char> {
    "dsh-session:"@
}

/// The URI of a session.
pub open spec fn session_uri_of(id: Seq<char>) -> Seq<char> {
    scheme() + trim_end_char(
        base64_text(encode_utf8(json_object_text("sessionId"@, id))),
        '=',
    )
}

/// A base64 text filled up with padding signs to a multiple of four bytes.
pub open spec fn padded(b64: Seq<char>) -> Seq<char> {
    b64 + repeated('=', ((4 - byte_len(b64) % 4) % 4) as nat)
}

/// The session id that a URI holds.
pub open spec fn session_id_of(uri: Seq<char>) -> Option<Seq<char>> {
    if !stands_at(uri, 0, scheme()) {
        None
    } else {
        match base64_bytes(padded(uri.skip(scheme().len() as int))) {
            Some(bytes) => json_string_member(bytes, "sessionId"@),
            None => None,
        }
    }
}

/// A URI that consists of the scheme and alphabet characters.
pub open spec fn is_plain_uri(uri: Seq<char>) -> bool {
    &&& stands_at(uri, 0, scheme())
    &&& forall|i: int| scheme().len() <= i < uri.len() ==> is_base64_char(#[trigger] uri[i])
}

proof fn lemma_trim_padding(s: Seq<char>, pad: int)
    requires
        is_padded_base64(s, pad),
    ensures
        trim_end_char(s, '=') == s.take(s.len() - pad),
    decreases pad,
{
    if pad == 0 {
        assert(s.take(s.len() as int) =~= s);
        if s.len() > 0 {
            assert(is_base64_char(s[s.len() - 1]));
        }
    } else {
        let t = s.drop_last();
        assert(s.last() == '=');
        lemma_trim_run(s, s.len() - pad);
    }
}

proof fn lemma_trim_run(s: Seq<char>, k: int)
    requires
        0 <= k <= s.len(),
        k > 0 ==> s[k - 1] != '=',
        forall|i: int| k <= i < s.len() ==> #[trigger] s[i] == '=',
    ensures
        trim_end_char(s, '=') == s.take(k),
    decreases s.len(),
{
    if s.len() == k {
        assert(s.take(k) =~= s);
    } else {
        assert(s[s.len() - 1] == '=');
        lemma_trim_run(s.drop_last(), k);
        assert(s.drop_last().take(k) =~= s.take(k));
    }
}

proof fn lemma_repad(s: Seq<char>, pad: int)
    requires
        is_padded_base64(s, pad),
    ensures
        padded(trim_end_char(s, '=')) == s,
        forall|i: int|
            0 <= i < trim_end_char(s, '=').len() ==> is_base64_char(
                #[trigger] trim_end_char(s, '=')[i],
            ),
{
    lemma_trim_padding(s, pad);
    let t = s.take(s.len() - pad);
    assert forall|i: int| 0 <= i < t.len() implies '\0' <= #[trigger] t[i] <= '\u{7f}' by {
        assert(is_base64_char(s[i]));
    }
    assert(is_ascii_chars(t));
    is_ascii_chars_encode_utf8(t);
    assert(byte_len(t) == t.len());
    assert((4 - t.len() % 4) % 4 == pad);
    assert(t + repeated('=', pad as nat) =~= s);
}

/// The URI of a session. It holds the id: decoding gives it back.
pub fn session_uri(session_id: &str) -> (r: String)
    ensures
        r@ == session_uri_of(session_id@),
        is_plain_uri(r@),
        session_id_of(r@) == Some(session_id@),
{
    let json = write_json_member("sessionId", session_id);
    let b64 = encode_base64(json.as_str().as_bytes());
    let cs = chars_of(b64.as_str());
    let end = trim_end_char_index(cs.as_slice(), 0, cs.len(), '=');
    let body = string_of_range(cs.as_slice(), 0, end);
    let r = cat2("dsh-session:", body.as_str());
    proof {
        assert(cs@.subrange(0, cs@.len() as int) =~= cs@);
        let pad = choose|pad: int| is_padded_base64(b64@, pad);
        lemma_repad(b64@, pad);
        let n = scheme().len() as int;
        assert(r@.subrange(0, n) =~= scheme());
        assert(r@.skip(n) =~= body@);
        assert forall|i: int| n <= i < r@.len() implies is_base64_char(#[trigger] r@[i]) by {
            assert(r@[i] == body@[i - n]);
        }
    }
    r
}

/// The session id that a URI holds.
pub fn decode_session_uri(uri: &str) -> (r: Option<String>)
    ensures
        match r {
            Some(id) => session_id_of(uri@) == Some(id@),
            None => session_id_of(uri@) is None,
        },
{
    let cs = chars_of(uri);
    let scheme_chars = chars_of("dsh-session:");
    if !matches_at(cs.as_slice(), 0, scheme_chars.as_slice()) {
        return None;
    }
    let mut text = string_of_range(cs.as_slice(), scheme_chars.len(), cs.len());
    assert(text@ =~= uri@.skip(scheme().len() as int));
    let n: usize = len_bytes(text.as_str());
    let pad: usize = (4 - n % 4) % 4;
    push_repeated(&mut text, '=', pad);
    match decode_base64(text.as_str()) {
        Some(bytes) => read_json_member(bytes.as_slice(), "sessionId"),
        None => None,
    }
}

// ---------------------------------------------------------------------------
// References in a text
// ---------------------------------------------------------------------------
/// A place of the form `@[label](uri)`: from `start` up to `end`, with the
/// closing bracket of the label at `close`.
#[derive(Debug, Clone, Copy, PartialEq, Eq, Structural)]
pub struct Mention {
    pub start: usize,
    pub close: usize,
    pub end: usize,
}

impl Mention {
    pub open spec fn label(self, s: Seq<char>) -> Seq<char> {
        s.subrange(self.start + 2, self.close as int)
    }

    pub open spec fn uri(self, s: Seq<char>) -> Seq<char> {
        s.subrange(self.close + 2, self.end - 1)
    }

    pub open spec fn inside(self, s: Seq<char>) -> bool {
        self.start + 2 <= self.close && self.close + 3 <= self.end && self.end <= s.len()
    }
}

/// The place of the form `@[label](target)` that starts at `i`.
pub open spec fn mention_at(s: Seq<char>, i: int) -> Option<Mention> {
    if 0 <= i && i + 1 < s.len() && s[i] == '@' && s[i + 1] == '[' {
        let close = first_at(s, i + 2, ']');
        let paren = first_at(s, close + 1, ')');
        if close < s.len() && paren < s.len() && s[close + 1] == '(' {
            Some(
                Mention { start: i as usize, close: close as usize, end: (paren + 1) as usize },
            )
        } else {
            None
        }
    } else {
        None
    }
}

/// The session mentions of a text from position `i` on: places of the form
/// `@[label](target)`, without overlap, whose target has the session scheme.
pub open spec fn mentions_from(s: Seq<char>, i: int) -> Seq<Mention>
    decreases s.len() - i,
{
    if i < 0 || i >= s.len() {
        Seq::empty()
    } else {
        match mention_at(s, i) {
            Some(m) => if m.end <= i || m.end > s.len() {
                Seq::empty()
            } else {
                let rest = mentions_from(s, m.end as int);
                if stands_at(m.uri(s), 0, scheme()) {
                    seq![m] + rest
                } else {
                    rest
                }
            },
            None => mentions_from(s, i + 1),
        }
    }
}

proof fn lemma_mention_at(s: Seq<char>, i: int)
    requires
        s.len() <= usize::MAX,
        mention_at(s, i) is Some,
    ensures
        ({
            let m = mention_at(s, i)->0;
            m.inside(s) && m.start == i && i < m.end
        }),
{
    lemma_first_at(s, i + 2, ']');
    let close = first_at(s, i + 2, ']');
    lemma_first_at(s, close + 1, ')');
}

/// The session mentions of a text.
pub fn find_mentions(cs: &[char]) -> (r: Vec<Mention>)
    ensures
        r@ == mentions_from(cs@, 0),
        forall|k: int| 0 <= k < r@.len() ==> (#[trigger] r@[k]).inside(cs@),
{
    let scheme_chars = chars_of("dsh-session:");
    let mut out: Vec<Mention> = Vec::new();
    let mut i: usize = 0;
    assert(out@ + mentions_from(cs@, 0) =~= mentions_from(cs@, 0));
    assert(cs@.len() == cs.len());
    while i < cs.len()
        invariant
            i <= cs@.len() <= usize::MAX,
            scheme_chars@ == scheme(),
            out@ + mentions_from(cs@, i as int) == mentions_from(cs@, 0),
            forall|k: int| 0 <= k < out@.len() ==> (#[trigger] out@[k]).inside(cs@),
        decreases cs@.len() - i,
    {
        let ghost before = out@;
        let mut hit: Option<Mention> = None;
        if cs[i] == '@' && i + 1 < cs.len() && cs[i + 1] == '[' {
            let close = find_from(cs, i + 2, ']');
            if close < cs.len() {
                let paren = find_from(cs, close + 1, ')');
                if paren < cs.len() && cs[close + 1] == '(' {
                    hit = Some(Mention { start: i, close, end: paren + 1 });
                }
            }
        }
        assert(hit == mention_at(cs@, i as int));
        match hit {
            Some(m) => {
                proof {
                    lemma_mention_at(cs@, i as int);
                }
                let target = chars_of(string_of_range(cs, m.close + 2, m.end - 1).as_str());
                assert(target@ == m.uri(cs@));
                if matches_at(target.as_slice(), 0, scheme_chars.as_slice()) {
                    out.push(m);
                    assert(out@ + mentions_from(cs@, m.end as int) =~= before + (seq![m]
                        + mentions_from(cs@, m.end as int)));
                }
                i = m.end;
            },
            None => {
                i = i + 1;
            },
        }
    }
    assert(out@ + Seq::<Mention>::empty() =~= out@);
    out
}

/// End of the run of alphabet characters that starts at `i`.
pub open spec fn base64_run(s: Seq<char>, i: int) -> int
    decreases s.len() - i,
{
    if 0 <= i < s.len() && is_base64_char(s[i]) {
        base64_run(s, i + 1)
    } else {
        i
    }
}

/// The bare session URIs of a text from position `i` on, as ranges.
pub open spec fn bare_from(s: Seq<char>, i: int) -> Seq<(int, int)>
    decreases s.len() - i,
{
    if i < 0 || i >= s.len() {
        Seq::empty()
    } else if stands_at(s, i, scheme()) {
        let j = base64_run(s, i + scheme().len());
        if j <= i || j > s.len() {
            Seq::empty()
        } else {
            seq![(i, j)] + bare_from(s, j)
        }
    } else {
        bare_from(s, i + 1)
    }
}

proof fn lemma_base64_run(s: Seq<char>, i: int)
    requires
        0 <= i <= s.len(),
    ensures
        i <= base64_run(s, i) <= s.len(),
        forall|k: int| i <= k < base64_run(s, i) ==> is_base64_char(#[trigger] s[k]),
        base64_run(s, i) < s.len() ==> !is_base64_char(s[base64_run(s, i)]),
    decreases s.len() - i,
{
    if i < s.len() && is_base64_char(s[i]) {
        lemma_base64_run(s, i + 1);
    }
}

proof fn lemma_scheme()
    ensures
        scheme().len() == 12,
        scheme()[11] == ':',
        scheme()[0] == 'd',
        forall|i: int| 0 <= i < 12 ==> #[trigger] scheme()[i] != '@' && scheme()[i] != ']'
            && scheme()[i] != '(' && scheme()[i] != ')' && scheme()[i] != '[',
        !is_base64_char(':'),
{
    reveal_strlit("dsh-session:");
}

/// The bare session URIs of a text, as ranges of character positions.
pub fn find_bare_uris(cs: &[char]) -> (r: Vec<(usize, usize)>)
    ensures
        r@.map_values(|p: (usize, usize)| (p.0 as int, p.1 as int)) == bare_from(cs@, 0),
        forall|k: int| 0 <= k < r@.len() ==> (#[trigger] r@[k]).0 <= r@[k].1 <= cs@.len(),
{
    let scheme_chars = chars_of("dsh-session:");
    let mut out: Vec<(usize, usize)> = Vec::new();
    let mut i: usize = 0;
    let ghost f = |p: (usize, usize)| (p.0 as int, p.1 as int);
    assert(out@.map_values(f) + bare_from(cs@, 0) =~= bare_from(cs@, 0));
    while i < cs.len()
        invariant
            i <= cs@.len(),
            f == (|p: (usize, usize)| (p.0 as int, p.1 as int)),
            scheme_chars@ == scheme(),
            out@.map_values(f) + bare_from(cs@, i as int) == bare_from(cs@, 0),
            forall|k: int| 0 <= k < out@.len() ==> (#[trigger] out@[k]).0 <= out@[k].1 <= cs@.len(),
        decreases cs@.len() - i,
    {
        if matches_at(cs, i, scheme_chars.as_slice()) {
            let ghost before = out@;
            let start = i;
            let mut j: usize = i + scheme_chars.len();
            proof {
                lemma_scheme();
                lemma_base64_run(cs@, j as int);
            }
            while j < cs.len() && (ascii_alnum(cs[j]) || cs[j] == '_' || cs[j] == '-')
                invariant
                    i < j <= cs@.len(),
                    base64_run(cs@, j as int) == base64_run(cs@, i + scheme().len()),
                decreases cs@.len() - j,
            {
                j = j + 1;
            }
            out.push((start, j));
            assert(out@.map_values(f) =~= before.map_values(f).push((start as int, j as int)));
            assert(out@.map_values(f) + bare_from(cs@, j as int) =~= before.map_values(f) + (seq![
                (start as int, j as int),
            ] + bare_from(cs@, j as int)));
            i = j;
        } else {
            i = i + 1;
        }
    }
    assert(out@.map_values(f) + Seq::<(int, int)>::empty() =~= out@.map_values(f));
    out
}

/// A referenced session: the text it is shown by, and its id.
pub type Reference = (Seq<char>, Seq<char>);

/// The references that mentions make: those whose URI holds an id.
pub open spec fn mention_references(s: Seq<char>, ms: Seq<Mention>) -> Seq<Reference>
    decreases ms.len(),
{
    if ms.len() == 0 {
        Seq::empty()
    } else {
        let init = mention_references(s, ms.drop_last());
        match session_id_of(ms.last().uri(s)) {
            Some(id) => init.push((ms.last().label(s), id)),
            None => init,
        }
    }
}

/// Whether a session is among the references.
pub open spec fn knows(refs: Seq<Reference>, id: Seq<char>) -> bool {
    exists|k: int| 0 <= k < refs.len() && (#[trigger] refs[k]).1 == id
}

/// The references that bare URIs add: each session that is not there yet.
pub open spec fn add_bare(
    refs: Seq<Reference>,
    s: Seq<char>,
    uris: Seq<(int, int)>,
) -> Seq<Reference>
    decreases uris.len(),
{
    if uris.len() == 0 {
        refs
    } else {
        let init = add_bare(refs, s, uris.drop_last());
        let uri = s.subrange(uris.last().0, uris.last().1);
        match session_id_of(uri) {
            Some(id) => if knows(init, id) {
                init
            } else {
                init.push((uri, id))
            },
            None => init,
        }
    }
}

/// The sessions that a text references: those of its mentions, with their
/// labels, then those of its bare URIs that no entry has yet.
pub open spec fn references_in(s: Seq<char>) -> Seq<Reference> {
    add_bare(mention_references(s, mentions_from(s, 0)), s, bare_from(s, 0))
}

/// The texts of a list of references.
pub open spec fn reference_values(v: Seq<(String, String)>) -> Seq<Reference> {
    v.map_values(|p: (String, String)| (p.0@, p.1@))
}

fn knows_id(refs: &Vec<(String, String)>, id: &str) -> (r: bool)
    ensures
        r == knows(reference_values(refs@), id@),
{
    let ghost v = reference_values(refs@);
    let mut i: usize = 0;
    while i < refs.len()
        invariant
            v == reference_values(refs@),
            i <= refs@.len(),
            forall|k: int| 0 <= k < i ==> (#[trigger] v[k]).1 != id@,
        decreases refs@.len() - i,
    {
        if str_eq(refs[i].1.as_str(), id) {
            assert(v[i as int].1 == id@);
            return true;
        }
        i = i + 1;
    }
    false
}

/// The sessions that a text references, as label and id.
pub fn parse_session_references(text: &str) -> (r: Vec<(String, String)>)
    ensures
        reference_values(r@) == references_in(text@),
{
    let cs = chars_of(text);
    let mentions = find_mentions(cs.as_slice());
    let mut out: Vec<(String, String)> = Vec::new();
    let mut i: usize = 0;
    assert(mentions@.take(0) =~= Seq::<Mention>::empty());
    assert(reference_values(out@) =~= Seq::<Reference>::empty());
    while i < mentions.len()
        invariant
            cs@ == text@,
            i <= mentions@.len(),
            forall|k: int| 0 <= k < mentions@.len() ==> (#[trigger] mentions@[k]).inside(cs@),
            reference_values(out@) == mention_references(text@, mentions@.take(i as int)),
        decreases mentions@.len() - i,
    {
        let m = mentions[i];
        let ghost before = out@;
        assert(mentions@.take(i + 1).drop_last() =~= mentions@.take(i as int));
        assert(mentions@.take(i + 1).last() == m);
        let label = string_of_range(cs.as_slice(), m.start + 2, m.close);
        let uri = string_of_range(cs.as_slice(), m.close + 2, m.end - 1);
        match decode_session_uri(uri.as_str()) {
            Some(id) => {
                out.push((label, id));
                assert(reference_values(out@) =~= reference_values(before).push((label@, id@)));
            },
            None => {},
        }
        i = i + 1;
    }
    assert(mentions@.take(i as int) =~= mentions@);
    let uris = find_bare_uris(cs.as_slice());
    let ghost ranges = bare_from(text@, 0);
    let ghost base = mention_references(text@, mentions@);
    let mut k: usize = 0;
    assert(ranges.take(0) =~= Seq::<(int, int)>::empty());
    while k < uris.len()
        invariant
            cs@ == text@,
            ranges == bare_from(text@, 0),
            uris@.map_values(|p: (usize, usize)| (p.0 as int, p.1 as int)) == ranges,
            k <= uris@.len(),
            forall|j: int| 0 <= j < uris@.len() ==> (#[trigger] uris@[j]).0 <= uris@[j].1
                <= cs@.len(),
            reference_values(out@) == add_bare(base, text@, ranges.take(k as int)),
        decreases uris@.len() - k,
    {
        let range = uris[k];
        let ghost before = out@;
        assert(ranges[k as int] == (range.0 as int, range.1 as int));
        assert(ranges.take(k + 1).drop_last() =~= ranges.take(k as int));
        assert(ranges.take(k + 1).last() == ranges[k as int]);
        let uri = string_of_range(cs.as_slice(), range.0, range.1);
        match decode_session_uri(uri.as_str()) {
            Some(id) => {
                if !knows_id(&out, id.as_str()) {
                    out.push((uri, id));
                    assert(reference_values(out@) =~= reference_values(before).push((uri@, id@)));
                }
            },
            None => {},
        }
        k = k + 1;
    }
    assert(ranges.take(k as int) =~= ranges);
    out
}

// ---------------------------------------------------------------------------
// Mentions
// ---------------------------------------------------------------------------
/// The mention of a session.
pub open spec fn session_mention_of(label: Seq<char>, uri: Seq<char>) -> Seq<char> {
    "@["@ + label + "]("@ + uri + ")"@
}

/// Whether a label survives a round trip through a mention of a session: it
/// has no closing bracket, and no URI in it names another session.
pub open spec fn is_safe_label(label: Seq<char>, id: Seq<char>) -> bool {
    &&& !label.contains(']')
    &&& forall|k: int|
        0 <= k < bare_from(label, 0).len() ==> {
            let r = #[trigger] bare_from(label, 0)[k];
            let found = session_id_of(label.subrange(r.0, r.1));
            found is None || found == Some(id)
        }
}

/// The mention of a session. Where the label allows it, the text references
/// exactly that session, by that label.
pub fn session_mention(label: &str, session_id: &str) -> (r: String)
    ensures
        r@ == session_mention_of(label@, session_uri_of(session_id@)),
        is_safe_label(label@, session_id@) ==> references_in(r@) == seq![(label@, session_id@)],
{
    let uri = session_uri(session_id);
    let r = cat5("@[", label, "](", uri.as_str(), ")");
    let bytes = r.as_str().as_bytes();
    proof {
        assert(bytes@.len() == bytes.len());
        lemma_len_le_bytes(r@);
        if is_safe_label(label@, session_id@) {
            lemma_mention_round_trip(label@, uri@, session_id@);
        }
    }
    r
}

proof fn lemma_mention_round_trip(label: Seq<char>, uri: Seq<char>, id: Seq<char>)
    requires
        is_plain_uri(uri),
        session_id_of(uri) == Some(id),
        is_safe_label(label, id),
        session_mention_of(label, uri).len() <= usize::MAX,
    ensures
        references_in(session_mention_of(label, uri)) == seq![(label, id)],
{
    let s = session_mention_of(label, uri);
    reveal_strlit("@[");
    reveal_strlit("](");
    reveal_strlit(")");
    lemma_scheme();
    let n = label.len() as int;
    let u = uri.len() as int;
    assert(s.len() == n + u + 5);
    assert(s[0] == '@' && s[1] == '[');
    assert(s[n + 2] == ']' && s[n + 3] == '(' && s[n + u + 4] == ')');
    assert(s.subrange(2, n + 2) =~= label);
    assert(s.subrange(n + 4, n + u + 4) =~= uri);
    // The mention is found.
    assert forall|i: int| 2 <= i < n + 2 implies #[trigger] s[i] != ']' by {
        assert(s[i] == label[i - 2]);
    }
    lemma_first_at_is(s, 2, ']', n + 2);
    assert forall|i: int| n + 3 <= i < n + u + 4 implies #[trigger] s[i] != ')' by {
        if i >= n + 4 {
            assert(s[i] == uri[i - n - 4]);
            if i - n - 4 < 12 {
                assert(uri.subrange(0, 12)[i - n - 4] == uri[i - n - 4]);
            } else {
                assert(is_base64_char(uri[i - n - 4]));
            }
        }
    }
    lemma_first_at_is(s, n + 3, ')', n + u + 4);
    let m = Mention { start: 0, close: (n + 2) as usize, end: (n + u + 5) as usize };
    assert(mention_at(s, 0) == Some(m));
    assert(mentions_from(s, m.end as int) =~= Seq::<Mention>::empty());
    assert(mentions_from(s, 0) =~= seq![m]);
    assert(m.label(s) =~= label);
    assert(m.uri(s) =~= uri);
    let refs = mention_references(s, seq![m]);
    assert(seq![m].drop_last() =~= Seq::<Mention>::empty());
    assert(seq![m].last() == m);
    reveal_with_fuel(mention_references, 2);
    assert(refs =~= seq![(label, id)]);
    assert(refs[0].1 == id);
    // Bare URIs add nothing.
    lemma_bare_in_mention(label, uri, s);
    let ranges = bare_from(s, 0);
    assert forall|k: int| 0 <= k < ranges.len() implies {
        let found = session_id_of(s.subrange((#[trigger] ranges[k]).0, ranges[k].1));
        found is None || found == Some(id)
    } by {
        let inner = bare_from(label, 0);
        if k < inner.len() {
            assert(ranges[k] == (inner[k].0 + 2, inner[k].1 + 2));
            lemma_bare_ranges(label, 0);
            assert(s.subrange(ranges[k].0, ranges[k].1) =~= label.subrange(
                inner[k].0,
                inner[k].1,
            ));
        } else {
            assert(ranges[k] == (n + 4, n + u + 4));
        }
    }
    lemma_known_adds_nothing(refs, s, ranges, id);
}

proof fn lemma_known_adds_nothing(
    refs: Seq<Reference>,
    s: Seq<char>,
    ranges: Seq<(int, int)>,
    id: Seq<char>,
)
    requires
        knows(refs, id),
        forall|k: int| 0 <= k < ranges.len() ==> {
            let found = session_id_of(s.subrange((#[trigger] ranges[k]).0, ranges[k].1));
            found is None || found == Some(id)
        },
    ensures
        add_bare(refs, s, ranges) == refs,
    decreases ranges.len(),
{
    if ranges.len() > 0 {
        let init = ranges.drop_last();
        assert forall|k: int| 0 <= k < init.len() implies {
            let found = session_id_of(s.subrange((#[trigger] init[k]).0, init[k].1));
            found is None || found == Some(id)
        } by {
            assert(init[k] == ranges[k]);
        }
        lemma_known_adds_nothing(refs, s, init, id);
        assert(ranges.last() == ranges[ranges.len() - 1]);
    }
}

proof fn lemma_bare_ranges(s: Seq<char>, i: int)
    requires
        0 <= i,
    ensures
        forall|k: int|
            0 <= k < bare_from(s, i).len() ==> i <= (#[trigger] bare_from(s, i)[k]).0
                <= bare_from(s, i)[k].1 <= s.len(),
    decreases s.len() - i,
{
    if i < s.len() {
        lemma_scheme();
        if stands_at(s, i, scheme()) {
            let j = base64_run(s, i + scheme().len());
            lemma_base64_run(s, i + scheme().len());
            lemma_bare_ranges(s, j);
            let rest = bare_from(s, j);
            assert(bare_from(s, i) == seq![(i, j)] + rest);
            assert forall|k: int| 0 <= k < bare_from(s, i).len() implies i <= (
            #[trigger] bare_from(s, i)[k]).0 <= bare_from(s, i)[k].1 <= s.len() by {
                if k > 0 {
                    assert(bare_from(s, i)[k] == rest[k - 1]);
                }
            }
        } else {
            lemma_bare_ranges(s, i + 1);
            let rest = bare_from(s, i + 1);
            assert forall|k: int| 0 <= k < bare_from(s, i).len() implies i <= (
            #[trigger] bare_from(s, i)[k]).0 <= bare_from(s, i)[k].1 <= s.len() by {
                assert(bare_from(s, i)[k] == rest[k]);
            }
        }
    }
}

/// The bare URIs of a mention are those of its label, two characters on, and
/// then the target.
proof fn lemma_bare_in_mention(label: Seq<char>, uri: Seq<char>, s: Seq<char>)
    requires
        s == session_mention_of(label, uri),
        is_plain_uri(uri),
    ensures
        bare_from(s, 0).len() == bare_from(label, 0).len() + 1,
        forall|k: int|
            0 <= k < bare_from(label, 0).len() ==> #[trigger] bare_from(s, 0)[k] == (
                bare_from(label, 0)[k].0 + 2,
                bare_from(label, 0)[k].1 + 2,
            ),
        bare_from(s, 0).last() == (
            label.len() + 4int,
            label.len() + uri.len() + 4int,
        ),
{
    reveal_strlit("@[");
    reveal_strlit("](");
    reveal_strlit(")");
    lemma_scheme();
    let n = label.len() as int;
    assert(s[0] == '@' && s[1] == '[');
    assert(!stands_at(s, 0, scheme())) by {
        if stands_at(s, 0, scheme()) {
            assert(s.subrange(0, 12)[0] == s[0]);
        }
    }
    assert(!stands_at(s, 1, scheme())) by {
        if stands_at(s, 1, scheme()) {
            assert(s.subrange(1, 13)[0] == s[1]);
        }
    }
    reveal_with_fuel(bare_from, 3);
    assert(bare_from(s, 0) == bare_from(s, 2));
    lemma_bare_suffix(label, uri, s, 0);
}

/// The bare URIs of a mention from a position in its label on.
proof fn lemma_bare_suffix(label: Seq<char>, uri: Seq<char>, s: Seq<char>, i: int)
    requires
        s == session_mention_of(label, uri),
        is_plain_uri(uri),
        0 <= i <= label.len(),
    ensures
        bare_from(s, i + 2).len() == bare_from(label, i).len() + 1,
        forall|k: int|
            0 <= k < bare_from(label, i).len() ==> #[trigger] bare_from(s, i + 2)[k] == (
                bare_from(label, i)[k].0 + 2,
                bare_from(label, i)[k].1 + 2,
            ),
        bare_from(s, i + 2).last() == (
            label.len() + 4int,
            label.len() + uri.len() + 4int,
        ),
    decreases label.len() - i,
{
    reveal_strlit("@[");
    reveal_strlit("](");
    reveal_strlit(")");
    lemma_scheme();
    let n = label.len() as int;
    let u = uri.len() as int;
    assert(s.len() == n + u + 5);
    if i == n {
        // Behind the label: `](`, then the target.
        assert(s[n + 2] == ']' && s[n + 3] == '(' && s[n + u + 4] == ')');
        assert(!stands_at(s, n + 2, scheme())) by {
            if stands_at(s, n + 2, scheme()) {
                assert(s.subrange(n + 2, n + 14)[0] == s[n + 2]);
            }
        }
        assert(!stands_at(s, n + 3, scheme())) by {
            if stands_at(s, n + 3, scheme()) {
                assert(s.subrange(n + 3, n + 15)[0] == s[n + 3]);
            }
        }
        assert(s.subrange(n + 4, n + 16) =~= uri.subrange(0, 12));
        assert(stands_at(s, n + 4, scheme()));
        lemma_run_is(s, n + 16, n + u + 4, uri, n + 4);
        let j = n + u + 4;
        assert(!stands_at(s, j, scheme())) by {
            if stands_at(s, j, scheme()) {
                assert(s.subrange(j, j + 12)[0] == s[j]);
            }
        }
        reveal_with_fuel(bare_from, 3);
        assert(bare_from(s, j + 1) =~= Seq::<(int, int)>::empty());
        assert(bare_from(s, j) =~= Seq::<(int, int)>::empty());
        assert(bare_from(s, n + 4) =~= seq![(n + 4, j)]);
        assert(bare_from(s, n + 2) == bare_from(s, n + 4));
        assert(bare_from(label, n) =~= Seq::<(int, int)>::empty());
    } else {
        assert(stands_at(s, i + 2, scheme()) == stands_at(label, i, scheme())) by {
            if i + 12 <= n {
                assert(s.subrange(i + 2, i + 14) =~= label.subrange(i, i + 12));
            } else if stands_at(s, i + 2, scheme()) {
                // The scheme would run over the closing bracket.
                assert(s.subrange(i + 2, i + 14)[n - i] == s[n + 2]);
                assert(s[n + 2] == ']');
            }
        }
        if stands_at(label, i, scheme()) {
            lemma_run_shift(label, uri, s, i + 12);
            let j = base64_run(label, i + 12);
            lemma_base64_run(label, i + 12);
            lemma_bare_suffix(label, uri, s, j);
            let a = bare_from(s, i + 2);
            let b = bare_from(label, i);
            assert(a == seq![(i + 2, j + 2)] + bare_from(s, j + 2));
            assert(b == seq![(i, j)] + bare_from(label, j));
            assert forall|k: int| 0 <= k < b.len() implies #[trigger] a[k] == (
                b[k].0 + 2,
                b[k].1 + 2,
            ) by {
                if k > 0 {
                    assert(b[k] == bare_from(label, j)[k - 1]);
                    assert(a[k] == bare_from(s, j + 2)[k - 1]);
                }
            }
        } else {
            lemma_bare_suffix(label, uri, s, i + 1);
        }
    }
}

proof fn lemma_run_is(s: Seq<char>, i: int, j: int, uri: Seq<char>, at: int)
    requires
        0 <= i <= j < s.len(),
        at + uri.len() == j,
        at + 12 <= i,
        !is_base64_char(s[j]),
        forall|k: int| at <= k < j ==> s[k] == uri[k - at],
        forall|k: int| 12 <= k < uri.len() ==> is_base64_char(#[trigger] uri[k]),
    ensures
        base64_run(s, i) == j,
    decreases j - i,
{
    if i < j {
        assert(s[i] == uri[i - at]);
        assert(is_base64_char(uri[i - at]));
        lemma_run_is(s, i + 1, j, uri, at);
    }
}

proof fn lemma_run_shift(label: Seq<char>, uri: Seq<char>, s: Seq<char>, i: int)
    requires
        s == session_mention_of(label, uri),
        0 <= i <= label.len(),
    ensures
        base64_run(s, i + 2) == base64_run(label, i) + 2,
    decreases label.len() - i,
{
    reveal_strlit("@[");
    reveal_strlit("](");
    reveal_strlit(")");
    if i < label.len() {
        assert(s[i + 2] == label[i]);
        if is_base64_char(label[i]) {
            lemma_run_shift(label, uri, s, i + 1);
        }
    } else {
        assert(s[i + 2] == ']');
    }
}

// ---------------------------------------------------------------------------
// Laws
// ---------------------------------------------------------------------------
/// The mention of a session has one place of the form of a mention, with its
/// label and its URI.
pub proof fn lemma_one_mention(label: Seq<char>, uri: Seq<char>)
    requires
        is_plain_uri(uri),
        !label.contains(']'),
        session_mention_of(label, uri).len() <= usize::MAX,
    ensures
        ({
            let s = session_mention_of(label, uri);
            let ms = mentions_from(s, 0);
            &&& ms.len() == 1
            &&& ms[0].start == 0
            &&& ms[0].end == s.len()
            &&& ms[0].label(s) == label
            &&& ms[0].uri(s) == uri
        }),
{
    let s = session_mention_of(label, uri);
    reveal_strlit("@[");
    reveal_strlit("](");
    reveal_strlit(")");
    lemma_scheme();
    let n = label.len() as int;
    let u = uri.len() as int;
    assert(s.len() == n + u + 5);
    assert(s[0] == '@' && s[1] == '[');
    assert(s[n + 2] == ']' && s[n + 3] == '(' && s[n + u + 4] == ')');
    assert(s.subrange(2, n + 2) =~= label);
    assert(s.subrange(n + 4, n + u + 4) =~= uri);
    assert forall|i: int| 2 <= i < n + 2 implies #[trigger] s[i] != ']' by {
        assert(s[i] == label[i - 2]);
        assert(label.contains(label[i - 2]));
    }
    lemma_first_at_is(s, 2, ']', n + 2);
    assert forall|i: int| n + 3 <= i < n + u + 4 implies #[trigger] s[i] != ')' by {
        if i >= n + 4 {
            assert(s[i] == uri[i - n - 4]);
            if i - n - 4 < 12 {
                assert(uri.subrange(0, 12)[i - n - 4] == uri[i - n - 4]);
            } else {
                assert(is_base64_char(uri[i - n - 4]));
            }
        }
    }
    lemma_first_at_is(s, n + 3, ')', n + u + 4);
    let m = Mention { start: 0, close: (n + 2) as usize, end: (n + u + 5) as usize };
    assert(mention_at(s, 0) == Some(m));
    assert(mentions_from(s, m.end as int) =~= Seq::<Mention>::empty());
    assert(m.uri(s) =~= uri);
    assert(mentions_from(s, 0) =~= seq![m]);
    assert(m.label(s) =~= label);
}

/// A bare URI references its session, by the URI itself.
pub proof fn law_bare_uris_reference_sessions(uri: Seq<char>, id: Seq<char>)
    requires
        is_plain_uri(uri),
        session_id_of(uri) == Some(id),
    ensures
        references_in(uri) == seq![(uri, id)],
        uri.take(12) == "dsh-session:"@,
{
    lemma_scheme();
    let n = uri.len() as int;
    assert(uri.subrange(0, 12) =~= uri.take(12));
    assert forall|i: int| 0 <= i < n implies #[trigger] uri[i] != '@' by {
        if i < 12 {
            assert(uri.subrange(0, 12)[i] == uri[i]);
        } else {
            assert(is_base64_char(uri[i]));
        }
    }
    lemma_no_at(uri, 0);
    lemma_run_to_end(uri, 12);
    assert(stands_at(uri, 0, scheme()));
    assert(bare_from(uri, n) =~= Seq::<(int, int)>::empty());
    assert(bare_from(uri, 0) =~= seq![(0int, n)]);
    let refs = mention_references(uri, mentions_from(uri, 0));
    assert(refs =~= Seq::<Reference>::empty());
    let one = seq![(0int, n)];
    assert(one.drop_last() =~= Seq::<(int, int)>::empty());
    assert(one.last() == (0int, n));
    reveal_with_fuel(add_bare, 2);
    assert(uri.subrange(0, n) =~= uri);
    assert(!knows(refs, id));
    assert(add_bare(refs, uri, one) =~= seq![(uri, id)]);
}

proof fn lemma_no_at(s: Seq<char>, i: int)
    requires
        0 <= i,
        forall|k: int| 0 <= k < s.len() ==> #[trigger] s[k] != '@',
    ensures
        mentions_from(s, i) == Seq::<Mention>::empty(),
    decreases s.len() - i,
{
    if i < s.len() {
        assert(s[i] != '@');
        lemma_no_at(s, i + 1);
    }
}

proof fn lemma_run_to_end(s: Seq<char>, i: int)
    requires
        0 <= i <= s.len(),
        forall|k: int| i <= k < s.len() ==> is_base64_char(#[trigger] s[k]),
    ensures
        base64_run(s, i) == s.len(),
    decreases s.len() - i,
{
    if i < s.len() {
        assert(is_base64_char(s[i]));
        lemma_run_to_end(s, i + 1);
    }
}

/// A text that does not start with the scheme of sessions holds no id.
pub proof fn law_other_schemes_hold_no_session(uri: Seq<char>)
    requires
        uri.len() < 12 || uri.take(12) != "dsh-session:"@,
    ensures
        session_id_of(uri) is None,
{
    lemma_scheme();
    if uri.len() >= 12 {
        assert(uri.subrange(0, 12) =~= uri.take(12));
    }
}

} // verus!
