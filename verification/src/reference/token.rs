//! The `@` token before the cursor.

use crate::scan::{
    has_white, has_white_from, last_at, law_last_place, rfind_char, trim_start_char, trim_start_char_index,
};
use crate::text::{
    ascii_punct, byte_len, byte_offsets, cat2, cat3, chars_of, count_within, is_ascii_punct,
    is_white, lemma_byte_len_prefix, lemma_chars_within, on_boundary, string_of_range, text_before,
    white,
};
use vstd::prelude::*;
use vstd::string::*;

verus! {

/// A token that waits for completion.
#[derive(Debug, Clone, PartialEq, Eq)]
pub struct ActiveAtToken {
    /// The whole token, with its `@`.
    pub prefix: String,
    /// The text behind the `@`.
    pub query: String,
    /// Whether a quote was opened behind the `@`.
    pub quoted: bool,
}

/// The mathematical value of an active token.
#[verifier::ext_equal]
pub struct ActiveValue {
    pub prefix: Seq<char>,
    pub query: Seq<char>,
    pub quoted: bool,
}

impl View for ActiveAtToken {
    type V = ActiveValue;

    open spec fn view(&self) -> ActiveValue {
        ActiveValue { prefix: self.prefix@, query: self.query@, quoted: self.quoted }
    }
}

/// Whether a character may stand before an `@` that starts a token.
pub open spec fn opens_token(c: char) -> bool {
    is_white(c) || is_ascii_punct(c)
}

/// The active token at the end of a text.
///
/// The last `@` counts where it stands at the start of the text or behind
/// white space or punctuation. A quote behind it opens a token that may hold
/// white space; without one, the rest may hold neither white space nor a
/// quote.
pub open spec fn active_in(before: Seq<char>) -> Option<ActiveValue> {
    let at = last_at(before, '@');
    if at < 0 {
        None
    } else if at > 0 && !opens_token(before[at - 1]) {
        None
    } else {
        let between = before.skip(at + 1);
        if between.len() > 0 && between[0] == '"' {
            let query = trim_start_char(between, '"');
            Some(ActiveValue { prefix: "@\""@ + query, query, quoted: true })
        } else if has_white(between) || between.contains('"') {
            None
        } else {
            Some(ActiveValue { prefix: "@"@ + between, query: between, quoted: false })
        }
    }
}

fn contains_quote(cs: &[char], from: usize, to: usize) -> (r: bool)
    requires
        from <= to <= cs@.len(),
    ensures
        r == cs@.subrange(from as int, to as int).contains('"'),
{
    let ghost d = cs@.subrange(from as int, to as int);
    let mut i: usize = from;
    while i < to
        invariant
            d == cs@.subrange(from as int, to as int),
            from <= i <= to <= cs@.len(),
            forall|k: int| 0 <= k < i - from ==> #[trigger] d[k] != '"',
        decreases to - i,
    {
        if cs[i] == '"' {
            assert(d[i - from] == '"');
            return true;
        }
        i = i + 1;
    }
    false
}

fn active_with_position(cs: &[char], end: usize) -> (r: Option<(ActiveAtToken, usize)>)
    requires
        end <= cs@.len(),
    ensures
        match r {
            Some((t, at)) => {
                &&& active_in(cs@.take(end as int)) == Some(t@)
                &&& at == last_at(cs@.take(end as int), '@')
                &&& at < end
            },
            None => active_in(cs@.take(end as int)) is None,
        },
{
    let ghost before = cs@.take(end as int);
    let at = match rfind_char(cs, end, '@') {
        Some(k) => k,
        None => {
            return None;
        },
    };
    if at > 0 {
        let prev = cs[at - 1];
        if !(white(prev) || ascii_punct(prev)) {
            return None;
        }
    }
    let head: Vec<char> = chars_of(string_of_range(cs, 0, end).as_str());
    assert(head@ =~= before);
    if at + 1 < end && cs[at + 1] == '"' {
        let k = trim_start_char_index(head.as_slice(), at + 1, '"');
        let query = string_of_range(head.as_slice(), k, end);
        assert(query@ =~= before.skip(k as int));
        let prefix = cat2("@\"", query.as_str());
        return Some((ActiveAtToken { prefix, query, quoted: true }, at));
    }
    assert(before.skip(at + 1) =~= cs@.subrange(at + 1, end as int));
    if has_white_from(head.as_slice(), at + 1) || contains_quote(cs, at + 1, end) {
        return None;
    }
    let query = string_of_range(cs, at + 1, end);
    let prefix = cat2("@", query.as_str());
    Some((ActiveAtToken { prefix, query, quoted: false }, at))
}

/// The token that waits for completion before the cursor, which stands at a
/// byte offset between two characters.
pub fn active_at_token(text: &str, caret: usize) -> (r: Option<ActiveAtToken>)
    requires
        on_boundary(text@, caret as int),
    ensures
        match r {
            Some(t) => active_in(text_before(text@, caret as int)) == Some(t@),
            None => active_in(text_before(text@, caret as int)) is None,
        },
{
    let cs = chars_of(text);
    let end = count_within(cs.as_slice(), caret);
    match active_with_position(cs.as_slice(), end) {
        Some((t, _)) => Some(t),
        None => None,
    }
}

/// An active token with its place in the text.
#[derive(Debug, Clone, PartialEq, Eq)]
pub struct AtHit {
    pub token: ActiveAtToken,
    /// Byte offset of the `@`.
    pub start: usize,
    /// Byte offset of the cursor.
    pub caret: usize,
}

/// The active token before the cursor, with the byte offset of its `@`.
pub fn at_hit(text: &str, caret: usize) -> (r: Option<AtHit>)
    requires
        on_boundary(text@, caret as int),
    ensures
        match r {
            Some(h) => {
                let before = text_before(text@, caret as int);
                &&& active_in(before) == Some(h.token@)
                &&& h.start == byte_len(before.take(last_at(before, '@')))
                &&& h.caret == caret
                &&& h.start < caret
            },
            None => active_in(text_before(text@, caret as int)) is None,
        },
{
    let cs = chars_of(text);
    let end = count_within(cs.as_slice(), caret);
    match active_with_position(cs.as_slice(), end) {
        Some((token, at)) => {
            let offsets = byte_offsets(cs.as_slice());
            let start = offsets[at];
            proof {
                let before = text_before(text@, caret as int);
                assert(before.take(at as int) =~= text@.take(at as int));
                lemma_chars_within(text@, caret as int);
                lemma_byte_len_prefix(text@, at as int, end as int);
            }
            Some(AtHit { token, start, caret })
        },
        None => None,
    }
}

/// The mention of a file: quoted where the path has white space.
pub open spec fn file_mention_of(path: Seq<char>) -> Seq<char> {
    if has_white(path) {
        "@\""@ + path + "\""@
    } else {
        "@"@ + path
    }
}

/// The mention of a file: quoted where the path has white space.
pub fn file_mention(path: &str) -> (r: String)
    ensures
        r@ == file_mention_of(path@),
{
    let cs = chars_of(path);
    assert(cs@.skip(0) =~= cs@);
    if has_white_from(cs.as_slice(), 0) {
        cat3("@\"", path, "\"")
    } else {
        cat2("@", path)
    }
}

// ---------------------------------------------------------------------------
// Laws
// ---------------------------------------------------------------------------
/// An `@` inside a word never starts a token.
pub proof fn law_word_internal_at_is_ignored(before: Seq<char>, at: int)
    requires
        0 < at == last_at(before, '@'),
        !is_white(before[at - 1]),
        !is_ascii_punct(before[at - 1]),
    ensures
        active_in(before) is None,
{
}

/// A token that is active without a quote is exactly the end of the text, and
/// its query holds no white space.
pub proof fn law_plain_token_ends_the_text(before: Seq<char>, t: ActiveValue)
    requires
        active_in(before) == Some(t),
        !t.quoted,
    ensures
        t.prefix == before.skip(last_at(before, '@')),
        !has_white(t.query),
{
    reveal_strlit("@");
    lemma_last_at(before, '@');
    let at = last_at(before, '@');
    assert(before.skip(at) =~= "@"@ + before.skip(at + 1));
}

proof fn lemma_last_at(s: Seq<char>, c: char)
    ensures
        -1 <= last_at(s, c) < s.len(),
        last_at(s, c) >= 0 ==> s[last_at(s, c)] == c,
    decreases s.len(),
{
    if s.len() > 0 && s.last() != c {
        lemma_last_at(s.drop_last(), c);
    }
}

/// An `@` at the start of a text or behind white space or punctuation, with
/// neither white space nor a quote nor another `@` behind it, is a token whose
/// query is what stands behind it.
pub proof fn law_text_behind_an_at_is_the_query(lead: Seq<char>, query: Seq<char>)
    requires
        lead.len() == 0 || is_white(lead.last()) || is_ascii_punct(lead.last()),
        forall|i: int|
            0 <= i < query.len() ==> !is_white(#[trigger] query[i]) && query[i] != '"' && query[i]
                != '@',
    ensures
        active_in(lead + seq!['@'] + query) == Some(
            ActiveValue { prefix: seq!['@'] + query, query, quoted: false },
        ),
{
    let s = lead + seq!['@'] + query;
    let n = lead.len() as int;
    reveal_strlit("@");
    law_last_place(s, '@');
    assert(s[n] == '@');
    if last_at(s, '@') > n {
        assert(s[last_at(s, '@')] == query[last_at(s, '@') - n - 1]);
    }
    assert(s.skip(n + 1) =~= query);
    if n > 0 {
        assert(s[n - 1] == lead.last());
    }
    assert("@"@ =~= seq!['@']);
    if query.contains('"') {
        let w = choose|w: int| 0 <= w < query.len() && query[w] == '"';
        assert(query[w] != '"');
    }
}

/// An `@` and a quote open a token that may hold white space; its query is what
/// stands behind the quote.
pub proof fn law_text_behind_a_quote_is_the_query(lead: Seq<char>, query: Seq<char>)
    requires
        lead.len() == 0 || is_white(lead.last()) || is_ascii_punct(lead.last()),
        !query.contains('@'),
        query.len() == 0 || query[0] != '"',
    ensures
        active_in(lead + seq!['@', '"'] + query) == Some(
            ActiveValue { prefix: seq!['@', '"'] + query, query, quoted: true },
        ),
{
    let s = lead + seq!['@', '"'] + query;
    let n = lead.len() as int;
    reveal_strlit("@\"");
    law_last_place(s, '@');
    assert(s[n] == '@' && s[n + 1] == '"');
    let k = last_at(s, '@');
    if k > n + 1 {
        assert(s[k] == query[k - n - 2]);
        assert(query.contains(query[k - n - 2]));
    }
    let between = s.skip(n + 1);
    assert(between[0] == '"');
    assert(between.drop_first() =~= query);
    assert(trim_start_char(query, '"') == query);
    if n > 0 {
        assert(s[n - 1] == lead.last());
    }
    assert("@\""@ =~= seq!['@', '"']);
}

/// A text without an `@` has no token, and neither has one with white space
/// behind its last `@`, unless a quote follows the `@`.
pub proof fn law_no_token_without_an_at(before: Seq<char>, at: int)
    ensures
        !before.contains('@') ==> active_in(before) is None,
        0 <= at < before.len() - 1 && before[at] == '@' && (forall|i: int|
            at < i < before.len() ==> #[trigger] before[i] != '@') && before[at + 1] != '"' && (
        exists|i: int| at < i < before.len() && is_white(#[trigger] before[i])) ==> active_in(
            before,
        ) is None,
{
    law_last_place(before, '@');
    let k = last_at(before, '@');
    if k >= 0 {
        assert(before.contains(before[k]));
    }
    if 0 <= at < before.len() - 1 && before[at] == '@' && (forall|i: int|
        at < i < before.len() ==> #[trigger] before[i] != '@') && before[at + 1] != '"' && (exists|
        i: int,
    |
        at < i < before.len() && is_white(#[trigger] before[i])) {
        assert(k == at);
        let between = before.skip(at + 1);
        let i = choose|i: int| at < i < before.len() && is_white(#[trigger] before[i]);
        assert(between[i - at - 1] == before[i]);
        assert(has_white(between));
        assert(between[0] == before[at + 1]);
    }
}

/// A file is mentioned by its path behind an `@`, in quotes where the path holds
/// white space.
pub proof fn law_file_mentions(path: Seq<char>)
    ensures
        (exists|i: int| 0 <= i < path.len() && is_white(#[trigger] path[i]))
            ==> file_mention_of(path)
            == seq!['@', '"'] + path + seq!['"'],
        (forall|i: int| 0 <= i < path.len() ==> !is_white(#[trigger] path[i])) ==> file_mention_of(
            path,
        ) == seq!['@'] + path,
{
    reveal_strlit("@\"");
    reveal_strlit("@");
    reveal_strlit("\"");
    assert("@\""@ =~= seq!['@', '"']);
    assert("@"@ =~= seq!['@']);
    assert("\""@ =~= seq!['"']);
}

/// A hit reaches from the last `@` before the caret to the caret.
pub proof fn law_hits_reach_to_the_caret(
    text: &str,
    caret: usize,
    before: Seq<char>,
    word: Seq<char>,
    r: Option<AtHit>,
)
    requires
        call_ensures(at_hit, (text, caret), r),
        text_before(text@, caret as int) == before + seq!['@'] + word,
        !word.contains('@'),
    ensures
        r matches Some(h) ==> h.caret == caret && h.start == byte_len(before) && h.start < h.caret,
        r is Some <==> active_in(before + seq!['@'] + word) is Some,
{
    let s = before + seq!['@'] + word;
    let n = before.len() as int;
    assert(s[n] == '@');
    assert forall|i: int| n < i < s.len() implies #[trigger] s[i] != '@' by {
        assert(s[i] == word[i - n - 1]);
    }
    crate::scan::law_last_place(s, '@');
    assert(s.take(n) =~= before);
}

} // verus!
