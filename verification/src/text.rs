//! Character-level text primitives shared by the rest of the library.
//!
//! Texts are modelled as `Seq<char>`; byte offsets are lengths of UTF-8
//! encodings of prefixes.

use vstd::prelude::*;
use vstd::string::*;
use vstd::utf8::{char_is_scalar, encode_scalar, encode_utf8, encode_utf8_decode_utf8};

verus! {

broadcast use vstd::string::group_string_axioms;

/// `String::push` appends one character at the end of the string.
pub assume_specification[ String::push ](s: &mut String, c: char)
    ensures
        final(s)@ == old(s)@.push(c),
;

// ---------------------------------------------------------------------------
// Byte lengths
// ---------------------------------------------------------------------------
/// Number of bytes that a text takes in UTF-8.
pub open spec fn byte_len(s: Seq<char>) -> nat {
    encode_utf8(s).len()
}

/// Number of bytes that one character takes in UTF-8.
pub open spec fn char_width(c: char) -> nat {
    if (c as u32) < 0x80 {
        1
    } else if (c as u32) < 0x800 {
        2
    } else if (c as u32) < 0x10000 {
        3
    } else {
        4
    }
}

pub proof fn lemma_char_width(c: char)
    ensures
        encode_scalar(c as u32).len() == char_width(c),
        1 <= char_width(c) <= 4,
{
    char_is_scalar(c);
}

pub proof fn lemma_byte_len_concat(a: Seq<char>, b: Seq<char>)
    ensures
        byte_len(a + b) == byte_len(a) + byte_len(b),
        encode_utf8(a + b) == encode_utf8(a) + encode_utf8(b),
    decreases a.len(),
{
    if a.len() == 0 {
        assert(a + b =~= b);
        assert(encode_utf8(a) =~= Seq::<u8>::empty());
        assert(encode_utf8(a) + encode_utf8(b) =~= encode_utf8(b));
    } else {
        lemma_byte_len_concat(a.drop_first(), b);
        assert((a + b).drop_first() =~= a.drop_first() + b);
        assert((a + b)[0] == a[0]);
        assert(encode_utf8(a + b) =~= encode_scalar(a[0] as u32) + (encode_utf8(a.drop_first())
            + encode_utf8(b)));
        assert(encode_utf8(a) + encode_utf8(b) =~= encode_scalar(a[0] as u32) + (encode_utf8(
            a.drop_first(),
        ) + encode_utf8(b)));
    }
}

pub proof fn lemma_byte_len_push(a: Seq<char>, c: char)
    ensures
        byte_len(a.push(c)) == byte_len(a) + char_width(c),
{
    let one = seq![c];
    lemma_byte_len_concat(a, one);
    assert(a.push(c) =~= a + one);
    assert(one.drop_first() =~= Seq::<char>::empty());
    assert(encode_utf8(one) =~= encode_scalar(c as u32) + encode_utf8(one.drop_first()));
    assert(encode_utf8(one.drop_first()).len() == 0);
    lemma_char_width(c);
}

/// A prefix of a text takes no more bytes than the text.
pub proof fn lemma_byte_len_prefix(s: Seq<char>, i: int, j: int)
    requires
        0 <= i <= j <= s.len(),
    ensures
        byte_len(s.take(i)) <= byte_len(s.take(j)) <= byte_len(s),
        byte_len(s.take(j)) == byte_len(s.take(i)) + byte_len(s.subrange(i, j)),
        i < j ==> byte_len(s.take(i)) < byte_len(s.take(j)),
{
    lemma_byte_len_concat(s.take(i), s.subrange(i, j));
    assert(s.take(i) + s.subrange(i, j) =~= s.take(j));
    lemma_byte_len_concat(s.take(j), s.skip(j));
    assert(s.take(j) + s.skip(j) =~= s);
    if i < j {
        let t = s.subrange(i, j);
        lemma_char_width(t[0]);
        assert(encode_utf8(t).len() >= encode_scalar(t[0] as u32).len());
    }
}

/// A text has no more characters than bytes.
pub proof fn lemma_len_le_bytes(s: Seq<char>)
    ensures
        s.len() <= byte_len(s),
    decreases s.len(),
{
    if s.len() > 0 {
        lemma_char_width(s[0]);
        lemma_len_le_bytes(s.drop_first());
    }
}

/// Two texts with the same bytes are the same text.
pub proof fn lemma_encode_injective(a: Seq<char>, b: Seq<char>)
    requires
        encode_utf8(a) == encode_utf8(b),
    ensures
        a == b,
{
    encode_utf8_decode_utf8(a);
    encode_utf8_decode_utf8(b);
}

/// Number of bytes of one character in UTF-8.
pub fn width_of(c: char) -> (w: usize)
    ensures
        w == char_width(c),
{
    let n: u32 = c as u32;
    if n < 0x80 {
        1
    } else if n < 0x800 {
        2
    } else if n < 0x10000 {
        3
    } else {
        4
    }
}

// ---------------------------------------------------------------------------
// Strings and character vectors
// ---------------------------------------------------------------------------
/// The characters of a text.
pub fn chars_of(s: &str) -> (v: Vec<char>)
    ensures
        v@ == s@,
        byte_len(s@) <= usize::MAX,
{
    let bytes = s.as_bytes();
    assert(bytes@.len() == bytes.len());
    let mut v: Vec<char> = Vec::new();
    for c in it: s.chars()
        invariant
            it.seq() == s@,
            v@ == s@.take(it.index() as int),
    {
        v.push(c);
        assert(s@.take(it.index() as int + 1) =~= s@.take(it.index() as int).push(c));
    }
    assert(s@.take(s@.len() as int) =~= s@);
    v
}

/// Appends the characters `cs[from..to]` to a string.
pub fn push_range(out: &mut String, cs: &[char], from: usize, to: usize)
    requires
        from <= to <= cs@.len(),
    ensures
        final(out)@ == old(out)@ + cs@.subrange(from as int, to as int),
{
    let mut i: usize = from;
    assert(old(out)@ + cs@.subrange(from as int, from as int) =~= old(out)@);
    while i < to
        invariant
            from <= i <= to <= cs@.len(),
            out@ == old(out)@ + cs@.subrange(from as int, i as int),
        decreases to - i,
    {
        out.push(cs[i]);
        assert(cs@.subrange(from as int, i + 1) =~= cs@.subrange(from as int, i as int).push(
            cs@[i as int],
        ));
        assert(out@ =~= old(out)@ + cs@.subrange(from as int, i + 1));
        i = i + 1;
    }
}

/// The text `cs[from..to]`.
pub fn string_of_range(cs: &[char], from: usize, to: usize) -> (s: String)
    requires
        from <= to <= cs@.len(),
    ensures
        s@ == cs@.subrange(from as int, to as int),
{
    let mut s = String::new();
    push_range(&mut s, cs, from, to);
    assert(Seq::<char>::empty() + cs@.subrange(from as int, to as int) =~= cs@.subrange(
        from as int,
        to as int,
    ));
    s
}

/// The text of a character slice.
pub fn string_of(cs: &[char]) -> (s: String)
    ensures
        s@ == cs@,
{
    let s = string_of_range(cs, 0, cs.len());
    assert(cs@.subrange(0, cs@.len() as int) =~= cs@);
    s
}

/// Whether two texts are equal.
pub fn str_eq(a: &str, b: &str) -> (r: bool)
    ensures
        r == (a@ == b@),
{
    let x = a.as_bytes();
    let y = b.as_bytes();
    if x.len() != y.len() {
        return false;
    }
    let mut i: usize = 0;
    while i < x.len()
        invariant
            x@ == encode_utf8(a@),
            y@ == encode_utf8(b@),
            i <= x@.len() == y@.len(),
            x@.take(i as int) == y@.take(i as int),
        decreases x@.len() - i,
    {
        if x[i] != y[i] {
            return false;
        }
        assert(x@.take(i + 1) =~= x@.take(i as int).push(x@[i as int]));
        assert(y@.take(i + 1) =~= y@.take(i as int).push(y@[i as int]));
        i = i + 1;
    }
    assert(x@ =~= x@.take(i as int));
    assert(y@ =~= y@.take(i as int));
    proof {
        lemma_encode_injective(a@, b@);
    }
    true
}

/// A copy of a text.
pub fn owned(s: &str) -> (r: String)
    ensures
        r@ == s@,
{
    s.to_owned()
}

/// A copy of an optional text.
pub fn owned_opt(s: &Option<String>) -> (r: Option<String>)
    ensures
        opt_view(r) == opt_view(*s),
{
    match s {
        Some(t) => Some(t.clone()),
        None => None,
    }
}

/// `a` followed by `b`.
pub fn cat2(a: &str, b: &str) -> (r: String)
    ensures
        r@ == a@ + b@,
{
    let mut r = a.to_owned();
    r.append(b);
    r
}

/// `a`, `b` and `c` in a row.
pub fn cat3(a: &str, b: &str, c: &str) -> (r: String)
    ensures
        r@ == a@ + b@ + c@,
{
    let mut r = cat2(a, b);
    r.append(c);
    r
}

/// `a`, `b`, `c` and `d` in a row.
pub fn cat4(a: &str, b: &str, c: &str, d: &str) -> (r: String)
    ensures
        r@ == a@ + b@ + c@ + d@,
{
    let mut r = cat3(a, b, c);
    r.append(d);
    r
}

/// `a`, `b`, `c`, `d` and `e` in a row.
pub fn cat5(a: &str, b: &str, c: &str, d: &str, e: &str) -> (r: String)
    ensures
        r@ == a@ + b@ + c@ + d@ + e@,
{
    let mut r = cat4(a, b, c, d);
    r.append(e);
    r
}

// ---------------------------------------------------------------------------
// Views of string containers
// ---------------------------------------------------------------------------
/// The texts held by a sequence of strings.
pub open spec fn views(v: Seq<String>) -> Seq<Seq<char>> {
    v.map_values(|s: String| s@)
}

/// The text held by an optional string.
pub open spec fn opt_view(o: Option<String>) -> Option<Seq<char>> {
    match o {
        Some(s) => Some(s@),
        None => None,
    }
}

/// Whether an optional text is a given one.
pub fn opt_is(o: &Option<String>, s: &str) -> (r: bool)
    ensures
        r == (opt_view(*o) == Some(s@)),
{
    match o {
        Some(t) => str_eq(t.as_str(), s),
        None => false,
    }
}

/// Texts joined with a separator.
pub open spec fn join(parts: Seq<Seq<char>>, sep: Seq<char>) -> Seq<char>
    decreases parts.len(),
{
    if parts.len() == 0 {
        Seq::empty()
    } else if parts.len() == 1 {
        parts[0]
    } else {
        join(parts.drop_last(), sep) + sep + parts.last()
    }
}

/// Texts joined with a separator.
pub fn join_strings(parts: &[String], sep: &str) -> (r: String)
    ensures
        r@ == join(views(parts@), sep@),
{
    let mut r = String::new();
    let mut i: usize = 0;
    assert(views(parts@).take(0) =~= Seq::<Seq<char>>::empty());
    while i < parts.len()
        invariant
            i <= parts@.len(),
            r@ == join(views(parts@).take(i as int), sep@),
        decreases parts@.len() - i,
    {
        if i > 0 {
            r.append(sep);
        }
        r.append(parts[i].as_str());
        proof {
            let next = views(parts@).take(i + 1);
            assert(next.drop_last() =~= views(parts@).take(i as int));
            assert(next.last() == parts@[i as int]@);
            if i == 0 {
                assert(r@ =~= next[0]);
            }
        }
        i = i + 1;
    }
    assert(views(parts@).take(i as int) =~= views(parts@));
    r
}

// ---------------------------------------------------------------------------
// Character classes
// ---------------------------------------------------------------------------
/// Unicode `White_Space`.
pub open spec fn is_white(c: char) -> bool {
    let n = c as u32;
    ||| 0x9 <= n <= 0xd
    ||| n == 0x20
    ||| n == 0x85
    ||| n == 0xa0
    ||| n == 0x1680
    ||| 0x2000 <= n <= 0x200a
    ||| n == 0x2028
    ||| n == 0x2029
    ||| n == 0x202f
    ||| n == 0x205f
    ||| n == 0x3000
}

/// Whether a character is Unicode white space.
pub fn white(c: char) -> (r: bool)
    ensures
        r == is_white(c),
{
    let n: u32 = c as u32;
    (0x9 <= n && n <= 0xd) || n == 0x20 || n == 0x85 || n == 0xa0 || n == 0x1680 || (0x2000 <= n
        && n <= 0x200a) || n == 0x2028 || n == 0x2029 || n == 0x202f || n == 0x205f || n == 0x3000
}

/// The white space of ASCII: space, tab, line feed, form feed, carriage return.
pub open spec fn is_ascii_white(c: char) -> bool {
    c == ' ' || c == '\t' || c == '\n' || c as u32 == 0xc || c == '\r'
}

/// Whether a character is ASCII white space.
pub fn ascii_white(c: char) -> (r: bool)
    ensures
        r == is_ascii_white(c),
{
    c == ' ' || c == '\t' || c == '\n' || c as u32 == 0xc || c == '\r'
}

/// ASCII punctuation.
pub open spec fn is_ascii_punct(c: char) -> bool {
    let n = c as u32;
    ||| 0x21 <= n <= 0x2f
    ||| 0x3a <= n <= 0x40
    ||| 0x5b <= n <= 0x60
    ||| 0x7b <= n <= 0x7e
}

/// Whether a character is ASCII punctuation.
pub fn ascii_punct(c: char) -> (r: bool)
    ensures
        r == is_ascii_punct(c),
{
    let n: u32 = c as u32;
    (0x21 <= n && n <= 0x2f) || (0x3a <= n && n <= 0x40) || (0x5b <= n && n <= 0x60) || (0x7b <= n
        && n <= 0x7e)
}

/// An ASCII digit.
pub open spec fn is_digit(c: char) -> bool {
    '0' <= c <= '9'
}

/// Whether a character is an ASCII digit.
pub fn digit(c: char) -> (r: bool)
    ensures
        r == is_digit(c),
{
    '0' <= c && c <= '9'
}

/// An ASCII letter or digit.
pub open spec fn is_ascii_alnum(c: char) -> bool {
    is_digit(c) || 'a' <= c <= 'z' || 'A' <= c <= 'Z'
}

/// Whether a character is an ASCII letter or digit.
pub fn ascii_alnum(c: char) -> (r: bool)
    ensures
        r == is_ascii_alnum(c),
{
    digit(c) || ('a' <= c && c <= 'z') || ('A' <= c && c <= 'Z')
}

// ---------------------------------------------------------------------------
// Byte offsets
// ---------------------------------------------------------------------------
/// The number of characters that fit entirely in the first `bytes` bytes.
pub open spec fn chars_within(s: Seq<char>, bytes: int) -> int
    decreases s.len(),
{
    if s.len() == 0 || char_width(s[0]) > bytes {
        0
    } else {
        1 + chars_within(s.drop_first(), bytes - char_width(s[0]))
    }
}

/// The text before a byte offset; an offset behind the end means the end.
pub open spec fn text_before(s: Seq<char>, bytes: int) -> Seq<char> {
    s.take(chars_within(s, bytes))
}

/// Whether a byte offset falls between two characters, or behind the end.
pub open spec fn on_boundary(s: Seq<char>, bytes: int) -> bool {
    bytes >= byte_len(s) || byte_len(text_before(s, bytes)) == bytes
}

pub proof fn lemma_chars_within(s: Seq<char>, bytes: int)
    ensures
        0 <= chars_within(s, bytes) <= s.len(),
        bytes >= 0 ==> byte_len(s.take(chars_within(s, bytes))) <= bytes,
        bytes >= byte_len(s) ==> chars_within(s, bytes) == s.len(),
    decreases s.len(),
{
    if s.len() > 0 {
        lemma_char_width(s[0]);
        assert(encode_utf8(s).len() == char_width(s[0]) + encode_utf8(s.drop_first()).len());
        if char_width(s[0]) <= bytes {
            let rest = s.drop_first();
            lemma_chars_within(rest, bytes - char_width(s[0]));
            let k = chars_within(s, bytes);
            let t = s.take(k);
            assert(t.drop_first() =~= rest.take(k - 1));
            assert(t[0] == s[0]);
            assert(encode_utf8(t).len() == char_width(s[0]) + encode_utf8(t.drop_first()).len());
        } else {
            assert(s.take(0) =~= Seq::<char>::empty());
        }
    } else {
        assert(s.take(0) =~= Seq::<char>::empty());
    }
}

/// The number of characters that fit entirely in the first `bytes` bytes.
pub fn count_within(cs: &[char], bytes: usize) -> (k: usize)
    ensures
        k == chars_within(cs@, bytes as int),
        k <= cs@.len(),
{
    let mut k: usize = 0;
    let mut left: usize = bytes;
    assert(cs@.skip(0) =~= cs@);
    while k < cs.len() && width_of(cs[k]) <= left
        invariant
            k <= cs@.len(),
            chars_within(cs@, bytes as int) == k + chars_within(cs@.skip(k as int), left as int),
        decreases cs@.len() - k,
    {
        let w = width_of(cs[k]);
        assert(cs@.skip(k as int).drop_first() =~= cs@.skip(k + 1));
        assert(cs@.skip(k as int)[0] == cs@[k as int]);
        left = left - w;
        k = k + 1;
    }
    proof {
        if k < cs@.len() {
            assert(cs@.skip(k as int)[0] == cs@[k as int]);
        }
    }
    k
}

/// The byte offset of each character position: entry `k` is the number of
/// bytes of the first `k` characters.
pub fn byte_offsets(cs: &[char]) -> (v: Vec<usize>)
    requires
        byte_len(cs@) <= usize::MAX,
    ensures
        v@.len() == cs@.len() + 1,
        forall|k: int| 0 <= k <= cs@.len() ==> #[trigger] v@[k] == byte_len(cs@.take(k)),
{
    let mut v: Vec<usize> = Vec::new();
    v.push(0);
    let mut at: usize = 0;
    let mut i: usize = 0;
    assert(cs@.take(0) =~= Seq::<char>::empty());
    while i < cs.len()
        invariant
            i <= cs@.len(),
            byte_len(cs@) <= usize::MAX,
            at == byte_len(cs@.take(i as int)),
            v@.len() == i + 1,
            forall|k: int| 0 <= k <= i ==> #[trigger] v@[k] == byte_len(cs@.take(k)),
        decreases cs@.len() - i,
    {
        proof {
            assert(cs@.take(i + 1) =~= cs@.take(i as int).push(cs@[i as int]));
            lemma_byte_len_push(cs@.take(i as int), cs@[i as int]);
            lemma_byte_len_prefix(cs@, i + 1, cs@.len() as int);
            assert(cs@.take(cs@.len() as int) =~= cs@);
        }
        at = at + width_of(cs[i]);
        v.push(at);
        i = i + 1;
    }
    v
}

/// The number of bytes of a text.
pub fn len_bytes(s: &str) -> (n: usize)
    ensures
        n == byte_len(s@),
{
    let b = s.as_bytes();
    assert(b@.len() == b.len());
    b.len()
}

// ---------------------------------------------------------------------------
// Case
// ---------------------------------------------------------------------------
/// The lower-case form of a text.
pub uninterp spec fn lowercase(s: Seq<char>) -> Seq<char>;

/// `str::to_lowercase`: the Unicode lower-case form of a text, a function of
/// the text alone.
#[verifier::external_body]
pub(crate) fn lower(s: &str) -> (r: String)
    ensures
        r@ == lowercase(s@),
{
    s.to_lowercase()
}

// ---------------------------------------------------------------------------
// Laws
// ---------------------------------------------------------------------------
/// Joined texts stand in their order with the separator between them, and
/// nowhere else.
pub proof fn law_join(parts: Seq<Seq<char>>, next: Seq<char>, sep: Seq<char>)
    ensures
        join(Seq::<Seq<char>>::empty(), sep) == Seq::<char>::empty(),
        join(seq![next], sep) == next,
        parts.len() > 0 ==> join(parts.push(next), sep) == join(parts, sep) + sep + next,
{
    assert(parts.push(next).drop_last() =~= parts);
}

/// The text before a byte offset is the longest start of the text that takes
/// no more bytes than the offset.
pub proof fn law_text_before_is_longest(s: Seq<char>, bytes: int)
    requires
        bytes >= 0,
    ensures
        exists|k: int|
            0 <= k <= s.len() && text_before(s, bytes) == #[trigger] s.take(k) && byte_len(
                s.take(k),
            ) <= bytes && (k == s.len() || byte_len(s.take(k + 1)) > bytes),
{
    lemma_chars_within(s, bytes);
    lemma_chars_within_is_most(s, bytes);
    assert(text_before(s, bytes) == s.take(chars_within(s, bytes)));
}

proof fn lemma_chars_within_is_most(s: Seq<char>, bytes: int)
    requires
        bytes >= 0,
    ensures
        chars_within(s, bytes) < s.len() ==> byte_len(s.take(chars_within(s, bytes) + 1)) > bytes,
    decreases s.len(),
{
    let k = chars_within(s, bytes);
    lemma_chars_within(s, bytes);
    if s.len() > 0 {
        let first = seq![s[0]];
        assert(Seq::<char>::empty().push(s[0]) =~= first);
        lemma_byte_len_push(Seq::<char>::empty(), s[0]);
        assert(byte_len(Seq::<char>::empty()) == 0) by {
            lemma_byte_len_concat(Seq::<char>::empty(), Seq::<char>::empty());
            assert(Seq::<char>::empty() + Seq::<char>::empty() =~= Seq::<char>::empty());
        }
        if char_width(s[0]) > bytes {
            assert(s.take(1) =~= first);
        } else if k < s.len() {
            let rest = s.drop_first();
            lemma_chars_within_is_most(rest, bytes - char_width(s[0]));
            assert(s.take(k + 1) =~= first + rest.take(k));
            lemma_byte_len_concat(first, rest.take(k));
        }
    }
}

/// The characters of each class, by their signs.
pub proof fn law_character_classes(c: char)
    ensures
        is_digit(c) <==> '0' <= c <= '9',
        is_ascii_alnum(c) <==> '0' <= c <= '9' || 'A' <= c <= 'Z' || 'a' <= c <= 'z',
        is_ascii_punct(c) <==> '!' <= c <= '~' && !is_ascii_alnum(c),
        is_ascii_white(c) <==> c == ' ' || c == '\t' || c == '\n' || c == '\r' || c == '\u{c}',
        is_ascii_white(c) ==> is_white(c),
        is_white(c) && c <= '~' <==> is_ascii_white(c) || c == '\u{b}',
        '\u{2000}' <= c <= '\u{200a}' || c == '\u{3000}' || c == '\u{a0}' ==> is_white(c),
        is_ascii_alnum(c) || is_ascii_punct(c) ==> !is_white(c),
{
}

} // verus!
