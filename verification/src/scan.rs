//! Searching, trimming, splitting and replacing on character sequences.

use crate::text::{chars_of, is_white, join, string_of, string_of_range, views, white};
use vstd::prelude::*;
use vstd::string::*;

verus! {

// ---------------------------------------------------------------------------
// Prefixes and searching
// ---------------------------------------------------------------------------
/// Position of the first `c` at or after `from`, or the length of the text.
pub open spec fn first_at(s: Seq<char>, from: int, c: char) -> int
    decreases s.len() - from,
{
    if from < 0 || from >= s.len() {
        s.len() as int
    } else if s[from] == c {
        from
    } else {
        first_at(s, from + 1, c)
    }
}

pub proof fn lemma_first_at(s: Seq<char>, from: int, c: char)
    requires
        0 <= from <= s.len(),
    ensures
        from <= first_at(s, from, c) <= s.len(),
        forall|i: int| from <= i < first_at(s, from, c) ==> #[trigger] s[i] != c,
        first_at(s, from, c) < s.len() ==> s[first_at(s, from, c)] == c,
    decreases s.len() - from,
{
    if from < s.len() && s[from] != c {
        lemma_first_at(s, from + 1, c);
    }
}

/// A position that no earlier `c` precedes is the one that the search finds.
pub proof fn lemma_first_at_is(s: Seq<char>, from: int, c: char, k: int)
    requires
        0 <= from <= k < s.len(),
        s[k] == c,
        forall|i: int| from <= i < k ==> #[trigger] s[i] != c,
    ensures
        first_at(s, from, c) == k,
    decreases k - from,
{
    if from < k {
        assert(s[from] != c);
        lemma_first_at_is(s, from + 1, c, k);
    }
}

/// Position of the first `c` at or after `from`, or the length of the text.
pub fn find_from(cs: &[char], from: usize, c: char) -> (r: usize)
    requires
        from <= cs@.len(),
    ensures
        r == first_at(cs@, from as int, c),
        from <= r <= cs@.len(),
{
    let mut i: usize = from;
    while i < cs.len()
        invariant
            from <= i <= cs@.len(),
            first_at(cs@, from as int, c) == first_at(cs@, i as int, c),
        decreases cs@.len() - i,
    {
        if cs[i] == c {
            return i;
        }
        i = i + 1;
    }
    i
}

/// Whether `p` stands in `s` at position `i`.
pub open spec fn stands_at(s: Seq<char>, i: int, p: Seq<char>) -> bool {
    0 <= i && i + p.len() <= s.len() && s.subrange(i, i + p.len()) == p
}

/// Whether `p` stands in `cs` at position `i`.
pub fn matches_at(cs: &[char], i: usize, p: &[char]) -> (r: bool)
    requires
        i <= cs@.len(),
    ensures
        r == stands_at(cs@, i as int, p@),
{
    if p.len() > cs.len() - i {
        return false;
    }
    let mut k: usize = 0;
    while k < p.len()
        invariant
            i + p@.len() <= cs@.len(),
            cs@.len() == cs.len(),
            k <= p@.len(),
            forall|j: int| 0 <= j < k ==> #[trigger] p@[j] == cs@[i + j],
        decreases p@.len() - k,
    {
        if cs[i + k] != p[k] {
            assert(cs@.subrange(i as int, i + p@.len())[k as int] != p@[k as int]);
            return false;
        }
        k = k + 1;
    }
    assert(cs@.subrange(i as int, i + p@.len()) =~= p@);
    true
}

/// Whether `p` occurs somewhere in `s`.
pub open spec fn occurs(s: Seq<char>, p: Seq<char>) -> bool {
    exists|i: int| stands_at(s, i, p)
}

/// Whether `p` occurs somewhere in `cs`.
pub fn contains_chars(cs: &[char], p: &[char]) -> (r: bool)
    ensures
        r == occurs(cs@, p@),
{
    let mut i: usize = 0;
    while i < cs.len()
        invariant
            i <= cs@.len(),
            forall|j: int| 0 <= j < i ==> !stands_at(cs@, j, p@),
        decreases cs@.len() - i,
    {
        if matches_at(cs, i, p) {
            return true;
        }
        i = i + 1;
    }
    let r = matches_at(cs, i, p);
    assert(r == occurs(cs@, p@)) by {
        if occurs(cs@, p@) {
            let w = choose|w: int| stands_at(cs@, w, p@);
            assert(stands_at(cs@, w, p@));
            assert(w == i);
        }
    }
    r
}

/// Whether the text `p` occurs in the text `s`.
pub fn contains_str(s: &str, p: &str) -> (r: bool)
    ensures
        r == occurs(s@, p@),
{
    let a = chars_of(s);
    let b = chars_of(p);
    contains_chars(a.as_slice(), b.as_slice())
}

/// Whether a text starts with `p`.
pub fn starts_with_str(s: &str, p: &str) -> (r: bool)
    ensures
        r == stands_at(s@, 0, p@),
{
    let a = chars_of(s);
    let b = chars_of(p);
    matches_at(a.as_slice(), 0, b.as_slice())
}

// ---------------------------------------------------------------------------
// Trimming
// ---------------------------------------------------------------------------
/// A text without its trailing white space.
pub open spec fn trim_end(s: Seq<char>) -> Seq<char>
    decreases s.len(),
{
    if s.len() > 0 && is_white(s.last()) {
        trim_end(s.drop_last())
    } else {
        s
    }
}

/// A text without its leading white space.
pub open spec fn trim_start(s: Seq<char>) -> Seq<char>
    decreases s.len(),
{
    if s.len() > 0 && is_white(s[0]) {
        trim_start(s.drop_first())
    } else {
        s
    }
}

/// A text without its leading and trailing white space.
pub open spec fn trim(s: Seq<char>) -> Seq<char> {
    trim_end(trim_start(s))
}

/// Index of the first character of the text that is not white space.
pub fn trim_start_index(cs: &[char]) -> (k: usize)
    ensures
        k <= cs@.len(),
        trim_start(cs@) == cs@.skip(k as int),
{
    let mut k: usize = 0;
    assert(cs@.skip(0) =~= cs@);
    while k < cs.len() && white(cs[k])
        invariant
            k <= cs@.len(),
            trim_start(cs@) == trim_start(cs@.skip(k as int)),
        decreases cs@.len() - k,
    {
        assert(cs@.skip(k as int).drop_first() =~= cs@.skip(k + 1));
        k = k + 1;
    }
    k
}

/// Index behind the last character of `cs[from..]` that is not white space.
pub fn trim_end_index(cs: &[char], from: usize) -> (k: usize)
    requires
        from <= cs@.len(),
    ensures
        from <= k <= cs@.len(),
        trim_end(cs@.skip(from as int)) == cs@.subrange(from as int, k as int),
{
    let mut k: usize = cs.len();
    assert(cs@.skip(from as int) =~= cs@.subrange(from as int, k as int));
    while k > from && white(cs[k - 1])
        invariant
            from <= k <= cs@.len(),
            trim_end(cs@.skip(from as int)) == trim_end(cs@.subrange(from as int, k as int)),
        decreases k,
    {
        assert(cs@.subrange(from as int, k as int).drop_last() =~= cs@.subrange(
            from as int,
            k - 1,
        ));
        k = k - 1;
    }
    k
}

/// A text without its leading and trailing white space.
pub fn trimmed(s: &str) -> (r: String)
    ensures
        r@ == trim(s@),
{
    let cs = chars_of(s);
    let a = trim_start_index(cs.as_slice());
    let b = trim_end_index(cs.as_slice(), a);
    string_of_range(cs.as_slice(), a, b)
}

/// A text without its leading white space.
pub fn trimmed_start(s: &str) -> (r: String)
    ensures
        r@ == trim_start(s@),
{
    let cs = chars_of(s);
    let a = trim_start_index(cs.as_slice());
    assert(cs@.skip(a as int) =~= cs@.subrange(a as int, cs@.len() as int));
    string_of_range(cs.as_slice(), a, cs.len())
}

/// Whether all characters of a text are white space.
pub open spec fn blank(s: Seq<char>) -> bool {
    forall|i: int| 0 <= i < s.len() ==> is_white(#[trigger] s[i])
}

pub proof fn lemma_trim_blank(s: Seq<char>)
    ensures
        (trim(s).len() == 0) == blank(s),
{
    lemma_trim_start_blank(s);
    lemma_trim_end_blank(trim_start(s));
}

proof fn lemma_trim_start_blank(s: Seq<char>)
    ensures
        blank(trim_start(s)) == blank(s),
        trim_start(s).len() > 0 ==> !blank(s),
    decreases s.len(),
{
    if s.len() > 0 && is_white(s[0]) {
        let t = s.drop_first();
        lemma_trim_start_blank(t);
        if blank(t) {
            assert forall|i: int| 0 <= i < s.len() implies is_white(#[trigger] s[i]) by {
                if i > 0 {
                    assert(t[i - 1] == s[i]);
                }
            }
        } else {
            let w = choose|w: int| 0 <= w < t.len() && !is_white(#[trigger] t[w]);
            assert(s[w + 1] == t[w]);
        }
    } else if s.len() > 0 {
        assert(!is_white(s[0]));
    }
}

proof fn lemma_trim_end_blank(s: Seq<char>)
    ensures
        (trim_end(s).len() == 0) == blank(s),
    decreases s.len(),
{
    if s.len() > 0 && is_white(s.last()) {
        let t = s.drop_last();
        lemma_trim_end_blank(t);
        if blank(t) {
            assert forall|i: int| 0 <= i < s.len() implies is_white(#[trigger] s[i]) by {
                if i < t.len() {
                    assert(t[i] == s[i]);
                }
            }
        } else {
            let w = choose|w: int| 0 <= w < t.len() && !is_white(#[trigger] t[w]);
            assert(s[w] == t[w]);
        }
    } else if s.len() > 0 {
        assert(!is_white(s[s.len() - 1]));
    }
}

/// Whether all characters of a text are white space.
pub fn is_blank(s: &str) -> (r: bool)
    ensures
        r == blank(s@),
{
    let cs = chars_of(s);
    let mut i: usize = 0;
    while i < cs.len()
        invariant
            cs@ == s@,
            i <= cs@.len(),
            forall|k: int| 0 <= k < i ==> is_white(#[trigger] cs@[k]),
        decreases cs@.len() - i,
    {
        if !white(cs[i]) {
            return false;
        }
        i = i + 1;
    }
    true
}

/// Whether some character of a text is white space.
pub open spec fn has_white(s: Seq<char>) -> bool {
    exists|i: int| 0 <= i < s.len() && is_white(#[trigger] s[i])
}

/// Whether some character of `cs[from..]` is white space.
pub fn has_white_from(cs: &[char], from: usize) -> (r: bool)
    requires
        from <= cs@.len(),
    ensures
        r == has_white(cs@.skip(from as int)),
{
    let ghost d = cs@.skip(from as int);
    let mut i: usize = from;
    while i < cs.len()
        invariant
            d == cs@.skip(from as int),
            from <= i <= cs@.len(),
            forall|k: int| 0 <= k < i - from ==> !is_white(#[trigger] d[k]),
        decreases cs@.len() - i,
    {
        if white(cs[i]) {
            assert(is_white(d[i - from]));
            return true;
        }
        assert(d[i - from] == cs@[i as int]);
        i = i + 1;
    }
    false
}

// ---------------------------------------------------------------------------
// Splitting
// ---------------------------------------------------------------------------
/// The pieces of a text between the occurrences of a separator.
pub open spec fn split(s: Seq<char>, sep: char) -> Seq<Seq<char>>
    decreases s.len(),
{
    let k = first_at(s, 0, sep);
    if k < 0 || k >= s.len() {
        seq![s]
    } else {
        seq![s.take(k)] + split(s.skip(k + 1), sep)
    }
}

/// The pieces of a text between the occurrences of a separator.
pub fn split_chars(cs: &[char], sep: char) -> (r: Vec<String>)
    ensures
        views(r@) == split(cs@, sep),
        r@.len() > 0,
{
    let mut out: Vec<String> = Vec::new();
    let mut from: usize = 0;
    assert(cs@.skip(0) =~= cs@);
    assert(views(out@) + split(cs@.skip(0), sep) =~= split(cs@, sep));
    loop
        invariant
            from <= cs@.len(),
            views(out@) + split(cs@.skip(from as int), sep) == split(cs@, sep),
        decreases cs@.len() - from,
    {
        let k = find_from(cs, from, sep);
        let ghost rest = cs@.skip(from as int);
        proof {
            lemma_first_at(cs@, from as int, sep);
            lemma_first_at(rest, 0, sep);
            if k < cs@.len() {
                assert(rest[k - from] == sep);
                assert forall|i: int| 0 <= i < k - from implies #[trigger] rest[i] != sep by {
                    assert(rest[i] == cs@[from + i]);
                }
                lemma_first_at_is(rest, 0, sep, k - from);
            } else if first_at(rest, 0, sep) < rest.len() {
                assert(cs@[from + first_at(rest, 0, sep)] == sep);
            }
        }
        let piece = string_of_range(cs, from, k);
        let ghost before = out@;
        out.push(piece);
        assert(views(out@) =~= views(before).push(piece@));
        if k == cs.len() {
            assert(piece@ =~= rest);
            assert(split(rest, sep) =~= seq![piece@]);
            assert(views(out@) =~= views(before) + split(rest, sep));
            return out;
        }
        proof {
            assert(piece@ =~= rest.take(k - from));
            assert(rest.skip(k - from + 1) =~= cs@.skip(k + 1));
            assert(views(before) + split(rest, sep) =~= views(out@) + split(
                cs@.skip(k + 1),
                sep,
            ));
        }
        from = k + 1;
    }
}

/// The lines of a text: the pieces between line feeds, without a last empty
/// one, and each without one trailing carriage return.
pub open spec fn lines(s: Seq<char>) -> Seq<Seq<char>> {
    let parts = split(s, '\n');
    let kept = if parts.last().len() == 0 {
        parts.drop_last()
    } else {
        parts
    };
    Seq::new(
        kept.len(),
        |i: int|
            if i + 1 < parts.len() {
                strip_cr(kept[i])
            } else {
                kept[i]
            },
    )
}

/// A text without one trailing carriage return.
pub open spec fn strip_cr(s: Seq<char>) -> Seq<char> {
    if s.len() > 0 && s.last() == '\r' {
        s.drop_last()
    } else {
        s
    }
}

/// A text without one trailing carriage return.
pub fn without_cr(s: &str) -> (r: String)
    ensures
        r@ == strip_cr(s@),
{
    let cs = chars_of(s);
    if cs.len() > 0 && cs[cs.len() - 1] == '\r' {
        assert(cs@.drop_last() =~= cs@.subrange(0, cs@.len() - 1));
        string_of_range(cs.as_slice(), 0, cs.len() - 1)
    } else {
        string_of(cs.as_slice())
    }
}

/// The lines of a text.
pub fn lines_of(s: &str) -> (r: Vec<String>)
    ensures
        views(r@) == lines(s@),
{
    let cs = chars_of(s);
    let parts = split_chars(cs.as_slice(), '\n');
    let total: usize = parts.len();
    let count: usize = if parts[total - 1].as_str().is_empty() {
        total - 1
    } else {
        total
    };
    assert(views(parts@).last() == parts@[total - 1]@);
    let mut out: Vec<String> = Vec::new();
    let mut i: usize = 0;
    while i < count
        invariant
            views(parts@) == split(s@, '\n'),
            total == parts@.len(),
            total > 0,
            count == (if split(s@, '\n').last().len() == 0 {
                total - 1
            } else {
                total as int
            }),
            i <= count <= total,
            out@.len() == i,
            forall|k: int| 0 <= k < i ==> #[trigger] out@[k]@ == lines(s@)[k],
        decreases count - i,
    {
        if i + 1 < total {
            out.push(without_cr(parts[i].as_str()));
        } else {
            out.push(parts[i].clone());
        }
        assert(views(parts@)[i as int] == parts@[i as int]@);
        i = i + 1;
    }
    assert(lines(s@).len() == count);
    assert(views(out@) =~= lines(s@));
    out
}

// ---------------------------------------------------------------------------
// Replacing
// ---------------------------------------------------------------------------
/// A text with the occurrences of `p`, taken from the left and without
/// overlap, replaced by `with`.
pub open spec fn replace(s: Seq<char>, p: Seq<char>, with: Seq<char>) -> Seq<char>
    decreases s.len(),
{
    if s.len() == 0 || p.len() == 0 {
        s
    } else if stands_at(s, 0, p) {
        with + replace(s.skip(p.len() as int), p, with)
    } else {
        seq![s[0]] + replace(s.drop_first(), p, with)
    }
}

/// A text with the occurrences of `p` replaced by `with`.
pub fn replace_str(s: &str, p: &str, with: &str) -> (r: String)
    ensures
        r@ == replace(s@, p@, with@),
{
    let cs = chars_of(s);
    let pat = chars_of(p);
    if pat.len() == 0 {
        return string_of(cs.as_slice());
    }
    let mut out = String::new();
    let mut i: usize = 0;
    assert(cs@.skip(0) =~= cs@);
    assert(out@ + replace(cs@.skip(0), p@, with@) =~= replace(cs@, p@, with@));
    while i < cs.len()
        invariant
            cs@ == s@,
            pat@ == p@,
            p@.len() > 0,
            i <= cs@.len(),
            out@ + replace(cs@.skip(i as int), p@, with@) == replace(cs@, p@, with@),
        decreases cs@.len() - i,
    {
        let ghost rest = cs@.skip(i as int);
        let ghost before = out@;
        if matches_at(cs.as_slice(), i, pat.as_slice()) {
            assert(rest.subrange(0, p@.len() as int) =~= cs@.subrange(i as int, i + p@.len()));
            out.append(with);
            assert(rest.skip(p@.len() as int) =~= cs@.skip(i + p@.len()));
            assert(before + replace(rest, p@, with@) =~= out@ + replace(
                cs@.skip(i + p@.len()),
                p@,
                with@,
            ));
            i = i + pat.len();
        } else {
            assert(!stands_at(rest, 0, p@)) by {
                if stands_at(rest, 0, p@) {
                    assert(rest.subrange(0, p@.len() as int) =~= cs@.subrange(
                        i as int,
                        i + p@.len(),
                    ));
                }
            }
            out.push(cs[i]);
            assert(rest.drop_first() =~= cs@.skip(i + 1));
            assert(before + replace(rest, p@, with@) =~= out@ + replace(
                cs@.skip(i + 1),
                p@,
                with@,
            ));
            i = i + 1;
        }
    }
    assert(cs@.skip(i as int) =~= Seq::<char>::empty());
    assert(out@ + Seq::<char>::empty() =~= out@);
    out
}

// ---------------------------------------------------------------------------
// Runs of one character
// ---------------------------------------------------------------------------
/// A text without its trailing occurrences of `c`.
pub open spec fn trim_end_char(s: Seq<char>, c: char) -> Seq<char>
    decreases s.len(),
{
    if s.len() > 0 && s.last() == c {
        trim_end_char(s.drop_last(), c)
    } else {
        s
    }
}

/// A text without its leading occurrences of `c`.
pub open spec fn trim_start_char(s: Seq<char>, c: char) -> Seq<char>
    decreases s.len(),
{
    if s.len() > 0 && s[0] == c {
        trim_start_char(s.drop_first(), c)
    } else {
        s
    }
}

/// Index behind the last character of `cs[from..to]` that is not `c`.
pub fn trim_end_char_index(cs: &[char], from: usize, to: usize, c: char) -> (k: usize)
    requires
        from <= to <= cs@.len(),
    ensures
        from <= k <= to,
        trim_end_char(cs@.subrange(from as int, to as int), c) == cs@.subrange(
            from as int,
            k as int,
        ),
{
    let mut k: usize = to;
    while k > from && cs[k - 1] == c
        invariant
            from <= k <= to <= cs@.len(),
            trim_end_char(cs@.subrange(from as int, to as int), c) == trim_end_char(
                cs@.subrange(from as int, k as int),
                c,
            ),
        decreases k,
    {
        assert(cs@.subrange(from as int, k as int).drop_last() =~= cs@.subrange(
            from as int,
            k - 1,
        ));
        k = k - 1;
    }
    k
}

/// Index of the first character of `cs[from..]` that is not `c`.
pub fn trim_start_char_index(cs: &[char], from: usize, c: char) -> (k: usize)
    requires
        from <= cs@.len(),
    ensures
        from <= k <= cs@.len(),
        trim_start_char(cs@.skip(from as int), c) == cs@.skip(k as int),
{
    let mut k: usize = from;
    while k < cs.len() && cs[k] == c
        invariant
            from <= k <= cs@.len(),
            trim_start_char(cs@.skip(from as int), c) == trim_start_char(cs@.skip(k as int), c),
        decreases cs@.len() - k,
    {
        assert(cs@.skip(k as int).drop_first() =~= cs@.skip(k + 1));
        k = k + 1;
    }
    k
}

/// `n` times the character `c`.
pub open spec fn repeated(c: char, n: nat) -> Seq<char> {
    Seq::new(n, |i: int| c)
}

/// Appends `n` times the character `c`.
pub fn push_repeated(out: &mut String, c: char, n: usize)
    ensures
        final(out)@ == old(out)@ + repeated(c, n as nat),
{
    let mut i: usize = 0;
    assert(old(out)@ + repeated(c, 0) =~= old(out)@);
    while i < n
        invariant
            i <= n,
            out@ == old(out)@ + repeated(c, i as nat),
        decreases n - i,
    {
        out.push(c);
        assert(out@ =~= old(out)@ + repeated(c, (i + 1) as nat));
        i = i + 1;
    }
}

/// Position of the last `c`, or -1.
pub open spec fn last_at(s: Seq<char>, c: char) -> int
    decreases s.len(),
{
    if s.len() == 0 {
        -1
    } else if s.last() == c {
        s.len() - 1
    } else {
        last_at(s.drop_last(), c)
    }
}

/// Position of the last `c` before `to`.
pub fn rfind_char(cs: &[char], to: usize, c: char) -> (r: Option<usize>)
    requires
        to <= cs@.len(),
    ensures
        match r {
            Some(k) => last_at(cs@.take(to as int), c) == k && k < to && cs@[k as int] == c,
            None => last_at(cs@.take(to as int), c) == -1,
        },
{
    let mut k: usize = to;
    while k > 0
        invariant
            k <= to <= cs@.len(),
            last_at(cs@.take(to as int), c) == last_at(cs@.take(k as int), c),
        decreases k,
    {
        assert(cs@.take(k as int).drop_last() =~= cs@.take(k - 1));
        assert(cs@.take(k as int).last() == cs@[k - 1]);
        if cs[k - 1] == c {
            return Some(k - 1);
        }
        k = k - 1;
    }
    assert(cs@.take(0).len() == 0);
    None
}

// ---------------------------------------------------------------------------
// Laws
// ---------------------------------------------------------------------------
proof fn lemma_join_front(first: Seq<char>, rest: Seq<Seq<char>>, sep: Seq<char>)
    requires
        rest.len() > 0,
    ensures
        join(seq![first] + rest, sep) == first + sep + join(rest, sep),
    decreases rest.len(),
{
    let all = seq![first] + rest;
    assert(all.last() == rest.last());
    assert(all.drop_last() =~= seq![first] + rest.drop_last());
    if rest.len() == 1 {
        assert(all.drop_last() =~= seq![first]);
        assert(join(all.drop_last(), sep) == first);
    } else {
        lemma_join_front(first, rest.drop_last(), sep);
        assert(join(all, sep) =~= first + sep + join(rest, sep));
    }
}

/// Splitting a text and joining the pieces gives the text back.
pub proof fn law_split_join(s: Seq<char>, sep: char)
    ensures
        split(s, sep).len() > 0,
        join(split(s, sep), seq![sep]) == s,
    decreases s.len(),
{
    lemma_first_at(s, 0, sep);
    let k = first_at(s, 0, sep);
    if k < s.len() {
        let rest = s.skip(k + 1);
        law_split_join(rest, sep);
        lemma_join_front(s.take(k), split(rest, sep), seq![sep]);
        assert(s.take(k) + seq![sep] + rest =~= s);
    }
}

/// A text in which the pattern does not stand is left as it is.
pub proof fn law_replace_leaves_other_text(s: Seq<char>, p: Seq<char>, with: Seq<char>)
    requires
        p.len() > 0,
        forall|i: int| 0 <= i <= s.len() - p.len() ==> #[trigger] s.subrange(i, i + p.len()) != p,
    ensures
        replace(s, p, with) == s,
    decreases s.len(),
{
    if s.len() > 0 {
        assert(!stands_at(s, 0, p)) by {
            if p.len() <= s.len() {
                assert(s.subrange(0, 0int + p.len()) != p);
            }
        }
        let rest = s.drop_first();
        assert forall|i: int| 0 <= i <= rest.len() - p.len() implies #[trigger] rest.subrange(
            i,
            i + p.len(),
        ) != p by {
            assert(rest.subrange(i, i + p.len()) =~= s.subrange(i + 1, i + 1 + p.len()));
        }
        law_replace_leaves_other_text(rest, p, with);
        assert(seq![s[0]] + rest =~= s);
    }
}

/// The first place of the pattern gets the new text, what stands before it
/// stays, and what stands behind it is treated in the same way.
pub proof fn law_replace_fills_the_first_place(
    before: Seq<char>,
    p: Seq<char>,
    after: Seq<char>,
    with: Seq<char>,
)
    requires
        p.len() > 0,
        forall|i: int|
            0 <= i < before.len() ==> #[trigger] (before + p + after).subrange(i, i + p.len()) != p,
    ensures
        replace(before + p + after, p, with) == before + with + replace(after, p, with),
    decreases before.len(),
{
    let s = before + p + after;
    if before.len() == 0 {
        assert(s.subrange(0, 0int + p.len()) =~= p);
        assert(s.skip(p.len() as int) =~= after);
        assert(before + with + replace(after, p, with) =~= with + replace(after, p, with));
    } else {
        assert(s.subrange(0, 0int + p.len()) != p);
        let rest = before.drop_first();
        let t = rest + p + after;
        assert(s.drop_first() =~= t);
        assert forall|i: int| 0 <= i < rest.len() implies #[trigger] t.subrange(i, i + p.len())
            != p by {
            assert(t.subrange(i, i + p.len()) =~= s.subrange(i + 1, i + 1 + p.len()));
        }
        law_replace_fills_the_first_place(rest, p, after, with);
        assert(seq![s[0]] + (rest + with + replace(after, p, with)) =~= before + with + replace(
            after,
            p,
            with,
        ));
    }
}

/// A trimmed text is the part of the text from its first to its last character
/// that is not white space.
pub proof fn law_trim_takes_white_space_off_the_ends(s: Seq<char>)
    ensures
        exists|a: int, b: int|
            0 <= a <= b <= s.len() && trim(s) == #[trigger] s.subrange(a, b) && (forall|i: int|
                0 <= i < a || b <= i < s.len() ==> is_white(#[trigger] s[i])),
        trim(s).len() > 0 ==> !is_white(trim(s)[0]) && !is_white(trim(s).last()),
{
    let a = lemma_trim_start_at(s);
    let t = trim_start(s);
    let n = lemma_trim_end_at(t);
    assert(t.take(n) =~= s.subrange(a, a + n));
    assert forall|i: int| 0 <= i < a || a + n <= i < s.len() implies is_white(#[trigger] s[i]) by {
        if i >= a {
            assert(s[i] == t[i - a]);
        }
    }
    assert(trim(s) == s.subrange(a, a + n));
    if trim(s).len() > 0 {
        assert(trim(s)[0] == t[0]);
    }
}

proof fn lemma_trim_start_at(s: Seq<char>) -> (a: int)
    ensures
        0 <= a <= s.len(),
        trim_start(s) == s.skip(a),
        forall|i: int| 0 <= i < a ==> is_white(#[trigger] s[i]),
        a < s.len() ==> !is_white(s[a]),
    decreases s.len(),
{
    if s.len() > 0 && is_white(s[0]) {
        let a = lemma_trim_start_at(s.drop_first());
        assert(s.drop_first().skip(a) =~= s.skip(a + 1));
        assert forall|i: int| 0 <= i < a + 1 implies is_white(#[trigger] s[i]) by {
            if i > 0 {
                assert(s[i] == s.drop_first()[i - 1]);
            }
        }
        a + 1
    } else {
        assert(s.skip(0) =~= s);
        0
    }
}

proof fn lemma_trim_end_at(s: Seq<char>) -> (n: int)
    ensures
        0 <= n <= s.len(),
        trim_end(s) == s.take(n),
        forall|i: int| n <= i < s.len() ==> is_white(#[trigger] s[i]),
        n > 0 ==> !is_white(s[n - 1]),
    decreases s.len(),
{
    if s.len() > 0 && is_white(s.last()) {
        let n = lemma_trim_end_at(s.drop_last());
        assert(s.drop_last().take(n) =~= s.take(n));
        assert forall|i: int| n <= i < s.len() implies is_white(#[trigger] s[i]) by {
            if i < s.len() - 1 {
                assert(s[i] == s.drop_last()[i]);
            }
        }
        n
    } else {
        assert(s.take(s.len() as int) =~= s);
        s.len() as int
    }
}

/// The last place of a character holds it, and no later place does.
pub proof fn law_last_place(s: Seq<char>, c: char)
    ensures
        -1 <= last_at(s, c) < s.len(),
        last_at(s, c) >= 0 ==> s[last_at(s, c)] == c,
        forall|i: int| last_at(s, c) < i < s.len() ==> #[trigger] s[i] != c,
    decreases s.len(),
{
    if s.len() > 0 && s.last() != c {
        law_last_place(s.drop_last(), c);
        assert forall|i: int| last_at(s, c) < i < s.len() implies #[trigger] s[i] != c by {
            if i < s.len() - 1 {
                assert(s[i] == s.drop_last()[i]);
            }
        }
    }
}

/// A text that is written line by line, each line closed by a line feed or by
/// a carriage return and a line feed, has these lines; so has the text without
/// the last line feed, where its last line is not empty.
pub proof fn law_lines_are_those_written(before: Seq<char>, line: Seq<char>)
    requires
        !line.contains('\n'),
        before.len() == 0 || before.last() == '\n',
    ensures
        lines(Seq::<char>::empty()) == Seq::<Seq<char>>::empty(),
        line.len() == 0 || line.last() != '\r' ==> lines(before + line + seq!['\n']) == lines(
            before,
        ).push(line),
        lines(before + line + seq!['\r', '\n']) == lines(before).push(line),
        line.len() > 0 ==> lines(before + line) == lines(before).push(line),
{
    let e = Seq::<char>::empty();
    assert(split(e, '\n') =~= seq![e]);
    assert(lines(e) =~= Seq::<Seq<char>>::empty());
    let p = split(before, '\n');
    lemma_split_closed(before);
    assert(p.last().len() == 0);
    let l1 = line + seq!['\n'];
    let l2 = line + seq!['\r', '\n'];
    lemma_split_tail(before, line);
    lemma_split_tail(before, l1);
    lemma_split_tail(before, l2);
    lemma_first_at(line, 0, '\n');
    assert(split(line, '\n') =~= seq![line]);
    lemma_split_line(line);
    let lr = line.push('\r');
    lemma_split_line(lr);
    assert(lr.push('\n') =~= l2);
    assert(line.push('\n') =~= l1);
    assert(before + line + seq!['\n'] =~= before + l1);
    assert(before + line + seq!['\r', '\n'] =~= before + l2);
    let base = p.drop_last();
    let kept = lines(before);
    assert(kept.len() == base.len());
    assert(split(before + l1, '\n') =~= base + seq![line, e]);
    assert(split(before + l2, '\n') =~= base + seq![lr, e]);
    assert(split(before + line, '\n') =~= base + seq![line]);
    if line.len() == 0 || line.last() != '\r' {
        let parts = split(before + l1, '\n');
        assert(parts.drop_last() =~= base + seq![line]);
        assert(lines(before + l1) =~= kept.push(line));
    }
    {
        let parts = split(before + l2, '\n');
        assert(parts.drop_last() =~= base + seq![lr]);
        assert(lr.drop_last() =~= line);
        assert(lines(before + l2) =~= kept.push(line));
    }
    if line.len() > 0 {
        assert(lines(before + line) =~= kept.push(line));
    }
}

proof fn lemma_split_line(line: Seq<char>)
    requires
        !line.contains('\n'),
    ensures
        split(line.push('\n'), '\n') == seq![line, Seq::<char>::empty()],
        split(line, '\n') == seq![line],
{
    let t = line.push('\n');
    assert forall|i: int| 0 <= i < line.len() implies #[trigger] t[i] != '\n' by {
        assert(t[i] == line[i]);
        assert(line.contains(line[i]));
    }
    lemma_first_at_is(t, 0, '\n', line.len() as int);
    assert(t.take(line.len() as int) =~= line);
    let e = Seq::<char>::empty();
    assert(t.skip(line.len() + 1int) =~= e);
    assert(split(e, '\n') =~= seq![e]);
    assert(seq![line] + seq![e] =~= seq![line, e]);
    lemma_first_at(line, 0, '\n');
    let k = first_at(line, 0, '\n');
    if k < line.len() {
        assert(line.contains(line[k]));
    }
}

proof fn lemma_split_closed(s: Seq<char>)
    requires
        s.len() == 0 || s.last() == '\n',
    ensures
        split(s, '\n').len() > 0,
        split(s, '\n').last().len() == 0,
    decreases s.len(),
{
    lemma_first_at(s, 0, '\n');
    let k = first_at(s, 0, '\n');
    if s.len() > 0 {
        assert(s[s.len() - 1] == '\n');
        assert(k < s.len());
        let rest = s.skip(k + 1);
        if rest.len() > 0 {
            assert(rest.last() == s.last());
        }
        lemma_split_closed(rest);
    }
}

proof fn lemma_split_tail(before: Seq<char>, tail: Seq<char>)
    requires
        before.len() == 0 || before.last() == '\n',
    ensures
        split(before + tail, '\n') == split(before, '\n').drop_last() + split(tail, '\n'),
    decreases before.len(),
{
    let s = before + tail;
    if before.len() == 0 {
        assert(s =~= tail);
        assert(split(before, '\n').drop_last() + split(tail, '\n') =~= split(tail, '\n'));
    } else {
        lemma_first_at(before, 0, '\n');
        let k = first_at(before, 0, '\n');
        assert(before[before.len() - 1] == '\n');
        assert(k < before.len());
        assert forall|i: int| 0 <= i < k implies #[trigger] s[i] != '\n' by {
            assert(s[i] == before[i]);
        }
        lemma_first_at_is(s, 0, '\n', k);
        let rest = before.skip(k + 1);
        if rest.len() > 0 {
            assert(rest.last() == before.last());
        }
        lemma_split_closed(rest);
        assert(s.take(k) =~= before.take(k));
        assert(s.skip(k + 1) =~= rest + tail);
        lemma_split_tail(rest, tail);
        let sr = split(rest, '\n');
        assert((seq![before.take(k)] + sr).drop_last() =~= seq![before.take(k)] + sr.drop_last());
        assert(seq![before.take(k)] + (sr.drop_last() + split(tail, '\n')) =~= seq![
            before.take(k),
        ] + sr.drop_last() + split(tail, '\n'));
    }
}

/// A text occurs in another where that text is something, the text, and
/// something; and it stands behind the first part.
pub proof fn law_parts_occur(a: Seq<char>, p: Seq<char>, b: Seq<char>)
    ensures
        stands_at(a + p + b, a.len() as int, p),
        occurs(a + p + b, p),
{
    let s = a + p + b;
    assert(s.subrange(a.len() as int, (a.len() + p.len()) as int) =~= p);
}

/// Where a text occurs in another, that one is something, the text, and
/// something.
pub proof fn law_occurring_texts_are_parts(s: Seq<char>, p: Seq<char>)
    requires
        occurs(s, p),
    ensures
        exists|a: Seq<char>, b: Seq<char>| s == #[trigger] (a + p + b),
{
    let i = choose|i: int| stands_at(s, i, p);
    let a = s.take(i);
    let b = s.skip(i + p.len());
    assert(s =~= a + p + b);
}

} // verus!
