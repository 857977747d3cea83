//! The current branch of a workspace, as its git files tell it.

use crate::scan::{
    law_trim_takes_white_space_off_the_ends, stands_at, starts_with_str, trim, trimmed,
};
use crate::text::{chars_of, digit, is_digit, is_white, opt_view, string_of_range};
use vstd::prelude::*;
use vstd::string::*;

verus! {

/// An ASCII hexadecimal digit.
pub open spec fn is_hex(c: char) -> bool {
    is_digit(c) || 'a' <= c <= 'f' || 'A' <= c <= 'F'
}

fn hex(c: char) -> (r: bool)
    ensures
        r == is_hex(c),
{
    digit(c) || ('a' <= c && c <= 'f') || ('A' <= c && c <= 'F')
}

/// Forty hexadecimal digits.
pub open spec fn is_commit_id(s: Seq<char>) -> bool {
    s.len() == 40 && forall|i: int| 0 <= i < s.len() ==> is_hex(#[trigger] s[i])
}

/// The branch that a `HEAD` file names: the branch of a symbolic reference, or
/// the first seven digits of a commit.
pub open spec fn branch_in(head: Seq<char>) -> Option<Seq<char>> {
    let h = trim(head);
    if stands_at(h, 0, "ref: refs/heads/"@) {
        let branch = trim(h.skip("ref: refs/heads/"@.len() as int));
        if branch.len() == 0 {
            None
        } else {
            Some(branch)
        }
    } else if is_commit_id(h) {
        Some(h.take(7))
    } else {
        None
    }
}

fn commit_id(cs: &[char]) -> (r: bool)
    ensures
        r == is_commit_id(cs@),
{
    if cs.len() != 40 {
        return false;
    }
    let mut i: usize = 0;
    while i < cs.len()
        invariant
            cs@.len() == 40,
            i <= cs@.len(),
            forall|k: int| 0 <= k < i ==> is_hex(#[trigger] cs@[k]),
        decreases cs@.len() - i,
    {
        if !hex(cs[i]) {
            return false;
        }
        i = i + 1;
    }
    true
}

/// The text behind a prefix.
fn behind(s: &str, prefix: &str) -> (r: Option<String>)
    ensures
        opt_view(r) == (if stands_at(s@, 0, prefix@) {
            Some(s@.skip(prefix@.len() as int))
        } else {
            None
        }),
{
    if !starts_with_str(s, prefix) {
        return None;
    }
    let cs = chars_of(s);
    let n = chars_of(prefix).len();
    assert(cs@.subrange(n as int, cs@.len() as int) =~= cs@.skip(n as int));
    Some(string_of_range(cs.as_slice(), n, cs.len()))
}

/// Reads the branch out of the text of a `HEAD` file.
pub fn parse_head(head: &str) -> (r: Option<String>)
    ensures
        opt_view(r) == branch_in(head@),
{
    let h = trimmed(head);
    match behind(h.as_str(), "ref: refs/heads/") {
        Some(rest) => {
            let branch = trimmed(rest.as_str());
            if branch.as_str().is_empty() {
                None
            } else {
                Some(branch)
            }
        },
        None => {
            let cs = chars_of(h.as_str());
            if commit_id(cs.as_slice()) {
                assert(cs@.subrange(0, 7) =~= cs@.take(7));
                Some(string_of_range(cs.as_slice(), 0, 7))
            } else {
                None
            }
        },
    }
}

/// The directory that a `.git` file of a worktree points to.
pub open spec fn pointer_in(pointer: Seq<char>) -> Option<Seq<char>> {
    let p = trim(pointer);
    if stands_at(p, 0, "gitdir:"@) {
        Some(trim(p.skip("gitdir:"@.len() as int)))
    } else {
        None
    }
}

/// Reads the directory out of the text of a `.git` file.
pub fn parse_pointer(pointer: &str) -> (r: Option<String>)
    ensures
        opt_view(r) == pointer_in(pointer@),
{
    let p = trimmed(pointer);
    match behind(p.as_str(), "gitdir:") {
        Some(rest) => Some(trimmed(rest.as_str())),
        None => None,
    }
}

/// A commit is shown by seven digits.
pub proof fn law_detached_head_is_short(head: Seq<char>)
    requires
        is_commit_id(trim(head)),
    ensures
        branch_in(head) == Some(trim(head).take(7)),
{
    reveal_strlit("ref: refs/heads/");
    let h = trim(head);
    if stands_at(h, 0, "ref: refs/heads/"@) {
        assert(h.subrange(0, 16)[0] == 'r');
        assert(is_hex(h[0]));
    }
}

/// A `HEAD` file that refers to a branch names that branch, with or without a line
/// feed at the end; a `.git` file names the directory behind its key.
pub proof fn law_branches_and_directories_are_read(
    name: Seq<char>,
    lead: Seq<char>,
    tail: Seq<char>,
)
    requires
        name.len() > 0,
        !is_white(name[0]),
        !is_white(name.last()),
        forall|i: int| 0 <= i < tail.len() ==> is_white(#[trigger] tail[i]),
        forall|i: int| 0 <= i < lead.len() ==> is_white(#[trigger] lead[i]),
    ensures
        branch_in("ref: refs/heads/"@ + name + tail) == Some(name),
        pointer_in("gitdir:"@ + lead + name + tail) == Some(name),
{
    let e = Seq::<char>::empty();
    let p = "ref: refs/heads/"@;
    let q = "gitdir:"@;
    reveal_strlit("ref: refs/heads/");
    reveal_strlit("gitdir:");
    assert(p.len() == 16 && p[0] == 'r' && q.len() == 7 && q[0] == 'g');
    let a = p + name;
    assert(e + a + tail =~= p + name + tail);
    lemma_trimmed(e, a, tail);
    assert(a.subrange(0, 0 + 16int) =~= p);
    assert(a.skip(16) =~= name);
    assert(e + name + e =~= name);
    lemma_trimmed(e, name, e);
    let b = q + lead + name;
    assert(e + b + tail =~= q + lead + name + tail);
    lemma_trimmed(e, b, tail);
    assert(b.subrange(0, 0 + 7int) =~= q);
    assert(b.skip(7) =~= lead + name + e);
    lemma_trimmed(lead, name, e);
}

proof fn lemma_trimmed(lead: Seq<char>, core: Seq<char>, tail: Seq<char>)
    requires
        core.len() > 0,
        !is_white(core[0]),
        !is_white(core.last()),
        forall|i: int| 0 <= i < tail.len() ==> is_white(#[trigger] tail[i]),
        forall|i: int| 0 <= i < lead.len() ==> is_white(#[trigger] lead[i]),
    ensures
        trim(lead + core + tail) == core,
{
    let s = lead + core + tail;
    law_trim_takes_white_space_off_the_ends(s);
    let (a, b) = choose|a: int, b: int|
        0 <= a <= b <= s.len() && trim(s) == #[trigger] s.subrange(a, b) && (forall|i: int|
            0 <= i < a || b <= i < s.len() ==> is_white(#[trigger] s[i]));
    let n = lead.len() as int;
    let m = n + core.len();
    assert(s[n] == core[0] && s[m - 1] == core.last());
    assert(a <= n && m <= b);
    let t = trim(s);
    assert(t.len() == b - a && t[0] == s[a] && t.last() == s[b - 1]);
    if a < n {
        assert(s[a] == lead[a]);
    }
    if b > m {
        assert(s[b - 1] == tail[b - 1 - m]);
    }
    assert(s.subrange(n, m) =~= core);
}

} // verus!
