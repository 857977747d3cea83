//! Ranking of completion candidates.

use crate::order::{
    in_order, is_order, law_ordered, lemma_placed_is_insert, ordered, placed,
};
use crate::scan::{
    contains_chars, last_at, law_last_place, matches_at, occurs, rfind_char, stands_at,
};
use crate::text::{byte_len, chars_of, len_bytes, lower, lowercase, owned, string_of_range};
use vstd::prelude::*;
use vstd::string::*;

verus! {

/// A file or directory that a reference can complete to.
#[derive(Debug, Clone, PartialEq, Eq)]
pub struct FileCandidate {
    /// Path below the workspace root.
    pub path: String,
    pub is_dir: bool,
}

/// The mathematical value of a file candidate.
#[verifier::ext_equal]
pub struct FileValue {
    pub path: Seq<char>,
    pub is_dir: bool,
}

impl View for FileCandidate {
    type V = FileValue;

    open spec fn view(&self) -> FileValue {
        FileValue { path: self.path@, is_dir: self.is_dir }
    }
}

pub open spec fn file_values(v: Seq<FileCandidate>) -> Seq<FileValue> {
    v.map_values(|c: FileCandidate| c@)
}

/// The most candidates that a ranking returns.
pub const MAX_RESULTS: usize = 20;

/// The last segment of a path.
pub open spec fn basename_of(path: Seq<char>) -> Seq<char> {
    path.skip(last_at(path, '/') + 1)
}

/// The last segment of a path.
pub fn basename(path: &str) -> (r: String)
    ensures
        r@ == basename_of(path@),
{
    let cs = chars_of(path);
    assert(cs@.take(cs@.len() as int) =~= cs@);
    match rfind_char(cs.as_slice(), cs.len(), '/') {
        Some(k) => {
            assert(cs@.skip(k + 1) =~= cs@.subrange(k + 1, cs@.len() as int));
            string_of_range(cs.as_slice(), k + 1, cs.len())
        },
        None => {
            assert(cs@.skip(0) =~= cs@);
            owned(path)
        },
    }
}

/// Whether all characters of `needle` occur in `hay` in order.
pub open spec fn subsequence(needle: Seq<char>, hay: Seq<char>) -> bool
    decreases hay.len(),
{
    if needle.len() == 0 {
        true
    } else if hay.len() == 0 {
        false
    } else if needle[0] == hay[0] {
        subsequence(needle.drop_first(), hay.drop_first())
    } else {
        subsequence(needle, hay.drop_first())
    }
}

/// Whether all characters of `needle` occur in `hay` in order.
pub fn is_subsequence(needle: &str, hay: &str) -> (r: bool)
    ensures
        r == subsequence(needle@, hay@),
{
    let n = chars_of(needle);
    let h = chars_of(hay);
    let mut i: usize = 0;
    let mut k: usize = 0;
    assert(n@.skip(0) =~= n@ && h@.skip(0) =~= h@);
    while i < n.len() && k < h.len()
        invariant
            n@ == needle@,
            h@ == hay@,
            i <= n@.len(),
            k <= h@.len(),
            subsequence(needle@, hay@) == subsequence(n@.skip(i as int), h@.skip(k as int)),
        decreases h@.len() - k,
    {
        assert(h@.skip(k as int).drop_first() =~= h@.skip(k + 1));
        assert(n@.skip(i as int).drop_first() =~= n@.skip(i + 1));
        if n[i] == h[k] {
            i = i + 1;
        }
        k = k + 1;
    }
    i == n.len()
}

/// How well a candidate matches a query, all in lower case: the whole last
/// segment, its start, a part of it, a part of the path, or scattered over
/// the path; -1 where it does not match.
pub open spec fn match_score(q: Seq<char>, base: Seq<char>, path: Seq<char>) -> int {
    if q.len() == 0 {
        0
    } else if base == q {
        1000
    } else if stands_at(base, 0, q) {
        900
    } else if occurs(base, q) {
        700
    } else if occurs(path, q) {
        500
    } else if subsequence(q, path) {
        300
    } else {
        -1
    }
}

/// A matching candidate: its score, the bytes of its path, its position.
pub type Entry = (int, nat, int);

/// Whether one candidate stands before another: by score, then by the shorter
/// path, then by position.
pub open spec fn entry_before() -> spec_fn(Entry, Entry) -> bool {
    |a: Entry, b: Entry|
        a.0 > b.0 || (a.0 == b.0 && (a.1 < b.1 || (a.1 == b.1 && a.2 <= b.2)))
}

/// The matching ones among the first `n` candidates. Directories get a bonus.
pub open spec fn entries(
    q: Seq<char>,
    bases: Seq<Seq<char>>,
    paths: Seq<Seq<char>>,
    cands: Seq<FileValue>,
    n: int,
) -> Seq<Entry>
    decreases n,
{
    if n <= 0 {
        Seq::empty()
    } else {
        let init = entries(q, bases, paths, cands, n - 1);
        let score = match_score(q, bases[n - 1], paths[n - 1]);
        if score < 0 {
            init
        } else {
            init.push(
                (
                    score + (if cands[n - 1].is_dir {
                        25int
                    } else {
                        0
                    }),
                    byte_len(cands[n - 1].path),
                    n - 1,
                ),
            )
        }
    }
}

/// The first entries, as candidates.
pub open spec fn top_files(list: Seq<Entry>, cands: Seq<FileValue>) -> Seq<FileValue> {
    Seq::new(
        if list.len() < MAX_RESULTS {
            list.len()
        } else {
            MAX_RESULTS as nat
        },
        |i: int| cands[list[i].2],
    )
}

/// Whether one candidate stands before another where nothing is searched for:
/// directories before files, each by the text of the path.
pub open spec fn listed_before() -> spec_fn(FileValue, FileValue) -> bool {
    |a: FileValue, b: FileValue|
        (a.is_dir && !b.is_dir) || (a.is_dir == b.is_dir && text_le(a.path, b.path))
}

/// The first candidates of a list.
pub open spec fn first_files(list: Seq<FileValue>) -> Seq<FileValue> {
    if list.len() < MAX_RESULTS {
        list
    } else {
        list.take(MAX_RESULTS as int)
    }
}

/// The ranking of candidates whose lower-case last segments and paths are
/// given. An empty query lists them all: directories first, then by path.
pub open spec fn ranked_files(
    q: Seq<char>,
    bases: Seq<Seq<char>>,
    paths: Seq<Seq<char>>,
    cands: Seq<FileValue>,
) -> Seq<FileValue> {
    if q.len() == 0 {
        first_files(ordered(cands, listed_before()))
    } else {
        top_files(
            ordered(entries(q, bases, paths, cands, cands.len() as int), entry_before()),
            cands,
        )
    }
}

fn score_of(q: &str, base: &str, path: &str) -> (r: i64)
    ensures
        r == match_score(q@, base@, path@),
{
    let qc = chars_of(q);
    let bc = chars_of(base);
    let pc = chars_of(path);
    if qc.len() == 0 {
        return 0;
    }
    let starts = matches_at(bc.as_slice(), 0, qc.as_slice());
    if starts && bc.len() == qc.len() {
        assert(bc@.subrange(0, qc@.len() as int) =~= bc@);
        return 1000;
    }
    assert(base@ != q@) by {
        if base@ == q@ {
            assert(bc@.subrange(0, qc@.len() as int) =~= bc@);
        }
    }
    if starts {
        900
    } else if contains_chars(bc.as_slice(), qc.as_slice()) {
        700
    } else if contains_chars(pc.as_slice(), qc.as_slice()) {
        500
    } else if is_subsequence(q, path) {
        300
    } else {
        -1
    }
}

spec fn entry_values(v: Seq<(i64, usize, usize)>) -> Seq<Entry> {
    v.map_values(|e: (i64, usize, usize)| (e.0 as int, e.1 as nat, e.2 as int))
}

fn may_stand_before(a: (i64, usize, usize), b: (i64, usize, usize)) -> (r: bool)
    ensures
        r == entry_before()(
            (a.0 as int, a.1 as nat, a.2 as int),
            (b.0 as int, b.1 as nat, b.2 as int),
        ),
{
    a.0 > b.0 || (a.0 == b.0 && (a.1 < b.1 || (a.1 == b.1 && a.2 <= b.2)))
}

fn place_entry(list: &mut Vec<(i64, usize, usize)>, e: (i64, usize, usize))
    ensures
        entry_values(final(list)@) == placed(
            entry_values(old(list)@),
            (e.0 as int, e.1 as nat, e.2 as int),
            entry_before(),
        ),
        final(list)@.to_multiset() == old(list)@.to_multiset().insert(e),
{
    let ghost before = list@;
    let ghost x = (e.0 as int, e.1 as nat, e.2 as int);
    let mut k: usize = list.len();
    while k > 0 && !may_stand_before(list[k - 1], e)
        invariant
            list@ == before,
            x == (e.0 as int, e.1 as nat, e.2 as int),
            k <= list@.len(),
            forall|j: int|
                k <= j < list@.len() ==> !entry_before()(#[trigger] entry_values(before)[j], x),
        decreases k,
    {
        assert(entry_values(before)[k - 1] == (
            list@[k - 1].0 as int,
            list@[k - 1].1 as nat,
            list@[k - 1].2 as int,
        ));
        k = k - 1;
    }
    list.insert(k, e);
    proof {
        lemma_placed_is_insert(entry_values(before), x, entry_before(), k as int);
        assert(entry_values(list@) =~= entry_values(before).insert(k as int, x));
        vstd::seq_lib::to_multiset_insert(before, k as int, e);
    }
}

fn may_be_listed_before(a: &FileCandidate, b: &FileCandidate) -> (r: bool)
    ensures
        r == listed_before()(a@, b@),
{
    (a.is_dir && !b.is_dir) || (a.is_dir == b.is_dir && text_at_most(
        a.path.as_str(),
        b.path.as_str(),
    ))
}

/// Lists candidates without a query.
fn list_files(candidates: &[FileCandidate]) -> (r: Vec<FileCandidate>)
    ensures
        file_values(r@) == first_files(ordered(file_values(candidates@), listed_before())),
        r@.len() <= MAX_RESULTS,
{
    let ghost c = file_values(candidates@);
    let mut list: Vec<FileCandidate> = Vec::new();
    let mut i: usize = 0;
    assert(c.take(0) =~= Seq::<FileValue>::empty());
    assert(file_values(list@) =~= Seq::<FileValue>::empty());
    while i < candidates.len()
        invariant
            i <= candidates@.len(),
            c == file_values(candidates@),
            file_values(list@) == ordered(c.take(i as int), listed_before()),
        decreases candidates@.len() - i,
    {
        let from = &candidates[i];
        let ghost before = file_values(list@);
        let mut k: usize = list.len();
        while k > 0 && !may_be_listed_before(&list[k - 1], from)
            invariant
                k <= list@.len(),
                before == file_values(list@),
                forall|j: int|
                    k <= j < list@.len() ==> !listed_before()(#[trigger] before[j], from@),
            decreases k,
        {
            assert(before[k - 1] == list@[k - 1]@);
            k = k - 1;
        }
        let copy = FileCandidate { path: from.path.clone(), is_dir: from.is_dir };
        list.insert(k, copy);
        proof {
            if k > 0 {
                assert(before[k - 1] == list@[k - 1]@);
            }
            lemma_placed_is_insert(before, from@, listed_before(), k as int);
            assert(file_values(list@) =~= before.insert(k as int, from@));
            assert(c.take(i + 1).drop_last() =~= c.take(i as int));
            assert(c.take(i + 1).last() == from@);
        }
        i = i + 1;
    }
    assert(c.take(i as int) =~= c);
    let ghost all = file_values(list@);
    if list.len() > MAX_RESULTS {
        list.truncate(MAX_RESULTS);
    }
    assert(file_values(list@) =~= first_files(all));
    list
}

/// Ranks candidates whose lower-case last segments and paths are given, at
/// the same positions.
pub fn rank_lowered_files(
    query: &str,
    bases: &Vec<String>,
    paths: &Vec<String>,
    candidates: &[FileCandidate],
) -> (r: Vec<FileCandidate>)
    requires
        bases@.len() == candidates@.len(),
        paths@.len() == candidates@.len(),
    ensures
        file_values(r@) == ranked_files(
            query@,
            bases@.map_values(|s: String| s@),
            paths@.map_values(|s: String| s@),
            file_values(candidates@),
        ),
        r@.len() <= MAX_RESULTS,
{
    if query.unicode_len() == 0 {
        return list_files(candidates);
    }
    let ghost b = bases@.map_values(|s: String| s@);
    let ghost p = paths@.map_values(|s: String| s@);
    let ghost c = file_values(candidates@);
    let mut list: Vec<(i64, usize, usize)> = Vec::new();
    let mut i: usize = 0;
    assert(entry_values(list@) =~= Seq::<Entry>::empty());
    while i < candidates.len()
        invariant
            i <= candidates@.len(),
            bases@.len() == candidates@.len(),
            paths@.len() == candidates@.len(),
            b == bases@.map_values(|s: String| s@),
            p == paths@.map_values(|s: String| s@),
            c == file_values(candidates@),
            entry_values(list@) == ordered(entries(query@, b, p, c, i as int), entry_before()),
            forall|k: int| 0 <= k < list@.len() ==> (#[trigger] list@[k]).2 < candidates@.len(),
        decreases candidates@.len() - i,
    {
        let score = score_of(query, bases[i].as_str(), paths[i].as_str());
        assert(b[i as int] == bases@[i as int]@ && p[i as int] == paths@[i as int]@);
        assert(c[i as int] == candidates@[i as int]@);
        if score >= 0 {
            let bonus: i64 = if candidates[i].is_dir {
                25
            } else {
                0
            };
            let e = (score + bonus, len_bytes(candidates[i].path.as_str()), i);
            let ghost before = list@;
            place_entry(&mut list, e);
            proof {
                let all = entries(query@, b, p, c, i + 1);
                assert(all.drop_last() =~= entries(query@, b, p, c, i as int));
                assert(all.last() == (e.0 as int, e.1 as nat, e.2 as int));
                lemma_bounded(before, list@, e, candidates@.len() as int);
            }
        }
        i = i + 1;
    }
    let ghost sorted = entry_values(list@);
    let mut out: Vec<FileCandidate> = Vec::new();
    let mut k: usize = 0;
    while k < list.len() && k < MAX_RESULTS
        invariant
            k <= list@.len(),
            k <= MAX_RESULTS,
            c == file_values(candidates@),
            sorted == entry_values(list@),
            forall|j: int| 0 <= j < list@.len() ==> (#[trigger] list@[j]).2 < candidates@.len(),
            out@.len() == k,
            forall|j: int| 0 <= j < k ==> (#[trigger] out@[j])@ == c[sorted[j].2],
        decreases list@.len() - k,
    {
        let ix = list[k].2;
        assert(sorted[k as int].2 == ix);
        let from = &candidates[ix];
        out.push(FileCandidate { path: from.path.clone(), is_dir: from.is_dir });
        k = k + 1;
    }
    assert(file_values(out@) =~= top_files(sorted, c));
    out
}

proof fn lemma_bounded(
    before: Seq<(i64, usize, usize)>,
    after: Seq<(i64, usize, usize)>,
    e: (i64, usize, usize),
    n: int,
)
    requires
        after.to_multiset() == before.to_multiset().insert(e),
        e.2 < n,
        forall|k: int| 0 <= k < before.len() ==> (#[trigger] before[k]).2 < n,
    ensures
        forall|k: int| 0 <= k < after.len() ==> (#[trigger] after[k]).2 < n,
{
    broadcast use vstd::seq_lib::group_to_multiset_ensures;

    assert forall|k: int| 0 <= k < after.len() implies (#[trigger] after[k]).2 < n by {
        assert(after.contains(after[k]));
        assert(after.to_multiset().count(after[k]) > 0);
        if after[k] != e {
            assert(before.to_multiset().count(after[k]) > 0);
            assert(before.contains(after[k]));
        }
    }
}

/// The lower-case forms of texts.
pub open spec fn lowercase_all(v: Seq<Seq<char>>) -> Seq<Seq<char>> {
    v.map_values(|s: Seq<char>| lowercase(s))
}

/// Ranks files for a query, without regard to case: best matches first, at
/// most [`MAX_RESULTS`] of them. An empty query lists directories first, then
/// by path.
pub fn rank_file_candidates(query: &str, candidates: &[FileCandidate]) -> (r: Vec<FileCandidate>)
    ensures
        file_values(r@) == ranked_files(
            lowercase(query@),
            lowercase_all(file_values(candidates@).map_values(|c: FileValue| basename_of(c.path))),
            lowercase_all(file_values(candidates@).map_values(|c: FileValue| c.path)),
            file_values(candidates@),
        ),
        r@.len() <= MAX_RESULTS,
{
    let q = lower(query);
    let mut bases: Vec<String> = Vec::new();
    let mut paths: Vec<String> = Vec::new();
    let mut i: usize = 0;
    while i < candidates.len()
        invariant
            i <= candidates@.len(),
            bases@.len() == i,
            paths@.len() == i,
            forall|k: int|
                0 <= k < i ==> (#[trigger] bases@[k])@ == lowercase(
                    basename_of(candidates@[k].path@),
                ),
            forall|k: int| 0 <= k < i
                ==> (#[trigger] paths@[k])@ == lowercase(candidates@[k].path@),
        decreases candidates@.len() - i,
    {
        let base = basename(candidates[i].path.as_str());
        bases.push(lower(base.as_str()));
        paths.push(lower(candidates[i].path.as_str()));
        i = i + 1;
    }
    let ghost c = file_values(candidates@);
    assert(bases@.map_values(|s: String| s@) =~= lowercase_all(
        c.map_values(|c: FileValue| basename_of(c.path)),
    ));
    assert(paths@.map_values(|s: String| s@) =~= lowercase_all(c.map_values(|c: FileValue| c.path)));
    rank_lowered_files(q.as_str(), &bases, &paths, candidates)
}

/// The ranking lists candidates in falling order of score, with shorter paths
/// first among equals, and loses none of the matching ones before the cut.
/// Without a query it lists directories before files, each by path, and loses
/// none before the cut either.
pub proof fn law_files_rank_in_order(
    q: Seq<char>,
    bases: Seq<Seq<char>>,
    paths: Seq<Seq<char>>,
    cands: Seq<FileValue>,
)
    ensures
        ({
            let all = entries(q, bases, paths, cands, cands.len() as int);
            let list = ordered(all, entry_before());
            &&& in_order(list, entry_before())
            &&& list.to_multiset() == all.to_multiset()
            &&& ranked_files(q, bases, paths, cands).len() <= MAX_RESULTS
        }),
        in_order(ordered(cands, listed_before()), listed_before()),
        ordered(cands, listed_before()).to_multiset() == cands.to_multiset(),
{
    assert(is_order(listed_before())) by {
        assert forall|a: FileValue, b: FileValue| #[trigger] listed_before()(a, b)
            || listed_before()(b, a) by {
            lemma_text_le_total(a.path, b.path);
        }
        assert forall|a: FileValue, b: FileValue, c: FileValue|
            #![trigger listed_before()(a, b), listed_before()(b, c)]
            listed_before()(a, b) && listed_before()(b, c) implies listed_before()(a, c) by {
            if a.is_dir == b.is_dir && b.is_dir == c.is_dir {
                lemma_text_le_transitive(a.path, b.path, c.path);
            }
        }
    }
    law_ordered(cands, listed_before());
    assert(is_order(entry_before()));
    law_ordered(entries(q, bases, paths, cands, cands.len() as int), entry_before());
}

// ---------------------------------------------------------------------------
// Sessions
// ---------------------------------------------------------------------------
/// A session that a reference can complete to.
#[derive(Debug, Clone, PartialEq, Eq)]
pub struct SessionCandidate {
    pub session_id: String,
    /// Title, or the id where there is none.
    pub label: String,
    /// Whether it runs in the current directory.
    pub same_cwd: bool,
}

/// The mathematical value of a session candidate.
#[verifier::ext_equal]
pub struct SessionValue {
    pub session_id: Seq<char>,
    pub label: Seq<char>,
    pub same_cwd: bool,
}

impl View for SessionCandidate {
    type V = SessionValue;

    open spec fn view(&self) -> SessionValue {
        SessionValue {
            session_id: self.session_id@,
            label: self.label@,
            same_cwd: self.same_cwd,
        }
    }
}

pub open spec fn session_values(v: Seq<SessionCandidate>) -> Seq<SessionValue> {
    v.map_values(|c: SessionCandidate| c@)
}

/// The order of texts by code points.
pub open spec fn text_le(a: Seq<char>, b: Seq<char>) -> bool
    decreases a.len(),
{
    if a.len() == 0 {
        true
    } else if b.len() == 0 {
        false
    } else if a[0] != b[0] {
        a[0] < b[0]
    } else {
        text_le(a.drop_first(), b.drop_first())
    }
}

/// Compares texts by code points.
pub fn text_at_most(a: &str, b: &str) -> (r: bool)
    ensures
        r == text_le(a@, b@),
{
    let x = chars_of(a);
    let y = chars_of(b);
    let mut i: usize = 0;
    assert(x@.skip(0) =~= x@ && y@.skip(0) =~= y@);
    while i < x.len() && i < y.len() && x[i] == y[i]
        invariant
            x@ == a@,
            y@ == b@,
            i <= x@.len(),
            i <= y@.len(),
            text_le(a@, b@) == text_le(x@.skip(i as int), y@.skip(i as int)),
        decreases x@.len() - i,
    {
        assert(x@.skip(i as int).drop_first() =~= x@.skip(i + 1));
        assert(y@.skip(i as int).drop_first() =~= y@.skip(i + 1));
        i = i + 1;
    }
    if i == x.len() {
        true
    } else if i == y.len() {
        false
    } else {
        assert(x@.skip(i as int)[0] == x@[i as int]);
        assert(y@.skip(i as int)[0] == y@[i as int]);
        x[i] < y[i]
    }
}

proof fn lemma_text_le_total(a: Seq<char>, b: Seq<char>)
    ensures
        text_le(a, b) || text_le(b, a),
    decreases a.len(),
{
    if a.len() > 0 && b.len() > 0 && a[0] == b[0] {
        lemma_text_le_total(a.drop_first(), b.drop_first());
    }
}

proof fn lemma_text_le_transitive(a: Seq<char>, b: Seq<char>, c: Seq<char>)
    requires
        text_le(a, b),
        text_le(b, c),
    ensures
        text_le(a, c),
    decreases a.len(),
{
    if a.len() > 0 && b.len() > 0 && c.len() > 0 && a[0] == b[0] && b[0] == c[0] {
        lemma_text_le_transitive(a.drop_first(), b.drop_first(), c.drop_first());
    }
}

/// Whether one session stands before another: those of the current directory
/// first, then by id.
pub open spec fn session_before() -> spec_fn(SessionValue, SessionValue) -> bool {
    |a: SessionValue, b: SessionValue|
        (a.same_cwd && !b.same_cwd) || (a.same_cwd == b.same_cwd && text_le(
            a.session_id,
            b.session_id,
        ))
}

/// Whether a session matches a query, all in lower case.
pub open spec fn session_matches(q: Seq<char>, id: Seq<char>, label: Seq<char>) -> bool {
    q.len() == 0 || occurs(id, q) || occurs(label, q)
}

/// The matching ones among the first `n` sessions, whose lower-case ids and
/// labels are given.
pub open spec fn matching_sessions(
    q: Seq<char>,
    ids: Seq<Seq<char>>,
    labels: Seq<Seq<char>>,
    cands: Seq<SessionValue>,
    n: int,
) -> Seq<SessionValue>
    decreases n,
{
    if n <= 0 {
        Seq::empty()
    } else {
        let init = matching_sessions(q, ids, labels, cands, n - 1);
        if session_matches(q, ids[n - 1], labels[n - 1]) {
            init.push(cands[n - 1])
        } else {
            init
        }
    }
}

/// The first items of a list, at most as many as a ranking returns.
pub open spec fn top<T>(list: Seq<T>) -> Seq<T> {
    if list.len() <= MAX_RESULTS {
        list
    } else {
        list.take(MAX_RESULTS as int)
    }
}

/// The ranking of sessions whose lower-case ids and labels are given.
pub open spec fn ranked_sessions(
    q: Seq<char>,
    ids: Seq<Seq<char>>,
    labels: Seq<Seq<char>>,
    cands: Seq<SessionValue>,
) -> Seq<SessionValue> {
    top(ordered(matching_sessions(q, ids, labels, cands, cands.len() as int), session_before()))
}

fn session_may_stand_before(a: &SessionCandidate, b: &SessionCandidate) -> (r: bool)
    ensures
        r == session_before()(a@, b@),
{
    (a.same_cwd && !b.same_cwd) || (a.same_cwd == b.same_cwd && text_at_most(
        a.session_id.as_str(),
        b.session_id.as_str(),
    ))
}

fn place_session(list: &mut Vec<SessionCandidate>, c: SessionCandidate)
    ensures
        session_values(final(list)@) == placed(
            session_values(old(list)@),
            c@,
            session_before(),
        ),
{
    let ghost before = list@;
    let mut k: usize = list.len();
    while k > 0 && !session_may_stand_before(&list[k - 1], &c)
        invariant
            list@ == before,
            k <= list@.len(),
            forall|j: int|
                k <= j < list@.len() ==> !session_before()(
                    #[trigger] session_values(before)[j],
                    c@,
                ),
        decreases k,
    {
        assert(session_values(before)[k - 1] == list@[k - 1]@);
        k = k - 1;
    }
    list.insert(k, c);
    proof {
        lemma_placed_is_insert(session_values(before), c@, session_before(), k as int);
        assert(session_values(list@) =~= session_values(before).insert(k as int, c@));
    }
}

/// Ranks sessions whose lower-case ids and labels are given, at the same
/// positions.
pub fn rank_lowered_sessions(
    query: &str,
    ids: &Vec<String>,
    labels: &Vec<String>,
    candidates: &[SessionCandidate],
) -> (r: Vec<SessionCandidate>)
    requires
        ids@.len() == candidates@.len(),
        labels@.len() == candidates@.len(),
    ensures
        session_values(r@) == ranked_sessions(
            query@,
            ids@.map_values(|s: String| s@),
            labels@.map_values(|s: String| s@),
            session_values(candidates@),
        ),
{
    let ghost b = ids@.map_values(|s: String| s@);
    let ghost p = labels@.map_values(|s: String| s@);
    let ghost c = session_values(candidates@);
    let q = chars_of(query);
    let mut list: Vec<SessionCandidate> = Vec::new();
    let mut i: usize = 0;
    assert(session_values(list@) =~= Seq::<SessionValue>::empty());
    while i < candidates.len()
        invariant
            i <= candidates@.len(),
            ids@.len() == candidates@.len(),
            labels@.len() == candidates@.len(),
            b == ids@.map_values(|s: String| s@),
            p == labels@.map_values(|s: String| s@),
            c == session_values(candidates@),
            q@ == query@,
            session_values(list@) == ordered(
                matching_sessions(query@, b, p, c, i as int),
                session_before(),
            ),
        decreases candidates@.len() - i,
    {
        let id = chars_of(ids[i].as_str());
        let label = chars_of(labels[i].as_str());
        assert(b[i as int] == ids@[i as int]@ && p[i as int] == labels@[i as int]@);
        let from = &candidates[i];
        assert(c[i as int] == from@);
        if q.len() == 0 || contains_chars(id.as_slice(), q.as_slice()) || contains_chars(
            label.as_slice(),
            q.as_slice(),
        ) {
            let x = SessionCandidate {
                session_id: from.session_id.clone(),
                label: from.label.clone(),
                same_cwd: from.same_cwd,
            };
            place_session(&mut list, x);
            proof {
                let all = matching_sessions(query@, b, p, c, i + 1);
                assert(all.drop_last() =~= matching_sessions(query@, b, p, c, i as int));
                assert(all.last() == x@);
            }
        }
        i = i + 1;
    }
    let ghost full = session_values(list@);
    if list.len() > MAX_RESULTS {
        list.truncate(MAX_RESULTS);
        assert(session_values(list@) =~= full.take(MAX_RESULTS as int));
    }
    list
}

/// Ranks sessions for a query, without regard to case: those of the current
/// directory first, then by id, at most [`MAX_RESULTS`] of them.
pub fn rank_session_candidates(
    query: &str,
    current_cwd: Option<&str>,
    candidates: &[SessionCandidate],
) -> (r: Vec<SessionCandidate>)
    ensures
        session_values(r@) == ranked_sessions(
            lowercase(query@),
            lowercase_all(session_values(candidates@).map_values(|c: SessionValue| c.session_id)),
            lowercase_all(session_values(candidates@).map_values(|c: SessionValue| c.label)),
            session_values(candidates@),
        ),
{
    let q = lower(query);
    let mut ids: Vec<String> = Vec::new();
    let mut labels: Vec<String> = Vec::new();
    let mut i: usize = 0;
    while i < candidates.len()
        invariant
            i <= candidates@.len(),
            ids@.len() == i,
            labels@.len() == i,
            forall|k: int|
                0 <= k < i ==> (#[trigger] ids@[k])@ == lowercase(candidates@[k].session_id@),
            forall|k: int|
                0 <= k < i ==> (#[trigger] labels@[k])@ == lowercase(candidates@[k].label@),
        decreases candidates@.len() - i,
    {
        ids.push(lower(candidates[i].session_id.as_str()));
        labels.push(lower(candidates[i].label.as_str()));
        i = i + 1;
    }
    let ghost c = session_values(candidates@);
    assert(ids@.map_values(|s: String| s@) =~= lowercase_all(
        c.map_values(|c: SessionValue| c.session_id),
    ));
    assert(labels@.map_values(|s: String| s@) =~= lowercase_all(
        c.map_values(|c: SessionValue| c.label),
    ));
    rank_lowered_sessions(q.as_str(), &ids, &labels, candidates)
}

/// The ranking puts all sessions of the current directory first and orders
/// each part by id, without losing a match before the cut.
pub proof fn law_sessions_rank_in_order(
    q: Seq<char>,
    ids: Seq<Seq<char>>,
    labels: Seq<Seq<char>>,
    cands: Seq<SessionValue>,
)
    ensures
        ({
            let all = matching_sessions(q, ids, labels, cands, cands.len() as int);
            let list = ordered(all, session_before());
            &&& in_order(list, session_before())
            &&& list.to_multiset() == all.to_multiset()
            &&& ranked_sessions(q, ids, labels, cands).len() <= MAX_RESULTS
        }),
{
    let before = session_before();
    assert(is_order(before)) by {
        assert forall|a: SessionValue, b: SessionValue| #[trigger] before(a, b) || before(b, a) by {
            lemma_text_le_total(a.session_id, b.session_id);
        }
        assert forall|a: SessionValue, b: SessionValue, c: SessionValue|
            #![trigger before(a, b), before(b, c)]
            before(a, b) && before(b, c) implies before(a, c) by {
            if a.same_cwd == b.same_cwd && b.same_cwd == c.same_cwd {
                lemma_text_le_transitive(a.session_id, b.session_id, c.session_id);
            }
        }
    }
    law_ordered(matching_sessions(q, ids, labels, cands, cands.len() as int), before);
}

// ---------------------------------------------------------------------------
// Laws
// ---------------------------------------------------------------------------
/// The last segment of a path stands behind its last slash.
pub proof fn law_basename(dir: Seq<char>, name: Seq<char>)
    requires
        !name.contains('/'),
    ensures
        basename_of(name) == name,
        basename_of(dir + seq!['/'] + name) == name,
{
    let path = dir + seq!['/'] + name;
    law_last_place(name, '/');
    law_last_place(path, '/');
    let k = last_at(name, '/');
    if k >= 0 {
        assert(name.contains(name[k]));
    }
    assert(name.skip(0) =~= name);
    let n = dir.len() as int;
    assert(path[n] == '/');
    let j = last_at(path, '/');
    if j > n {
        assert(path[j] == name[j - n - 1]);
        assert(name.contains(name[j - n - 1]));
    }
    assert(path.skip(n + 1) =~= name);
}

/// Whether characters stand in a text at rising places.
pub open spec fn stand_in_order(needle: Seq<char>, hay: Seq<char>, places: Seq<int>) -> bool {
    &&& places.len() == needle.len()
    &&& forall|i: int|
        0 <= i < places.len() ==> 0 <= #[trigger] places[i] < hay.len() && hay[places[i]]
            == needle[i]
    &&& forall|i: int, j: int| 0 <= i < j < places.len()
        ==> #[trigger] places[i] < #[trigger] places[j]
}

/// A text is scattered over another exactly where its characters stand in it
/// at rising places.
pub proof fn law_subsequence(needle: Seq<char>, hay: Seq<char>)
    ensures
        subsequence(needle, hay) <==> exists|places: Seq<int>| #[trigger]
            stand_in_order(needle, hay, places),
{
    if subsequence(needle, hay) {
        let places = lemma_places(needle, hay);
        assert(stand_in_order(needle, hay, places));
    }
    if exists|places: Seq<int>| #[trigger] stand_in_order(needle, hay, places) {
        let places = choose|places: Seq<int>| #[trigger] stand_in_order(needle, hay, places);
        lemma_has_places(needle, hay, places);
    }
}

proof fn lemma_places(needle: Seq<char>, hay: Seq<char>) -> (places: Seq<int>)
    requires
        subsequence(needle, hay),
    ensures
        stand_in_order(needle, hay, places),
    decreases hay.len(),
{
    if needle.len() == 0 {
        Seq::empty()
    } else if needle[0] == hay[0] {
        let rest = lemma_places(needle.drop_first(), hay.drop_first());
        let places = seq![0int] + rest.map_values(|p: int| p + 1);
        assert forall|i: int| 0 <= i < places.len() implies 0 <= #[trigger] places[i] < hay.len()
            && hay[places[i]] == needle[i] by {
            if i > 0 {
                assert(places[i] == rest[i - 1] + 1);
            }
        }
        assert forall|i: int, j: int| 0 <= i < j < places.len() implies #[trigger] places[i]
            < #[trigger] places[j] by {
            assert(places[j] == rest[j - 1] + 1);
            if i > 0 {
                assert(places[i] == rest[i - 1] + 1);
            }
        }
        places
    } else {
        let rest = lemma_places(needle, hay.drop_first());
        let places = rest.map_values(|p: int| p + 1);
        assert forall|i: int| 0 <= i < places.len() implies 0 <= #[trigger] places[i] < hay.len()
            && hay[places[i]] == needle[i] by {
            assert(places[i] == rest[i] + 1);
        }
        assert forall|i: int, j: int| 0 <= i < j < places.len() implies #[trigger] places[i]
            < #[trigger] places[j] by {
            assert(places[i] == rest[i] + 1 && places[j] == rest[j] + 1);
        }
        places
    }
}

proof fn lemma_has_places(needle: Seq<char>, hay: Seq<char>, places: Seq<int>)
    requires
        stand_in_order(needle, hay, places),
    ensures
        subsequence(needle, hay),
    decreases hay.len(),
{
    if needle.len() > 0 {
        assert(0 <= places[0] < hay.len());
        let h = hay.drop_first();
        if needle[0] == hay[0] {
            let n = needle.drop_first();
            let p = Seq::new(n.len(), |i: int| places[i + 1] - 1);
            assert forall|i: int| 0 <= i < p.len() implies 0 <= #[trigger] p[i] < h.len()
                && h[p[i]] == n[i] by {
                assert(places[0] < places[i + 1]);
                assert(hay[places[i + 1]] == needle[i + 1]);
            }
            assert forall|i: int, j: int| 0 <= i < j < p.len() implies #[trigger] p[i]
                < #[trigger] p[j] by {
                assert(places[i + 1] < places[j + 1]);
            }
            lemma_has_places(n, h, p);
        } else {
            let p = places.map_values(|x: int| x - 1);
            assert(places[0] != 0);
            assert forall|i: int| 0 <= i < p.len() implies 0 <= #[trigger] p[i] < h.len()
                && h[p[i]] == needle[i] by {
                assert(p[i] == places[i] - 1);
                if i > 0 {
                    assert(places[0] < places[i]);
                }
            }
            assert forall|i: int, j: int| 0 <= i < j < p.len() implies #[trigger] p[i]
                < #[trigger] p[j] by {
                assert(p[i] == places[i] - 1 && p[j] == places[j] - 1);
                assert(places[i] < places[j]);
            }
            lemma_has_places(needle, h, p);
        }
    }
}

/// Whether a text starts with another.
pub open spec fn begins(s: Seq<char>, q: Seq<char>) -> bool {
    q.len() <= s.len() && s.take(q.len() as int) == q
}

/// Whether a candidate matches a query at all: in its last segment or its path,
/// in one piece or scattered over the path.
pub open spec fn can_match(q: Seq<char>, base: Seq<char>, path: Seq<char>) -> bool {
    base == q || occurs(base, q) || occurs(path, q) || subsequence(q, path)
}

/// Whether a candidate may stand before another in the ranking for a query: the
/// one whose last segment is the query goes first, then the one whose last
/// segment starts with it, then the one whose last segment holds it, then the
/// one whose path holds it; among equals a directory goes first, and then the
/// one with the shorter path.
pub open spec fn may_lead(
    q: Seq<char>,
    bases: Seq<Seq<char>>,
    paths: Seq<Seq<char>>,
    cands: Seq<FileValue>,
    a: int,
    b: int,
) -> bool {
    let same = (bases[a] == q) == (bases[b] == q) && begins(bases[a], q) == begins(bases[b], q)
        && occurs(bases[a], q) == occurs(bases[b], q) && occurs(paths[a], q) == occurs(
        paths[b],
        q,
    );
    &&& bases[b] == q ==> bases[a] == q
    &&& begins(bases[b], q) ==> begins(bases[a], q)
    &&& occurs(bases[b], q) ==> occurs(bases[a], q)
    &&& occurs(paths[b], q) ==> occurs(paths[a], q) || occurs(bases[a], q)
    &&& same && cands[b].is_dir ==> cands[a].is_dir
    &&& same && cands[a].is_dir == cands[b].is_dir ==> byte_len(cands[a].path) < byte_len(
        cands[b].path,
    ) || (byte_len(cands[a].path) == byte_len(cands[b].path) && a < b)
}

/// Whether places name the candidates of a ranking: each at most once, only
/// such that match, the better ones first, and all that match where there is
/// room for them.
pub open spec fn are_ranked(
    q: Seq<char>,
    bases: Seq<Seq<char>>,
    paths: Seq<Seq<char>>,
    cands: Seq<FileValue>,
    places: Seq<int>,
) -> bool {
    &&& forall|x: int|
        0 <= x < places.len() ==> 0 <= #[trigger] places[x] < cands.len() && can_match(
            q,
            bases[places[x]],
            paths[places[x]],
        )
    &&& forall|x: int, y: int|
        0 <= x < y < places.len() ==> #[trigger] places[x] != #[trigger] places[y] && may_lead(
            q,
            bases,
            paths,
            cands,
            places[x],
            places[y],
        )
    &&& forall|k: int|
        0 <= k < cands.len() && #[trigger] can_match(q, bases[k], paths[k]) && !places.contains(k)
            ==> places.len() == 20 && forall|x: int|
            0 <= x < places.len() ==> may_lead(q, bases, paths, cands, #[trigger] places[x], k)
}

/// A ranking for a query lists candidates that match, the better ones first and
/// at most twenty of them, and leaves out none that matches while there is room.
pub proof fn law_best_matches_come_first(
    q: Seq<char>,
    bases: Seq<Seq<char>>,
    paths: Seq<Seq<char>>,
    cands: Seq<FileValue>,
)
    requires
        q.len() > 0,
        bases.len() == cands.len(),
        paths.len() == cands.len(),
    ensures
        exists|places: Seq<int>| #[trigger]
            are_ranked(q, bases, paths, cands, places) && ranked_files(q, bases, paths, cands)
                == Seq::new(places.len(), |x: int| cands[places[x]]),
{
    let n = cands.len() as int;
    let all = entries(q, bases, paths, cands, n);
    let list = ordered(all, entry_before());
    law_files_rank_in_order(q, bases, paths, cands);
    law_ordered(all, entry_before());
    lemma_entries(q, bases, paths, cands, n);
    all.to_multiset_ensures();
    list.to_multiset_ensures();
    assert forall|e: Entry| #[trigger] list.contains(e) <==> all.contains(e) by {
        assert(list.to_multiset().count(e) > 0 <==> list.contains(e));
        assert(all.to_multiset().count(e) > 0 <==> all.contains(e));
    }
    assert forall|x: int| 0 <= x < list.len() implies is_entry(
        q,
        bases,
        paths,
        cands,
        n,
        #[trigger] list[x],
    ) by {
        assert(list.contains(list[x]));
        let w = choose|w: int| 0 <= w < all.len() && all[w] == list[x];
        assert(is_entry(q, bases, paths, cands, n, all[w]));
    }
    assert forall|x: int, y: int| 0 <= x < y < list.len() implies (#[trigger] list[x]).2 != (
    #[trigger] list[y]).2 by {
        assert(list.contains(list[x]) && list.contains(list[y]));
        if list[x].2 == list[y].2 {
            assert(list[x] == list[y]);
            lemma_twice(list, x, y);
            assert(all.to_multiset().count(list[x]) >= 2);
            assert(all.no_duplicates());
            all.lemma_multiset_has_no_duplicates();
            assert(all.contains(list[x]));
            assert(all.to_multiset().contains(list[x]));
        }
    }
    let m = if list.len() < 20 {
        list.len()
    } else {
        20nat
    };
    let places = Seq::new(m, |x: int| list[x].2);
    assert(ranked_files(q, bases, paths, cands) =~= Seq::new(
        places.len(),
        |x: int| cands[places[x]],
    ));
    assert forall|x: int| 0 <= x < places.len() implies 0 <= #[trigger] places[x] < cands.len()
        && can_match(q, bases[places[x]], paths[places[x]]) by {
        assert(is_entry(q, bases, paths, cands, n, list[x]));
        lemma_tiers(q, bases[places[x]], paths[places[x]]);
    }
    assert forall|x: int, y: int| 0 <= x < y < places.len() implies #[trigger] places[x]
        != #[trigger] places[y] && may_lead(q, bases, paths, cands, places[x], places[y]) by {
        assert(list[x].2 != list[y].2);
        assert(entry_before()(list[x], list[y]));
        assert(is_entry(q, bases, paths, cands, n, list[x]));
        assert(is_entry(q, bases, paths, cands, n, list[y]));
        lemma_may_lead(q, bases, paths, cands, n, list[x], list[y]);
    }
    assert forall|k: int|
        0 <= k < cands.len() && #[trigger] can_match(q, bases[k], paths[k]) && !places.contains(
            k,
        ) implies places.len() == 20 && forall|x: int|
        0 <= x < places.len() ==> may_lead(q, bases, paths, cands, #[trigger] places[x], k) by {
        lemma_tiers(q, bases[k], paths[k]);
        let e = entry_at(q, bases, paths, cands, k);
        assert(all.contains(e));
        assert(list.contains(e));
        let w = choose|w: int| 0 <= w < list.len() && list[w] == e;
        if w < m {
            assert(places[w] == k);
        }
        assert forall|x: int| 0 <= x < places.len() implies may_lead(
            q,
            bases,
            paths,
            cands,
            #[trigger] places[x],
            k,
        ) by {
            assert(list[x].2 != list[w].2);
            assert(entry_before()(list[x], list[w]));
            assert(is_entry(q, bases, paths, cands, n, list[x]));
            assert(is_entry(q, bases, paths, cands, n, list[w]));
            lemma_may_lead(q, bases, paths, cands, n, list[x], list[w]);
        }
    }
    assert(are_ranked(q, bases, paths, cands, places));
}

spec fn entry_at(
    q: Seq<char>,
    bases: Seq<Seq<char>>,
    paths: Seq<Seq<char>>,
    cands: Seq<FileValue>,
    k: int,
) -> Entry {
    (
        match_score(q, bases[k], paths[k]) + (if cands[k].is_dir {
            25int
        } else {
            0
        }),
        byte_len(cands[k].path),
        k,
    )
}

spec fn is_entry(
    q: Seq<char>,
    bases: Seq<Seq<char>>,
    paths: Seq<Seq<char>>,
    cands: Seq<FileValue>,
    n: int,
    e: Entry,
) -> bool {
    0 <= e.2 < n && match_score(q, bases[e.2], paths[e.2]) >= 0 && e == entry_at(
        q,
        bases,
        paths,
        cands,
        e.2,
    )
}

proof fn lemma_entries(
    q: Seq<char>,
    bases: Seq<Seq<char>>,
    paths: Seq<Seq<char>>,
    cands: Seq<FileValue>,
    n: int,
)
    requires
        n >= 0,
    ensures
        forall|x: int|
            0 <= x < entries(q, bases, paths, cands, n).len() ==> is_entry(
                q,
                bases,
                paths,
                cands,
                n,
                #[trigger] entries(q, bases, paths, cands, n)[x],
            ),
        forall|k: int|
            0 <= k < n && match_score(q, bases[k], paths[k]) >= 0 ==> entries(
                q,
                bases,
                paths,
                cands,
                n,
            ).contains(#[trigger] entry_at(q, bases, paths, cands, k)),
        entries(q, bases, paths, cands, n).no_duplicates(),
    decreases n,
{
    if n > 0 {
        lemma_entries(q, bases, paths, cands, n - 1);
        let init = entries(q, bases, paths, cands, n - 1);
        let es = entries(q, bases, paths, cands, n);
        assert forall|x: int| 0 <= x < es.len() implies is_entry(
            q,
            bases,
            paths,
            cands,
            n,
            #[trigger] es[x],
        ) by {
            if x < init.len() {
                assert(is_entry(q, bases, paths, cands, n - 1, init[x]));
            }
        }
        assert forall|k: int|
            0 <= k < n && match_score(q, bases[k], paths[k]) >= 0 implies es.contains(
            #[trigger] entry_at(q, bases, paths, cands, k),
        ) by {
            let e = entry_at(q, bases, paths, cands, k);
            if k < n - 1 {
                assert(init.contains(e));
                let w = choose|w: int| 0 <= w < init.len() && init[w] == e;
                assert(es[w] == e);
            } else {
                assert(es[es.len() - 1] == e);
            }
        }
        assert forall|x: int, y: int| 0 <= x < es.len() && 0 <= y < es.len() && x != y implies es[x]
            != es[y] by {
            if x < init.len() {
                assert(is_entry(q, bases, paths, cands, n - 1, init[x]));
            }
            if y < init.len() {
                assert(is_entry(q, bases, paths, cands, n - 1, init[y]));
            }
        }
    }
}

proof fn lemma_twice(s: Seq<Entry>, x: int, y: int)
    requires
        0 <= x < y < s.len(),
        s[x] == s[y],
    ensures
        s.to_multiset().count(s[x]) >= 2,
{
    broadcast use vstd::seq_lib::group_to_multiset_ensures;

    let a = s.take(y);
    let b = s.skip(y);
    assert(s =~= a + b);
    vstd::seq_lib::lemma_multiset_commutative(a, b);
    assert(a[x] == s[x]);
    assert(b[0] == s[y]);
    assert(a.contains(s[x]) && b.contains(s[x]));
    a.to_multiset_ensures();
    b.to_multiset_ensures();
}

proof fn lemma_tiers(q: Seq<char>, base: Seq<char>, path: Seq<char>)
    requires
        q.len() > 0,
    ensures
        begins(base, q) ==> occurs(base, q),
        base == q ==> begins(base, q),
        match_score(q, base, path) >= 0 <==> can_match(q, base, path),
        match_score(q, base, path) == (if base == q {
            1000int
        } else if begins(base, q) {
            900
        } else if occurs(base, q) {
            700
        } else if occurs(path, q) {
            500
        } else if can_match(q, base, path) {
            300
        } else {
            -1
        }),
{
    if q.len() <= base.len() {
        assert(base.take(q.len() as int) =~= base.subrange(0, 0 + q.len() as int));
    }
    if begins(base, q) {
        assert(stands_at(base, 0, q));
    }
    if base == q {
        assert(base.take(q.len() as int) =~= q);
    }
}

proof fn lemma_may_lead(
    q: Seq<char>,
    bases: Seq<Seq<char>>,
    paths: Seq<Seq<char>>,
    cands: Seq<FileValue>,
    n: int,
    e: Entry,
    f: Entry,
)
    requires
        q.len() > 0,
        is_entry(q, bases, paths, cands, n, e),
        is_entry(q, bases, paths, cands, n, f),
        e.2 != f.2,
        entry_before()(e, f),
    ensures
        may_lead(q, bases, paths, cands, e.2, f.2),
{
    lemma_tiers(q, bases[e.2], paths[e.2]);
    lemma_tiers(q, bases[f.2], paths[f.2]);
}

/// The score of a match tells where the query stands: it is the last segment of
/// the path, or the start of it, or a part of it, or a part of the path, or
/// scattered over the path.
pub proof fn law_score_tells_the_match(q: Seq<char>, base: Seq<char>, path: Seq<char>)
    requires
        q.len() > 0,
    ensures
        match_score(q, q, path) == 1000,
        base != q && begins(base, q) ==> match_score(q, base, path) == 900,
        !begins(base, q) && occurs(base, q) ==> match_score(q, base, path) == 700,
        !occurs(base, q) && occurs(path, q) ==> match_score(q, base, path) == 500,
        !occurs(base, q) && !occurs(path, q) && subsequence(q, path) ==> match_score(q, base, path)
            == 300,
        !occurs(base, q) && !occurs(path, q) && !subsequence(q, path) ==> match_score(
            q,
            base,
            path,
        ) == -1,
{
    lemma_tiers(q, base, path);
    lemma_tiers(q, q, path);
}

/// Without a query the listing has the candidates themselves: directories before
/// files, each by path, and the first twenty where there are more.
pub proof fn law_listing_without_a_query(
    bases: Seq<Seq<char>>,
    paths: Seq<Seq<char>>,
    cands: Seq<FileValue>,
)
    ensures
        ({
            let r = ranked_files(Seq::empty(), bases, paths, cands);
            &&& r.len() == (if cands.len() < 20 {
                cands.len()
            } else {
                20nat
            })
            &&& forall|x: int| 0 <= x < r.len() ==> cands.contains(#[trigger] r[x])
            &&& forall|x: int, y: int|
                0 <= x < y < r.len() ==> {
                    &&& (#[trigger] r[y]).is_dir ==> (#[trigger] r[x]).is_dir
                    &&& r[x].is_dir == r[y].is_dir ==> text_le(r[x].path, r[y].path)
                }
            &&& cands.len() <= 20 ==> r.to_multiset() == cands.to_multiset()
        }),
{
    law_files_rank_in_order(Seq::empty(), bases, paths, cands);
    let list = ordered(cands, listed_before());
    let r = ranked_files(Seq::empty(), bases, paths, cands);
    assert(is_order(listed_before())) by {
        assert forall|a: FileValue, b: FileValue| #[trigger] listed_before()(a, b)
            || listed_before()(b, a) by {
            lemma_text_le_total(a.path, b.path);
        }
        assert forall|a: FileValue, b: FileValue, c: FileValue|
            #![trigger listed_before()(a, b), listed_before()(b, c)]
            listed_before()(a, b) && listed_before()(b, c) implies listed_before()(a, c) by {
            if a.is_dir == b.is_dir && b.is_dir == c.is_dir {
                lemma_text_le_transitive(a.path, b.path, c.path);
            }
        }
    }
    law_ordered(cands, listed_before());
    cands.to_multiset_ensures();
    list.to_multiset_ensures();
    assert forall|x: int| 0 <= x < r.len() implies cands.contains(#[trigger] r[x]) by {
        assert(r[x] == list[x]);
        assert(list.contains(list[x]));
        assert(cands.to_multiset().count(list[x]) > 0);
    }
    assert forall|x: int, y: int| 0 <= x < y < r.len() implies {
        &&& (#[trigger] r[y]).is_dir ==> (#[trigger] r[x]).is_dir
        &&& r[x].is_dir == r[y].is_dir ==> text_le(r[x].path, r[y].path)
    } by {
        assert(r[x] == list[x] && r[y] == list[y]);
        assert(listed_before()(list[x], list[y]));
    }
    if cands.len() <= 20 {
        assert(r =~= list);
    }
}

/// Texts are ordered by their first difference; a start of a text goes before
/// the text.
pub proof fn law_text_order(p: Seq<char>, a: Seq<char>, b: Seq<char>)
    ensures
        text_le(p, p + a),
        a.len() > 0 && b.len() > 0 && a[0] < b[0] ==> text_le(p + a, p + b) && !text_le(
            p + b,
            p + a,
        ),
        text_le(p + a, p) ==> a.len() == 0,
    decreases p.len(),
{
    if p.len() == 0 {
        assert(p + a =~= a);
        assert(p + b =~= b);
    } else {
        let r = p.drop_first();
        law_text_order(r, a, b);
        assert((p + a).drop_first() =~= r + a);
        assert((p + b).drop_first() =~= r + b);
    }
}

/// A ranking of sessions has only sessions whose id or label holds the query,
/// those of the current directory first and each part by id, at most twenty; it
/// leaves out none that matches while there is room.
pub proof fn law_matching_sessions_are_listed(
    q: Seq<char>,
    ids: Seq<Seq<char>>,
    labels: Seq<Seq<char>>,
    cands: Seq<SessionValue>,
    x: int,
    y: int,
    c: int,
)
    requires
        ids.len() == cands.len(),
        labels.len() == cands.len(),
    ensures
        ranked_sessions(q, ids, labels, cands).len() <= 20,
        0 <= x < ranked_sessions(q, ids, labels, cands).len() ==> exists|k: int|
            0 <= k < cands.len() && cands[k] == ranked_sessions(q, ids, labels, cands)[x] && (
            occurs(#[trigger] ids[k], q) || occurs(labels[k], q)),
        0 <= x < y < ranked_sessions(q, ids, labels, cands).len() ==> {
            let r = ranked_sessions(q, ids, labels, cands);
            &&& r[y].same_cwd ==> r[x].same_cwd
            &&& r[x].same_cwd == r[y].same_cwd ==> text_le(r[x].session_id, r[y].session_id)
        },
        ranked_sessions(q, ids, labels, cands).len() < 20 && 0 <= c < cands.len() && (occurs(
            ids[c],
            q,
        ) || occurs(labels[c], q)) ==> ranked_sessions(q, ids, labels, cands).contains(cands[c]),
{
    let all = matching_sessions(q, ids, labels, cands, cands.len() as int);
    let before = session_before();
    let list = ordered(all, before);
    let r = ranked_sessions(q, ids, labels, cands);
    law_sessions_rank_in_order(q, ids, labels, cands);
    all.to_multiset_ensures();
    list.to_multiset_ensures();
    if 0 <= x < r.len() {
        assert(r[x] == list[x]);
        assert(list.contains(list[x]));
        assert(all.to_multiset().count(list[x]) > 0);
        let w = choose|w: int| 0 <= w < all.len() && all[w] == list[x];
        let k = lemma_match_at(q, ids, labels, cands, cands.len() as int, w);
        lemma_nothing_occurs(ids[k], q);
        assert(cands[k] == r[x] && (occurs(ids[k], q) || occurs(labels[k], q)));
        if x < y < r.len() {
            assert(r[y] == list[y]);
            assert(before(list[x], list[y]));
        }
    }
    if r.len() < 20 && 0 <= c < cands.len() && (occurs(ids[c], q) || occurs(labels[c], q)) {
        assert(r == list);
        assert(session_matches(q, ids[c], labels[c]));
        lemma_matching(q, ids, labels, cands, cands.len() as int, c);
        assert(list.to_multiset().count(cands[c]) > 0);
    }
}

proof fn lemma_nothing_occurs(s: Seq<char>, q: Seq<char>)
    ensures
        q.len() == 0 ==> occurs(s, q),
{
    if q.len() == 0 {
        assert(s.subrange(0, 0) =~= q);
        assert(stands_at(s, 0, q));
    }
}

proof fn lemma_match_at(
    q: Seq<char>,
    ids: Seq<Seq<char>>,
    labels: Seq<Seq<char>>,
    cands: Seq<SessionValue>,
    n: int,
    x: int,
) -> (k: int)
    requires
        0 <= n <= cands.len(),
        0 <= x < matching_sessions(q, ids, labels, cands, n).len(),
    ensures
        0 <= k < n,
        cands[k] == matching_sessions(q, ids, labels, cands, n)[x],
        session_matches(q, ids[k], labels[k]),
    decreases n,
{
    if x < matching_sessions(q, ids, labels, cands, n - 1).len() {
        lemma_match_at(q, ids, labels, cands, n - 1, x)
    } else {
        n - 1
    }
}

proof fn lemma_matching(
    q: Seq<char>,
    ids: Seq<Seq<char>>,
    labels: Seq<Seq<char>>,
    cands: Seq<SessionValue>,
    n: int,
    k: int,
)
    requires
        0 <= k < n <= cands.len(),
        session_matches(q, ids[k], labels[k]),
    ensures
        matching_sessions(q, ids, labels, cands, n).contains(cands[k]),
    decreases n,
{
    let init = matching_sessions(q, ids, labels, cands, n - 1);
    let all = matching_sessions(q, ids, labels, cands, n);
    if k < n - 1 {
        lemma_matching(q, ids, labels, cands, n - 1, k);
        let w = choose|w: int| 0 <= w < init.len() && init[w] == cands[k];
        assert(all[w] == cands[k]);
    } else {
        assert(all[all.len() - 1] == cands[k]);
    }
}

/// Files are ranked without regard to case, by their own last names and paths.
pub proof fn law_files_are_ranked_without_regard_to_case(
    query: &str,
    candidates: &[FileCandidate],
    names: Seq<Seq<char>>,
    paths: Seq<Seq<char>>,
    r: Vec<FileCandidate>,
)
    requires
        call_ensures(rank_file_candidates, (query, candidates), r),
        names.len() == candidates@.len(),
        paths.len() == candidates@.len(),
        forall|i: int|
            0 <= i < names.len() ==> #[trigger] names[i] == lowercase(
                basename_of(candidates@[i].path@),
            ),
        forall|i: int| 0 <= i < paths.len() ==> #[trigger] paths[i] == lowercase(candidates@[i].path@),
    ensures
        file_values(r@) == ranked_files(
            lowercase(query@),
            names,
            paths,
            file_values(candidates@),
        ),
{
    let v = file_values(candidates@);
    let a = v.map_values(|c: FileValue| basename_of(c.path));
    let b = v.map_values(|c: FileValue| c.path);
    assert forall|i: int| 0 <= i < names.len() implies #[trigger] names[i] == lowercase_all(a)[i] by {
        assert(v[i].path == candidates@[i].path@);
    }
    assert forall|i: int| 0 <= i < paths.len() implies #[trigger] paths[i] == lowercase_all(b)[i] by {
        assert(v[i].path == candidates@[i].path@);
    }
    assert(names =~= lowercase_all(a));
    assert(paths =~= lowercase_all(b));
}

/// Sessions are ranked without regard to case, by their ids and titles.
pub proof fn law_sessions_are_ranked_without_regard_to_case(
    query: &str,
    cwd: Option<&str>,
    candidates: &[SessionCandidate],
    ids: Seq<Seq<char>>,
    labels: Seq<Seq<char>>,
    r: Vec<SessionCandidate>,
)
    requires
        call_ensures(rank_session_candidates, (query, cwd, candidates), r),
        ids.len() == candidates@.len(),
        labels.len() == candidates@.len(),
        forall|i: int|
            0 <= i < ids.len() ==> #[trigger] ids[i] == lowercase(candidates@[i].session_id@),
        forall|i: int|
            0 <= i < labels.len() ==> #[trigger] labels[i] == lowercase(candidates@[i].label@),
    ensures
        session_values(r@) == ranked_sessions(
            lowercase(query@),
            ids,
            labels,
            session_values(candidates@),
        ),
{
    let v = session_values(candidates@);
    let a = v.map_values(|c: SessionValue| c.session_id);
    let b = v.map_values(|c: SessionValue| c.label);
    assert forall|i: int| 0 <= i < ids.len() implies #[trigger] ids[i] == lowercase_all(a)[i] by {
        assert(v[i].session_id == candidates@[i].session_id@);
    }
    assert forall|i: int| 0 <= i < labels.len() implies #[trigger] labels[i] == lowercase_all(
        b,
    )[i] by {
        assert(v[i].label == candidates@[i].label@);
    }
    assert(ids =~= lowercase_all(a));
    assert(labels =~= lowercase_all(b));
}

} // verus!
