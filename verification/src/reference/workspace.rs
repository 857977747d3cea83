//! Listing the files of a workspace for completion, breadth first.
//!
//! The host reads directories; this module decides what is listed and which
//! directory comes next.

use crate::reference::rank::{basename_of, file_values, FileCandidate, FileValue};
use crate::scan::last_at;
use crate::text::{cat3, owned, str_eq};
use vstd::prelude::*;
use vstd::string::*;

verus! {

/// The most entries that a listing has.
pub const MAX_ENTRIES: usize = 10_000;

/// One entry of a directory, as the host read it.
#[derive(Debug, Clone, PartialEq, Eq)]
pub struct DirEntry {
    pub name: String,
    pub is_dir: bool,
}

/// A directory that is never listed.
pub open spec fn is_excluded_dir(name: Seq<char>) -> bool {
    name == ".git"@ || name == "node_modules"@
}

/// Whether a directory is never listed.
pub fn excluded_dir(name: &str) -> (r: bool)
    ensures
        r == is_excluded_dir(name@),
{
    str_eq(name, ".git") || str_eq(name, "node_modules")
}

/// Whether an entry is left out: hidden ones and excluded directories.
pub open spec fn left_out(name: Seq<char>, is_dir: bool) -> bool {
    (name.len() > 0 && name[0] == '.') || (is_dir && is_excluded_dir(name))
}

/// The path of an entry of a directory.
pub open spec fn joined(dir: Seq<char>, name: Seq<char>) -> Seq<char> {
    if dir.len() == 0 {
        name
    } else {
        dir + "/"@ + name
    }
}

/// A listing in progress.
#[derive(Debug, PartialEq, Eq)]
pub struct WorkspaceScan {
    /// What was listed.
    pub found: Vec<FileCandidate>,
    /// Directories, in the order they are read.
    pub queue: Vec<String>,
    /// The number of directories that were read.
    pub read: usize,
}

/// What a listing holds.
#[verifier::ext_equal]
pub struct ScanValue {
    pub found: Seq<FileValue>,
    pub queue: Seq<Seq<char>>,
}

/// A listing with one more entry.
pub open spec fn with_entry(st: ScanValue, dir: Seq<char>, name: Seq<char>, is_dir: bool) -> ScanValue {
    if left_out(name, is_dir) || st.found.len() >= MAX_ENTRIES {
        st
    } else {
        let path = joined(dir, name);
        ScanValue {
            found: st.found.push(FileValue { path, is_dir }),
            queue: if is_dir && st.found.len() + 1 < MAX_ENTRIES {
                st.queue.push(path)
            } else {
                st.queue
            },
        }
    }
}

/// A listing with the first `n` entries of a directory.
pub open spec fn with_entries(st: ScanValue, dir: Seq<char>, entries: Seq<DirEntry>, n: int) -> ScanValue
    decreases n,
{
    if n <= 0 {
        st
    } else {
        with_entry(
            with_entries(st, dir, entries, n - 1),
            dir,
            entries[n - 1].name@,
            entries[n - 1].is_dir,
        )
    }
}

fn starts_with_dot(s: &str) -> (r: bool)
    ensures
        r == (s@.len() > 0 && s@[0] == '.'),
{
    !s.is_empty() && s.get_char(0) == '.'
}

impl WorkspaceScan {
    /// What the listing holds.
    pub open spec fn value(self) -> ScanValue {
        ScanValue {
            found: file_values(self.found@),
            queue: self.queue@.map_values(|s: String| s@),
        }
    }

    pub open spec fn wf(self) -> bool {
        self.read <= self.queue@.len() && self.found@.len() <= MAX_ENTRIES
    }

    /// A listing that starts at the workspace root.
    pub fn new() -> (r: WorkspaceScan)
        ensures
            r.wf(),
            r.value() == (ScanValue { found: Seq::empty(), queue: seq![Seq::empty()] }),
            r.read == 0,
    {
        let mut queue: Vec<String> = Vec::new();
        queue.push(String::new());
        let r = WorkspaceScan { found: Vec::new(), queue, read: 0 };
        assert(r.value().found =~= Seq::<FileValue>::empty());
        assert(r.value().queue =~= seq![Seq::<char>::empty()]);
        r
    }

    /// The directory to read next, below the root; none where all were read
    /// or the listing is full.
    pub fn next_dir(&mut self) -> (r: Option<String>)
        requires
            old(self).wf(),
        ensures
            final(self).wf(),
            final(self).value() == old(self).value(),
            match r {
                Some(dir) => {
                    &&& old(self).found@.len() < MAX_ENTRIES
                    &&& old(self).read < old(self).queue@.len()
                    &&& dir@ == old(self).queue@[old(self).read as int]@
                    &&& final(self).read == old(self).read + 1
                },
                None => {
                    &&& old(self).found@.len() >= MAX_ENTRIES || old(self).read
                        == old(self).queue@.len()
                    &&& final(self).read == old(self).read
                },
            },
    {
        if self.found.len() >= MAX_ENTRIES || self.read == self.queue.len() {
            return None;
        }
        let dir = self.queue[self.read].clone();
        self.read = self.read + 1;
        Some(dir)
    }

    /// Takes in the entries of a directory.
    pub fn visit(&mut self, dir: &str, entries: &[DirEntry])
        requires
            old(self).wf(),
        ensures
            final(self).wf(),
            final(self).read == old(self).read,
            final(self).value() == with_entries(
                old(self).value(),
                dir@,
                entries@,
                entries@.len() as int,
            ),
    {
        let ghost start = self.value();
        let mut i: usize = 0;
        while i < entries.len()
            invariant
                self.wf(),
                self.read == old(self).read,
                start == old(self).value(),
                i <= entries@.len(),
                self.value() == with_entries(start, dir@, entries@, i as int),
            decreases entries@.len() - i,
        {
            let e = &entries[i];
            let name = e.name.as_str();
            let skip = starts_with_dot(name) || (e.is_dir && excluded_dir(name));
            if !skip && self.found.len() < MAX_ENTRIES {
                let path = if dir.is_empty() {
                    owned(name)
                } else {
                    cat3(dir, "/", name)
                };
                let ghost before = *self;
                let again = path.clone();
                self.found.push(FileCandidate { path, is_dir: e.is_dir });
                assert(self.value().found =~= before.value().found.push(
                    FileValue { path: path@, is_dir: e.is_dir },
                ));
                if e.is_dir && self.found.len() < MAX_ENTRIES {
                    self.queue.push(again);
                    assert(self.value().queue =~= before.value().queue.push(path@));
                }
            }
            i = i + 1;
        }
    }
}

// ---------------------------------------------------------------------------
// Laws
// ---------------------------------------------------------------------------
/// Reading a directory only adds to a listing: what was found before stays,
/// in place, and the listing never exceeds its bound.
pub proof fn law_listing_grows(st: ScanValue, dir: Seq<char>, entries: Seq<DirEntry>, n: int)
    requires
        0 <= n <= entries.len(),
        st.found.len() <= MAX_ENTRIES,
    ensures
        ({
            let r = with_entries(st, dir, entries, n);
            &&& st.found.len() <= r.found.len() <= MAX_ENTRIES
            &&& r.found.take(st.found.len() as int) == st.found
            &&& st.queue.len() <= r.queue.len()
            &&& r.queue.take(st.queue.len() as int) == st.queue
        }),
    decreases n,
{
    if n <= 0 {
        assert(st.found.take(st.found.len() as int) =~= st.found);
        assert(st.queue.take(st.queue.len() as int) =~= st.queue);
    } else {
        law_listing_grows(st, dir, entries, n - 1);
        let p = with_entries(st, dir, entries, n - 1);
        let r = with_entries(st, dir, entries, n);
        assert(r.found.take(st.found.len() as int) =~= p.found.take(st.found.len() as int));
        assert(r.queue.take(st.queue.len() as int) =~= p.queue.take(st.queue.len() as int));
    }
}

/// Hidden entries and excluded directories never enter a listing.
pub proof fn law_left_out_entries_change_nothing(
    st: ScanValue,
    dir: Seq<char>,
    name: Seq<char>,
    is_dir: bool,
)
    requires
        left_out(name, is_dir),
    ensures
        with_entry(st, dir, name, is_dir) == st,
{
}

// ---------------------------------------------------------------------------
// A whole run
// ---------------------------------------------------------------------------
/// The number of slashes in a text.
pub open spec fn slashes(s: Seq<char>) -> nat
    decreases s.len(),
{
    if s.len() == 0 {
        0
    } else {
        slashes(s.drop_last()) + (if s.last() == '/' {
            1nat
        } else {
            0nat
        })
    }
}

/// How deep a path lies below the root, which itself is the empty path.
pub open spec fn depth_of(path: Seq<char>) -> nat {
    if path.len() == 0 {
        0
    } else {
        slashes(path) + 1
    }
}

/// The directory that a path lies in.
pub open spec fn parent_of(path: Seq<char>) -> Seq<char> {
    if last_at(path, '/') < 0 {
        Seq::empty()
    } else {
        path.take(last_at(path, '/'))
    }
}

/// Whether entries have names that a directory can have: not empty, and
/// without a slash.
pub open spec fn are_named(entries: Seq<DirEntry>) -> bool {
    forall|i: int|
        0 <= i < entries.len() ==> (#[trigger] entries[i]).name@.len() > 0
            && !entries[i].name@.contains('/')
}

/// Whether no two entries have the same name.
pub open spec fn are_distinct(entries: Seq<DirEntry>) -> bool {
    forall|i: int, j: int|
        0 <= i < j < entries.len()
            ==> (#[trigger] entries[i]).name@ != (#[trigger] entries[j]).name@
}

/// A listing at its start.
pub open spec fn scan_start() -> ScanValue {
    ScanValue { found: Seq::empty(), queue: seq![Seq::empty()] }
}

/// A listing behind the first `k` directories: directory number `k` of the
/// queue had the entries `reads[k]`, none where it could not be read.
pub open spec fn run_of(reads: Seq<Seq<DirEntry>>, k: int) -> ScanValue
    decreases k,
{
    if k <= 0 {
        scan_start()
    } else {
        let st = run_of(reads, k - 1);
        with_entries(st, st.queue[k - 1], reads[k - 1], reads[k - 1].len() as int)
    }
}

/// Whether every directory that was read stood in the queue.
pub open spec fn is_run(reads: Seq<Seq<DirEntry>>) -> bool {
    forall|k: int| 0 <= k < reads.len() ==> k < (#[trigger] run_of(reads, k)).queue.len()
}

/// Whether a directory is listed before a position.
pub open spec fn listed_dir(found: Seq<FileValue>, n: int, path: Seq<char>) -> bool {
    exists|j: int| 0 <= j < n && (#[trigger] found[j]).is_dir && found[j].path == path
}

/// Whether each directory is listed before what lies in it.
pub open spec fn parents_first(found: Seq<FileValue>) -> bool {
    forall|i: int|
        0 <= i < found.len() ==> parent_of((#[trigger] found[i]).path).len() == 0 || listed_dir(
            found,
            i,
            parent_of(found[i].path),
        )
}

/// Whether depths never fall along a listing.
pub open spec fn depths_rise(found: Seq<FileValue>) -> bool {
    forall|i: int, j: int|
        0 <= i < j < found.len() ==> depth_of((#[trigger] found[i]).path) <= depth_of(
            (#[trigger] found[j]).path,
        )
}

/// Whether no path is listed twice.
pub open spec fn paths_distinct(found: Seq<FileValue>) -> bool {
    forall|i: int, j: int|
        0 <= i < j < found.len() ==> (#[trigger] found[i]).path != (#[trigger] found[j]).path
}

proof fn lemma_slashes_concat(a: Seq<char>, b: Seq<char>)
    ensures
        slashes(a + b) == slashes(a) + slashes(b),
    decreases b.len(),
{
    if b.len() == 0 {
        assert(a + b =~= a);
    } else {
        assert((a + b).drop_last() =~= a + b.drop_last());
        lemma_slashes_concat(a, b.drop_last());
    }
}

proof fn lemma_no_slashes(s: Seq<char>)
    requires
        !s.contains('/'),
    ensures
        slashes(s) == 0,
        last_at(s, '/') == -1,
    decreases s.len(),
{
    if s.len() > 0 {
        assert(s.contains(s.last()));
        assert(!s.drop_last().contains('/')) by {
            if s.drop_last().contains('/') {
                let k = choose|k: int| 0 <= k < s.drop_last().len() && s.drop_last()[k] == '/';
                assert(s[k] == '/');
            }
        }
        lemma_no_slashes(s.drop_last());
    }
}

proof fn lemma_last_slash(dir: Seq<char>, name: Seq<char>)
    requires
        !name.contains('/'),
    ensures
        last_at(dir.push('/') + name, '/') == dir.len(),
    decreases name.len(),
{
    let s = dir.push('/') + name;
    if name.len() == 0 {
        assert(s =~= dir.push('/'));
    } else {
        assert(name.contains(name.last()));
        assert(!name.drop_last().contains('/')) by {
            if name.drop_last().contains('/') {
                let k = choose|k: int| 0 <= k < name.drop_last().len()
                    && name.drop_last()[k] == '/';
                assert(name[k] == '/');
            }
        }
        lemma_last_slash(dir, name.drop_last());
        assert(s.drop_last() =~= dir.push('/') + name.drop_last());
    }
}

proof fn lemma_joined(dir: Seq<char>, name: Seq<char>)
    requires
        name.len() > 0,
        !name.contains('/'),
    ensures
        joined(dir, name).len() > 0,
        parent_of(joined(dir, name)) == dir,
        basename_of(joined(dir, name)) == name,
        depth_of(joined(dir, name)) == depth_of(dir) + 1,
{
    lemma_no_slashes(name);
    let path = joined(dir, name);
    if dir.len() == 0 {
        assert(path.skip(0) =~= name);
        assert(dir =~= Seq::<char>::empty());
    } else {
        reveal_strlit("/");
        assert(path =~= dir.push('/') + name);
        lemma_last_slash(dir, name);
        assert(path.take(dir.len() as int) =~= dir);
        assert(path.skip(dir.len() + 1int) =~= name);
        lemma_slashes_concat(dir.push('/'), name);
        assert(dir.push('/').drop_last() =~= dir);
    }
}

/// What holds while directory number `d` of the queue is read.
spec fn in_order_at(st: ScanValue, d: int) -> bool {
    &&& 0 <= d < st.queue.len()
    &&& st.queue[0].len() == 0
    &&& forall|q: int|
        1 <= q < st.queue.len() ==> listed_dir(
            st.found,
            st.found.len() as int,
            #[trigger] st.queue[q],
        )
    &&& forall|q: int|
        0 <= q < st.queue.len() ==> depth_of(#[trigger] st.queue[q]) <= depth_of(st.queue[d]) + 1
    &&& forall|p: int, q: int|
        0 <= p < q < st.queue.len() ==> depth_of(#[trigger] st.queue[p]) <= depth_of(
            #[trigger] st.queue[q],
        )
    &&& forall|i: int|
        0 <= i < st.found.len() ==> depth_of((#[trigger] st.found[i]).path) <= depth_of(
            st.queue[d],
        ) + 1
    &&& depths_rise(st.found)
    &&& parents_first(st.found)
}

proof fn lemma_listed_stays(found: Seq<FileValue>, f: FileValue, n: int, path: Seq<char>)
    requires
        0 <= n <= found.len(),
        listed_dir(found, n, path),
    ensures
        listed_dir(found.push(f), n, path),
        listed_dir(found.push(f), found.len() + 1int, path),
{
    let j = choose|j: int| 0 <= j < n && (#[trigger] found[j]).is_dir && found[j].path == path;
    assert(found.push(f)[j] == found[j]);
}

proof fn lemma_entry_in_order(st: ScanValue, d: int, name: Seq<char>, is_dir: bool)
    requires
        in_order_at(st, d),
        name.len() > 0,
        !name.contains('/'),
    ensures
        in_order_at(with_entry(st, st.queue[d], name, is_dir), d),
        with_entry(st, st.queue[d], name, is_dir).queue[d] == st.queue[d],
{
    let r = with_entry(st, st.queue[d], name, is_dir);
    if r != st {
        let dir = st.queue[d];
        let path = joined(dir, name);
        let f = FileValue { path, is_dir };
        let n = st.found.len() as int;
        lemma_joined(dir, name);
        assert(r.found == st.found.push(f));
        assert forall|q: int| 1 <= q < r.queue.len() implies listed_dir(
            r.found,
            r.found.len() as int,
            #[trigger] r.queue[q],
        ) by {
            if q < st.queue.len() {
                assert(r.queue[q] == st.queue[q]);
                lemma_listed_stays(st.found, f, n, st.queue[q]);
            } else {
                assert(r.found[n].is_dir && r.found[n].path == r.queue[q]);
            }
        }
        assert forall|q: int| 0 <= q < r.queue.len() implies depth_of(#[trigger] r.queue[q])
            <= depth_of(r.queue[d]) + 1 by {
            if q < st.queue.len() {
                assert(r.queue[q] == st.queue[q]);
            }
        }
        assert forall|p: int, q: int| 0 <= p < q < r.queue.len() implies depth_of(
            #[trigger] r.queue[p],
        ) <= depth_of(#[trigger] r.queue[q]) by {
            assert(r.queue[p] == st.queue[p]);
            if q < st.queue.len() {
                assert(r.queue[q] == st.queue[q]);
            }
        }
        assert forall|i: int| 0 <= i < r.found.len() implies parent_of((#[trigger] r.found[i]).path).len()
            == 0 || listed_dir(r.found, i, parent_of(r.found[i].path)) by {
            if i < n {
                assert(r.found[i] == st.found[i]);
                if parent_of(st.found[i].path).len() > 0 {
                    lemma_listed_stays(st.found, f, i, parent_of(st.found[i].path));
                }
            } else if d > 0 {
                lemma_listed_stays(st.found, f, n, st.queue[d]);
            }
        }
    }
}

proof fn lemma_entries_in_order(st: ScanValue, d: int, entries: Seq<DirEntry>, n: int)
    requires
        in_order_at(st, d),
        are_named(entries),
        0 <= n <= entries.len(),
    ensures
        in_order_at(with_entries(st, st.queue[d], entries, n), d),
        with_entries(st, st.queue[d], entries, n).queue[d] == st.queue[d],
    decreases n,
{
    if n > 0 {
        lemma_entries_in_order(st, d, entries, n - 1);
        lemma_entry_in_order(
            with_entries(st, st.queue[d], entries, n - 1),
            d,
            entries[n - 1].name@,
            entries[n - 1].is_dir,
        );
    }
}

proof fn lemma_run_in_order(reads: Seq<Seq<DirEntry>>, k: int)
    requires
        is_run(reads),
        forall|i: int| 0 <= i < reads.len() ==> are_named(#[trigger] reads[i]),
        0 <= k <= reads.len(),
    ensures
        in_order_at(run_of(reads, k), if k == 0 {
            0
        } else {
            k - 1
        }),
    decreases k,
{
    if k == 0 {
    } else {
        lemma_run_in_order(reads, k - 1);
        let st = run_of(reads, k - 1);
        let d = k - 1;
        assert(d < st.queue.len());
        if d > 0 {
            assert(depth_of(st.queue[d - 1]) <= depth_of(st.queue[d]));
        }
        assert(in_order_at(st, d));
        assert(are_named(reads[d]));
        lemma_entries_in_order(st, d, reads[d], reads[d].len() as int);
    }
}

/// A run lists breadth first: depths never fall along it, and each directory
/// stands before what lies in it.
pub proof fn law_run_is_breadth_first(reads: Seq<Seq<DirEntry>>)
    requires
        is_run(reads),
        forall|i: int| 0 <= i < reads.len() ==> are_named(#[trigger] reads[i]),
    ensures
        depths_rise(run_of(reads, reads.len() as int).found),
        parents_first(run_of(reads, reads.len() as int).found),
{
    lemma_run_in_order(reads, reads.len() as int);
}

/// What holds of the paths while directory number `d` of the queue is read, and
/// `n` of its entries were taken in.
spec fn apart_at(st: ScanValue, d: int, entries: Seq<DirEntry>, n: int) -> bool {
    &&& 0 <= d < st.queue.len()
    &&& st.queue[0].len() == 0
    &&& forall|q: int|
        1 <= q < st.queue.len() ==> (#[trigger] st.queue[q]).len() > 0 && listed_dir(
            st.found,
            st.found.len() as int,
            st.queue[q],
        )
    &&& forall|p: int, q: int|
        0 <= p < q < st.queue.len() ==> #[trigger] st.queue[p] != #[trigger] st.queue[q]
    &&& forall|i: int|
        0 <= i < st.found.len() ==> (#[trigger] st.found[i]).path.len() > 0 && lies_in(
            st,
            d,
            st.found[i].path,
        ) && (parent_of(st.found[i].path) == st.queue[d] ==> is_named_in(
            entries,
            n,
            basename_of(st.found[i].path),
        ))
    &&& paths_distinct(st.found)
}

/// Whether a path lies in one of the directories up to number `d`.
spec fn lies_in(st: ScanValue, d: int, path: Seq<char>) -> bool {
    exists|c: int| 0 <= c <= d && parent_of(path) == #[trigger] st.queue[c]
}

/// Whether one of the first `n` entries has a name.
spec fn is_named_in(entries: Seq<DirEntry>, n: int, name: Seq<char>) -> bool {
    exists|e: int| 0 <= e < n && (#[trigger] entries[e]).name@ == name
}

proof fn lemma_entry_apart(st: ScanValue, d: int, entries: Seq<DirEntry>, n: int)
    requires
        apart_at(st, d, entries, n),
        are_named(entries),
        are_distinct(entries),
        0 <= n < entries.len(),
    ensures
        ({
            let r = with_entry(st, st.queue[d], entries[n].name@, entries[n].is_dir);
            apart_at(r, d, entries, n + 1) && r.queue[d] == st.queue[d]
        }),
{
    let name = entries[n].name@;
    let r = with_entry(st, st.queue[d], name, entries[n].is_dir);
    let dir = st.queue[d];
    let path = joined(dir, name);
    lemma_joined(dir, name);
    let m = st.found.len() as int;
    assert forall|i: int| 0 <= i < st.found.len() implies (#[trigger] st.found[i]).path != path by {
        if st.found[i].path == path {
            let e = choose|e: int| 0 <= e < n && (#[trigger] entries[e]).name@ == name;
            assert(entries[e].name@ != entries[n].name@);
        }
    }
    assert forall|x: Seq<char>| #[trigger] is_named_in(entries, n, x) implies is_named_in(
        entries,
        n + 1,
        x,
    ) by {
        let e = choose|e: int| 0 <= e < n && (#[trigger] entries[e]).name@ == x;
        assert(entries[e].name@ == x);
    }
    if r != st {
        let f = FileValue { path, is_dir: entries[n].is_dir };
        assert(r.found == st.found.push(f));
        assert(forall|q: int| 0 <= q < st.queue.len() ==> #[trigger] r.queue[q] == st.queue[q]);
        assert forall|q: int| 1 <= q < r.queue.len() implies (#[trigger] r.queue[q]).len() > 0
            && listed_dir(r.found, r.found.len() as int, r.queue[q]) by {
            if q < st.queue.len() {
                assert(r.queue[q] == st.queue[q]);
                lemma_listed_stays(st.found, f, m, st.queue[q]);
            } else {
                assert(r.found[m].is_dir && r.found[m].path == r.queue[q]);
            }
        }
        assert forall|p: int, q: int| 0 <= p < q < r.queue.len() implies #[trigger] r.queue[p]
            != #[trigger] r.queue[q] by {
            assert(r.queue[p] == st.queue[p]);
            if q < st.queue.len() {
                assert(r.queue[q] == st.queue[q]);
            } else if p > 0 {
                let j = choose|j: int|
                    0 <= j < m && (#[trigger] st.found[j]).is_dir && st.found[j].path
                        == st.queue[p];
                assert(st.found[j].path != path);
            }
        }
        assert forall|i: int| 0 <= i < r.found.len() implies (#[trigger] r.found[i]).path.len() > 0
            && lies_in(r, d, r.found[i].path) && (parent_of(r.found[i].path) == r.queue[d]
            ==> is_named_in(entries, n + 1, basename_of(r.found[i].path))) by {
            if i < m {
                assert(r.found[i] == st.found[i]);
                let c = choose|c: int|
                    0 <= c <= d && parent_of(st.found[i].path) == #[trigger] st.queue[c];
                assert(r.queue[c] == st.queue[c]);
            } else {
                assert(parent_of(path) == r.queue[d]);
                assert(entries[n].name@ == basename_of(path));
            }
        }
    }
}

proof fn lemma_entries_apart(st: ScanValue, d: int, entries: Seq<DirEntry>, n: int)
    requires
        apart_at(st, d, entries, 0),
        are_named(entries),
        are_distinct(entries),
        0 <= n <= entries.len(),
    ensures
        apart_at(with_entries(st, st.queue[d], entries, n), d, entries, n),
        with_entries(st, st.queue[d], entries, n).queue[d] == st.queue[d],
    decreases n,
{
    if n > 0 {
        lemma_entries_apart(st, d, entries, n - 1);
        lemma_entry_apart(with_entries(st, st.queue[d], entries, n - 1), d, entries, n - 1);
    }
}

/// A run lists no path twice, where no directory has a name twice.
pub proof fn law_run_lists_nothing_twice(reads: Seq<Seq<DirEntry>>)
    requires
        is_run(reads),
        forall|i: int|
            0 <= i < reads.len() ==> are_named(#[trigger] reads[i]) && are_distinct(reads[i]),
    ensures
        paths_distinct(run_of(reads, reads.len() as int).found),
{
    lemma_run_apart(reads, reads.len() as int);
}

proof fn lemma_run_apart(reads: Seq<Seq<DirEntry>>, k: int)
    requires
        is_run(reads),
        forall|i: int|
            0 <= i < reads.len() ==> are_named(#[trigger] reads[i]) && are_distinct(reads[i]),
        0 <= k <= reads.len(),
    ensures
        k == 0 ==> run_of(reads, k) == scan_start(),
        k > 0 ==> apart_at(run_of(reads, k), k - 1, reads[k - 1], reads[k - 1].len() as int),
    decreases k,
{
    if k > 0 {
        lemma_run_apart(reads, k - 1);
        let st = run_of(reads, k - 1);
        let d = k - 1;
        assert(d < st.queue.len());
        assert(apart_at(st, d, reads[d], 0)) by {
            if d > 0 {
                assert forall|i: int| 0 <= i < st.found.len() implies (
                #[trigger] st.found[i]).path.len() > 0 && lies_in(st, d, st.found[i].path) && (
                parent_of(st.found[i].path) == st.queue[d] ==> is_named_in(
                    reads[d],
                    0,
                    basename_of(st.found[i].path),
                )) by {
                    let c = choose|c: int|
                        0 <= c <= d - 1 && parent_of(st.found[i].path) == #[trigger] st.queue[c];
                    assert(st.queue[c] != st.queue[d]);
                }
            }
        }
        assert(are_named(reads[d]));
        lemma_entries_apart(st, d, reads[d], reads[d].len() as int);
    }
}

proof fn lemma_run_prefix(reads: Seq<Seq<DirEntry>>, entries: Seq<DirEntry>, k: int)
    requires
        0 <= k <= reads.len(),
    ensures
        run_of(reads.push(entries), k) == run_of(reads, k),
    decreases k,
{
    if k > 0 {
        lemma_run_prefix(reads, entries, k - 1);
        assert(reads.push(entries)[k - 1] == reads[k - 1]);
    }
}

/// Reading the next directory of the queue continues a run.
pub proof fn law_reading_on_continues_a_run(reads: Seq<Seq<DirEntry>>, entries: Seq<DirEntry>)
    requires
        is_run(reads),
        reads.len() < run_of(reads, reads.len() as int).queue.len(),
    ensures
        is_run(reads.push(entries)),
        run_of(reads.push(entries), reads.len() + 1int) == with_entries(
            run_of(reads, reads.len() as int),
            run_of(reads, reads.len() as int).queue[reads.len() as int],
            entries,
            entries.len() as int,
        ),
{
    let more = reads.push(entries);
    assert forall|k: int| 0 <= k < more.len() implies k < (#[trigger] run_of(more, k)).queue.len() by {
        lemma_run_prefix(reads, entries, k);
        assert(run_of(more, k) == run_of(reads, k));
    }
    lemma_run_prefix(reads, entries, reads.len() as int);
    assert(more[reads.len() as int] == entries);
}

/// An entry is listed by its path below the root, unless its name starts with a
/// dot or it is a directory of version control or of installed packages; a
/// directory that is listed is also read later.
pub proof fn law_entries_are_listed(st: ScanValue, dir: Seq<char>, name: Seq<char>, is_dir: bool)
    requires
        st.found.len() < 9_999,
        name.len() > 0,
    ensures
        ({
            let r = with_entry(st, dir, name, is_dir);
            let path = if dir.len() == 0 {
                name
            } else {
                dir + seq!['/'] + name
            };
            let skipped = name[0] == '.' || (is_dir
                && (name == "node_modules"@ || name == ".git"@));
            &&& skipped ==> r == st
            &&& !skipped ==> r.found == st.found.push(FileValue { path, is_dir })
            &&& !skipped && is_dir ==> r.queue == st.queue.push(path)
            &&& !skipped && !is_dir ==> r.queue == st.queue
        }),
{
    reveal_strlit("/");
    assert("/"@ =~= seq!['/']);
}

} // verus!
