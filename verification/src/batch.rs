//! Data model: batch records, per-folder trackers and the shared state block.

use vstd::prelude::*;

verus! {

/// Seconds of inactivity after which a folder's batch is deemed complete.
pub const UPLOAD_COMPLETE_TIMEOUT: u64 = 30;

/// Largest number of batches the store keeps; the oldest are evicted beyond it.
pub const MAX_BATCHES: usize = 100;

/// Lifecycle of one upload batch; the order is monotonic and `Signed` terminal.
#[derive(Clone, Copy, Debug, PartialEq, Eq, Structural)]
pub enum BatchStatus {
    Uploading,
    Completed,
    Signed,
}

/// One recorded upload session for one folder.
pub struct Batch {
    pub id: String,
    pub folder: String,
    pub files: Vec<String>,
    pub status: BatchStatus,
    pub started_at: String,
    pub completed_at: Option<String>,
    pub signed_at: Option<String>,
    pub file_count: usize,
}

/// Mathematical image of a `Batch`.
pub struct BatchView {
    pub id: Seq<char>,
    pub folder: Seq<char>,
    pub files: Seq<Seq<char>>,
    pub status: BatchStatus,
    pub started_at: Seq<char>,
    pub completed_at: Option<Seq<char>>,
    pub signed_at: Option<Seq<char>>,
    pub file_count: nat,
}

impl View for Batch {
    type V = BatchView;

    open spec fn view(&self) -> BatchView {
        BatchView {
            id: self.id@,
            folder: self.folder@,
            files: self.files.deep_view(),
            status: self.status,
            started_at: self.started_at@,
            completed_at: self.completed_at.deep_view(),
            signed_at: self.signed_at.deep_view(),
            file_count: self.file_count as nat,
        }
    }
}

/// Ephemeral session state for one folder that is actively receiving files.
pub struct FolderTracker {
    pub folder: String,
    pub files: Vec<String>,
    pub last_activity: u64,
    pub started_at: String,
    pub notified_start: bool,
    pub batch_id: String,
}

/// Mathematical image of a `FolderTracker`.
pub struct TrackerView {
    pub folder: Seq<char>,
    pub files: Seq<Seq<char>>,
    pub last_activity: u64,
    pub started_at: Seq<char>,
    pub notified_start: bool,
    pub batch_id: Seq<char>,
}

impl View for FolderTracker {
    type V = TrackerView;

    open spec fn view(&self) -> TrackerView {
        TrackerView {
            folder: self.folder@,
            files: self.files.deep_view(),
            last_activity: self.last_activity,
            started_at: self.started_at@,
            notified_start: self.notified_start,
            batch_id: self.batch_id@,
        }
    }
}

/// `bs` maps each batch to its view.
pub open spec fn batch_views(bs: Seq<Batch>) -> Seq<BatchView> {
    bs.map_values(|b: Batch| b@)
}

/// `ts` maps each tracker to its view.
pub open spec fn tracker_views(ts: Seq<FolderTracker>) -> Seq<TrackerView> {
    ts.map_values(|t: FolderTracker| t@)
}

/// Index `i` holds the first batch of `bs` whose id is `id`.
pub open spec fn is_first_batch(bs: Seq<BatchView>, id: Seq<char>, i: int) -> bool {
    &&& 0 <= i < bs.len()
    &&& bs[i].id == id
    &&& forall|j: int| 0 <= j < i ==> bs[j].id != id
}

/// Some batch of `bs` has id `id`.
pub open spec fn has_batch(bs: Seq<BatchView>, id: Seq<char>) -> bool {
    exists|i: int| 0 <= i < bs.len() && bs[i].id == id
}

/// Index `i` holds the tracker of `ts` for folder `folder`.
pub open spec fn is_tracker_at(ts: Seq<TrackerView>, folder: Seq<char>, i: int) -> bool {
    &&& 0 <= i < ts.len()
    &&& ts[i].folder == folder
}

/// Some tracker of `ts` watches `folder`.
pub open spec fn has_tracker(ts: Seq<TrackerView>, folder: Seq<char>) -> bool {
    exists|i: int| is_tracker_at(ts, folder, i)
}

/// Set-semantics append over an order-preserving container: a name already
/// present is left alone, a new one goes to the back.
pub open spec fn add_file(files: Seq<Seq<char>>, f: Seq<char>) -> Seq<Seq<char>> {
    if files.contains(f) {
        files
    } else {
        files.push(f)
    }
}

/// The file set a sequence of qualifying events leaves behind: each event's
/// file name appended only when not yet present.
pub open spec fn files_after(events: Seq<Seq<char>>) -> Seq<Seq<char>>
    decreases events.len(),
{
    if events.len() == 0 {
        Seq::empty()
    } else {
        add_file(files_after(events.drop_last()), events.last())
    }
}

/// The names of `fs` are pairwise distinct: a true file set, order kept.
pub open spec fn no_dup_files(fs: Seq<Seq<char>>) -> bool {
    forall|i: int, j: int| 0 <= i < j < fs.len() ==> fs[i] != fs[j]
}

/// `add_file` keeps the names pairwise distinct.
pub proof fn lemma_add_file_no_dup(fs: Seq<Seq<char>>, f: Seq<char>)
    requires
        no_dup_files(fs),
    ensures
        no_dup_files(add_file(fs, f)),
{
    if !fs.contains(f) {
        assert forall|i: int, j: int|
            0 <= i < j < fs.push(f).len() implies fs.push(f)[i] != fs.push(f)[j] by {
            if j == fs.len() {
                assert(fs.push(f)[i] == fs[i]);
                assert(fs.contains(fs[i]));
            }
        }
    }
}

/// Filtering commutes with appending one element.
pub proof fn lemma_filter_push<A>(s: Seq<A>, p: spec_fn(A) -> bool, x: A)
    ensures
        s.push(x).filter(p) == (if p(x) {
            s.filter(p).push(x)
        } else {
            s.filter(p)
        }),
{
    reveal(Seq::filter);
    assert(s.push(x).drop_last() =~= s);
    assert(s.push(x).last() == x);
}

/// `v[i]@ == s@` for some `i`, checked by linear scan.
pub fn contains_string(v: &Vec<String>, s: &String) -> (r: bool)
    ensures
        r == v.deep_view().contains(s@),
{
    let n = v.len();
    let mut i: usize = 0;
    while i < n
        invariant
            n == v@.len(),
            i <= n,
            forall|j: int| 0 <= j < i ==> v.deep_view()[j] != s@,
        decreases n - i,
    {
        if v[i] == *s {
            proof {
                assert(v.deep_view()[i as int] == s@);
            }
            return true;
        }
        i += 1;
    }
    proof {
        assert forall|j: int| 0 <= j < v.deep_view().len() implies v.deep_view()[j] != s@ by {}
    }
    false
}

/// An element-wise copy of a vector of strings.
pub fn clone_strings(v: &Vec<String>) -> (r: Vec<String>)
    ensures
        r.deep_view() == v.deep_view(),
        r@.len() == v@.len(),
{
    let n = v.len();
    let mut r: Vec<String> = Vec::new();
    let mut i: usize = 0;
    while i < n
        invariant
            n == v@.len(),
            i <= n,
            r@.len() == i,
            forall|j: int| 0 <= j < i ==> r.deep_view()[j] == v.deep_view()[j],
        decreases n - i,
    {
        r.push(v[i].clone());
        i += 1;
    }
    proof {
        assert(r.deep_view() =~= v.deep_view());
    }
    r
}

/// An element-wise copy of an optional string.
pub fn clone_opt_string(o: &Option<String>) -> (r: Option<String>)
    ensures
        r.deep_view() == o.deep_view(),
{
    match o {
        Some(x) => Some(x.clone()),
        None => None,
    }
}

} // verus!
