//! The tracking engine: one shared state block and the operations on it.
//!
//! Every operation here is a pure state transition on [`GlobalState`]; the
//! surrounding application owns the lock around the state block, performs
//! the filesystem watching, and emits the notifications these operations
//! call for through their results.

use vstd::prelude::*;
use crate::outside::{local_now_hms, local_now_stamp, new_batch_id, now_secs};
use crate::batch::{
    add_file, Batch, BatchStatus, BatchView, FolderTracker, TrackerView, batch_views,
    tracker_views, clone_opt_string, clone_strings, contains_string, files_after, has_batch,
    has_tracker, is_first_batch, is_tracker_at, lemma_add_file_no_dup, lemma_filter_push,
    no_dup_files, MAX_BATCHES, UPLOAD_COMPLETE_TIMEOUT,
};
use crate::config::{is_stock_config, AppConfig};

verus! {

/// Everything the engine guards as one unit: configuration, the batch
/// store, the live per-folder trackers, and the session flags.
pub struct GlobalState {
    pub config: AppConfig,
    pub batches: Vec<Batch>,
    pub folder_trackers: Vec<FolderTracker>,
    pub is_running: bool,
    pub dir_count: i32,
    pub start_time: String,
}

impl GlobalState {
    /// Views of the stored batches, newest first.
    pub open spec fn bvs(&self) -> Seq<BatchView> {
        batch_views(self.batches@)
    }

    /// Views of the live trackers.
    pub open spec fn tvs(&self) -> Seq<TrackerView> {
        tracker_views(self.folder_trackers@)
    }

    /// Structural invariant: the store is capped, each record's derived
    /// count is honest and its file names distinct, and no folder has two
    /// live trackers nor a tracker with a duplicated name.
    pub open spec fn wf(&self) -> bool {
        &&& self.batches@.len() <= MAX_BATCHES
        &&& forall|i: int| 0 <= i < self.batches@.len() ==> (#[trigger] self.batches@[i])@.file_count
            == self.batches@[i]@.files.len()
        &&& forall|i: int| 0 <= i < self.batches@.len() ==> no_dup_files(
            (#[trigger] self.batches@[i])@.files,
        )
        &&& forall|i: int, j: int| 0 <= i < j < self.folder_trackers@.len()
            ==> (#[trigger] self.folder_trackers@[i])@.folder
                != (#[trigger] self.folder_trackers@[j])@.folder
        &&& forall|i: int| 0 <= i < self.folder_trackers@.len() ==> no_dup_files(
            (#[trigger] self.folder_trackers@[i])@.files,
        )
    }
}

impl Default for GlobalState {
    /// A fresh, idle engine with the stock configuration and nothing stored.
    fn default() -> (s: Self)
        ensures
            s.wf(),
            is_stock_config(s.config@),
            s.batches@.len() == 0,
            s.folder_trackers@.len() == 0,
            !s.is_running,
            s.dir_count == 0,
            s.start_time@.len() == 0,
    {
        GlobalState {
            config: AppConfig::default(),
            batches: Vec::new(),
            folder_trackers: Vec::new(),
            is_running: false,
            dir_count: 0,
            start_time: String::new(),
        }
    }
}

/// Replaces the active configuration; the caller persists it if it wishes.
pub fn set_config(state: &mut GlobalState, config: AppConfig)
    requires
        old(state).wf(),
    ensures
        final(state).wf(),
        final(state).config == config,
        final(state).batches == old(state).batches,
        final(state).folder_trackers == old(state).folder_trackers,
        final(state).is_running == old(state).is_running,
        final(state).dir_count == old(state).dir_count,
        final(state).start_time == old(state).start_time,
{
    state.config = config;
}

/// A monitoring session may begin exactly when none is running and a watch
/// folder is configured.  Whether that folder exists on disk, and whether a
/// watch can be installed on it, the caller must check itself before
/// flipping the engine to running with [`mark_started`].
pub fn can_start(state: &GlobalState) -> (r: bool)
    ensures
        r == (!state.is_running && state.config@.watch_folder.len() > 0),
{
    !state.is_running && !state.config.watch_folder.as_str().is_empty()
}

/// Flips the engine to running once the caller has installed its watch.
pub fn mark_started(state: &mut GlobalState, start_time: String)
    requires
        old(state).wf(),
        !old(state).is_running,
    ensures
        final(state).wf(),
        final(state).is_running,
        final(state).dir_count == 1,
        final(state).start_time == start_time,
        final(state).config == old(state).config,
        final(state).batches == old(state).batches,
        final(state).folder_trackers == old(state).folder_trackers,
{
    state.is_running = true;
    state.start_time = start_time;
    state.dir_count = 1;
}

/// Ends the session: rejected when idle; otherwise drops every live
/// tracker.  Batches still uploading stay in the store exactly as they
/// were — stopping never completes them.
pub fn stop_monitor(state: &mut GlobalState) -> (r: bool)
    requires
        old(state).wf(),
    ensures
        final(state).wf(),
        r == old(state).is_running,
        !r ==> *final(state) == *old(state),
        r ==> {
            &&& !final(state).is_running
            &&& final(state).dir_count == 0
            &&& final(state).start_time@.len() == 0
            &&& final(state).folder_trackers@.len() == 0
            &&& final(state).batches == old(state).batches
            &&& final(state).config == old(state).config
        },
{
    if !state.is_running {
        return false;
    }
    state.is_running = false;
    state.start_time = String::new();
    state.dir_count = 0;
    state.folder_trackers.clear();
    true
}

/// Index `i` holds the first batch of `bs` that `sign` would act on for
/// `id`: id matches and the batch is currently `Completed`.
pub open spec fn signable_at(bs: Seq<BatchView>, id: Seq<char>, i: int) -> bool {
    &&& 0 <= i < bs.len()
    &&& bs[i].id == id
    &&& bs[i].status == BatchStatus::Completed
    &&& forall|j: int| 0 <= j < i ==> !((#[trigger] bs[j]).id == id && bs[j].status
        == BatchStatus::Completed)
}

/// Some batch of `bs` has id `id` and is currently `Completed`.
pub open spec fn has_signable(bs: Seq<BatchView>, id: Seq<char>) -> bool {
    exists|i: int| 0 <= i < bs.len() && (#[trigger] bs[i]).id == id && bs[i].status
        == BatchStatus::Completed
}

/// The full effect of signing one batch by id at a given stamp: success
/// exactly when some batch with this id is currently `Completed`; that
/// batch alone becomes `Signed`, and a miss changes nothing at all.
pub open spec fn sign_post(
    pre: GlobalState,
    post: GlobalState,
    id: Seq<char>,
    now_str: Seq<char>,
    r: bool,
) -> bool {
    &&& r == has_signable(pre.bvs(), id)
    &&& (!r ==> post == pre)
    &&& (r ==> {
        &&& post.config == pre.config
        &&& post.folder_trackers == pre.folder_trackers
        &&& post.is_running == pre.is_running
        &&& post.dir_count == pre.dir_count
        &&& post.start_time == pre.start_time
        &&& post.batches@.len() == pre.batches@.len()
        &&& forall|i: int|
            signable_at(pre.bvs(), id, i) ==> (forall|j: int|
                0 <= j < pre.batches@.len() && j != i ==> post.batches@[j] == pre.batches@[j])
                && post.bvs()[i] == (BatchView {
                status: BatchStatus::Signed,
                signed_at: Some(now_str),
                ..pre.bvs()[i]
            })
    })
}

/// Signs one batch: succeeds exactly when a batch with this id is
/// currently `Completed`; everything else is left untouched, and a miss
/// changes nothing at all.
pub fn sign_batch_at(state: &mut GlobalState, batch_id: &String, now_str: String) -> (r: bool)
    requires
        old(state).wf(),
    ensures
        final(state).wf(),
        sign_post(*old(state), *final(state), batch_id@, now_str@, r),
{
    let ghost pre = *state;
    let n = state.batches.len();
    let mut i: usize = 0;
    while i < n
        invariant
            pre == *old(state),
            pre.wf(),
            *state == pre,
            n == pre.batches@.len(),
            i <= n,
            forall|j: int|
                0 <= j < i ==> !((#[trigger] pre.bvs()[j]).id == batch_id@ && pre.bvs()[j].status
                    == BatchStatus::Completed),
        decreases n - i,
    {
        if state.batches[i].id == *batch_id && state.batches[i].status == BatchStatus::Completed {
            let mut b = state.batches.remove(i);
            b.status = BatchStatus::Signed;
            b.signed_at = Some(now_str);
            state.batches.insert(i, b);
            proof {
                assert(pre.wf());
                assert(state.batches@ =~= pre.batches@.update(i as int, b));
                assert(pre.bvs()[i as int].id == batch_id@);
                assert(signable_at(pre.bvs(), batch_id@, i as int));
                assert forall|k: int|
                    0 <= k < state.batches@.len() implies (#[trigger] state.batches@[k])@.file_count
                    == state.batches@[k]@.files.len() by {
                    if k != i as int {
                        assert(state.batches@[k] == pre.batches@[k]);
                    } else {
                        assert(state.batches@[k] == b);
                        assert(b.files == pre.batches@[k].files);
                        assert(b.file_count == pre.batches@[k].file_count);
                        assert(pre.batches@[k]@.file_count == pre.batches@[k]@.files.len());
                        assert(state.batches@[k]@.files == pre.batches@[k]@.files);
                        assert(state.batches@[k]@.file_count == pre.batches@[k]@.file_count);
                    }
                }
            }
            return true;
        }
        i += 1;
    }
    false
}

/// The full effect of the bulk sign: every `Completed` batch becomes
/// `Signed` with the same stamp, every other batch is left untouched.
pub open spec fn sign_all_post(pre: GlobalState, post: GlobalState, now_str: Seq<char>) -> bool {
    &&& post.config == pre.config
    &&& post.folder_trackers == pre.folder_trackers
    &&& post.is_running == pre.is_running
    &&& post.dir_count == pre.dir_count
    &&& post.start_time == pre.start_time
    &&& post.batches@.len() == pre.batches@.len()
    &&& forall|i: int|
        0 <= i < pre.batches@.len() && (#[trigger] pre.bvs()[i]).status == BatchStatus::Completed
            ==> post.bvs()[i] == (BatchView {
            status: BatchStatus::Signed,
            signed_at: Some(now_str),
            ..pre.bvs()[i]
        })
    &&& forall|i: int|
        0 <= i < pre.batches@.len() && (#[trigger] pre.bvs()[i]).status != BatchStatus::Completed
            ==> post.batches@[i] == pre.batches@[i]
}

/// Signs every batch that is currently `Completed`, all with the same
/// timestamp; batches in any other status are left untouched.
pub fn sign_all_batches_at(state: &mut GlobalState, now_str: &String)
    requires
        old(state).wf(),
    ensures
        final(state).wf(),
        sign_all_post(*old(state), *final(state), now_str@),
{
    let ghost pre = *state;
    let n = state.batches.len();
    let mut i: usize = 0;
    while i < n
        invariant
            pre == *old(state),
            n == pre.batches@.len(),
            i <= n,
            state.config == pre.config,
            state.folder_trackers == pre.folder_trackers,
            state.is_running == pre.is_running,
            state.dir_count == pre.dir_count,
            state.start_time == pre.start_time,
            state.batches@.len() == pre.batches@.len(),
            forall|j: int|
                i <= j < pre.batches@.len() ==> state.batches@[j] == pre.batches@[j],
            forall|j: int|
                0 <= j < i && (#[trigger] pre.bvs()[j]).status == BatchStatus::Completed
                    ==> state.bvs()[j] == (BatchView {
                    status: BatchStatus::Signed,
                    signed_at: Some(now_str@),
                    ..pre.bvs()[j]
                }),
            forall|j: int|
                0 <= j < i && (#[trigger] pre.bvs()[j]).status != BatchStatus::Completed
                    ==> state.batches@[j] == pre.batches@[j],
            forall|k: int|
                0 <= k < state.batches@.len() ==> (#[trigger] state.batches@[k])@.file_count
                    == state.batches@[k]@.files.len(),
            forall|k: int|
                0 <= k < state.batches@.len() ==> no_dup_files(
                    (#[trigger] state.batches@[k])@.files,
                ),
        decreases n - i,
    {
        if state.batches[i].status == BatchStatus::Completed {
            let ghost before = *state;
            let mut b = state.batches.remove(i);
            b.status = BatchStatus::Signed;
            b.signed_at = Some(now_str.clone());
            state.batches.insert(i, b);
            proof {
                assert(state.batches@ =~= before.batches@.update(i as int, b));
                assert(forall|k: int|
                    0 <= k < before.batches@.len() ==> (#[trigger] before.batches@[k])@.file_count
                        == before.batches@[k]@.files.len());
                assert(forall|k: int|
                    0 <= k < before.batches@.len() ==> no_dup_files(
                        (#[trigger] before.batches@[k])@.files,
                    ));
                assert forall|k: int|
                    0 <= k < state.batches@.len() implies (#[trigger] state.batches@[k])@.file_count
                    == state.batches@[k]@.files.len() && no_dup_files(
                    state.batches@[k]@.files) by {
                    if k != i as int {
                        assert(state.batches@[k] == before.batches@[k]);
                    } else {
                        assert(state.batches@[k]@.files == before.batches@[k]@.files);
                        assert(state.batches@[k]@.file_count == before.batches@[k]@.file_count);
                    }
                }
            }
        }
        i += 1;
    }
}

/// The predicate `clear` keeps: everything not yet signed.
pub open spec fn keeps_unsigned(b: Batch) -> bool {
    b.status != BatchStatus::Signed
}

/// Removes exactly the `Signed` batches from the store; no status changes.
pub fn clear_batches(state: &mut GlobalState)
    requires
        old(state).wf(),
    ensures
        final(state).wf(),
        final(state).batches@ == old(state).batches@.filter(|b: Batch| keeps_unsigned(b)),
        final(state).config == old(state).config,
        final(state).folder_trackers == old(state).folder_trackers,
        final(state).is_running == old(state).is_running,
        final(state).dir_count == old(state).dir_count,
        final(state).start_time == old(state).start_time,
{
    let ghost pre = *state;
    let ghost p = |b: Batch| keeps_unsigned(b);
    let ghost s = pre.batches@;
    let mut i: usize = state.batches.len();
    proof {
        assert(s.skip(i as int) =~= Seq::<Batch>::empty());
        assert(s.skip(i as int).filter(p) =~= Seq::<Batch>::empty()) by {
            reveal(Seq::filter);
        }
        assert(state.batches@ =~= s.take(i as int) + s.skip(i as int).filter(p));
    }
    while i > 0
        invariant
            pre == *old(state),
            i <= s.len(),
            state.batches@ == s.take(i as int) + s.skip(i as int).filter(p),
            state.config == pre.config,
            state.folder_trackers == pre.folder_trackers,
            state.is_running == pre.is_running,
            state.dir_count == pre.dir_count,
            state.start_time == pre.start_time,
            p == (|b: Batch| keeps_unsigned(b)),
            s == pre.batches@,
        decreases i,
    {
        i -= 1;
        proof {
            assert(s.skip(i as int) =~= seq![s[i as int]] + s.skip(i as int + 1));
            Seq::<Batch>::filter_distributes_over_add(
                seq![s[i as int]],
                s.skip(i as int + 1),
                p,
            );
            lemma_filter_push(Seq::<Batch>::empty(), p, s[i as int]);
            assert(Seq::<Batch>::empty().push(s[i as int]) =~= seq![s[i as int]]);
            assert(Seq::<Batch>::empty().filter(p) =~= Seq::<Batch>::empty()) by {
                reveal(Seq::filter);
            }
        }
        if matches!(state.batches[i].status, BatchStatus::Signed) {
            let _ = state.batches.remove(i);
            proof {
                assert(!p(s[i as int]));
                assert(seq![s[i as int]].filter(p) =~= Seq::<Batch>::empty());
                assert(state.batches@ =~= s.take(i as int) + s.skip(i as int).filter(p));
            }
        } else {
            proof {
                assert(p(s[i as int]));
                assert(seq![s[i as int]].filter(p) =~= seq![s[i as int]]);
                assert(s.take(i as int + 1) =~= s.take(i as int).push(s[i as int]));
                assert(state.batches@ =~= s.take(i as int) + s.skip(i as int).filter(p));
            }
        }
    }
    proof {
        assert(s.take(0) =~= Seq::<Batch>::empty());
        assert(s.skip(0) =~= s);
        assert(state.batches@ =~= s.filter(p));
        assert forall|k: int| 0 <= k < state.batches@.len() implies (#[trigger] state.batches@[k])@.file_count
            == state.batches@[k]@.files.len() && no_dup_files(state.batches@[k]@.files) by {
            s.lemma_filter_contains_rev(p, state.batches@[k]);
            assert(s.filter(p).contains(state.batches@[k]));
            assert(s.contains(state.batches@[k]));
            let w = choose|w: int| 0 <= w < s.len() && s[w] == state.batches@[k];
            assert(pre.batches@[w]@.file_count == pre.batches@[w]@.files.len());
            assert(no_dup_files(pre.batches@[w]@.files));
        }
        assert(state.batches@.len() <= s.len()) by {
            s.lemma_filter_len(p);
        }
    }
}

/// Empties the batch store unconditionally.
pub fn clear_all_batches(state: &mut GlobalState)
    requires
        old(state).wf(),
    ensures
        final(state).wf(),
        final(state).batches@.len() == 0,
        final(state).config == old(state).config,
        final(state).folder_trackers == old(state).folder_trackers,
        final(state).is_running == old(state).is_running,
        final(state).dir_count == old(state).dir_count,
        final(state).start_time == old(state).start_time,
{
    state.batches.clear();
}


/// The index of the tracker watching `folder`, if one is live.
fn find_tracker(ts: &Vec<FolderTracker>, folder: &String) -> (r: Option<usize>)
    ensures
        match r {
            Some(i) => i < ts@.len() && ts@[i as int]@.folder == folder@ && forall|j: int|
                0 <= j < i ==> ts@[j]@.folder != folder@,
            None => forall|j: int| 0 <= j < ts@.len() ==> ts@[j]@.folder != folder@,
        },
{
    let n = ts.len();
    let mut i: usize = 0;
    while i < n
        invariant
            n == ts@.len(),
            i <= n,
            forall|j: int| 0 <= j < i ==> ts@[j]@.folder != folder@,
        decreases n - i,
    {
        if ts[i].folder == *folder {
            return Some(i);
        }
        i += 1;
    }
    None
}

/// The index of the first batch whose id is `id`, if any.
fn find_first_batch(bs: &Vec<Batch>, id: &String) -> (r: Option<usize>)
    ensures
        match r {
            Some(i) => i < bs@.len() && bs@[i as int]@.id == id@ && forall|j: int|
                0 <= j < i ==> bs@[j]@.id != id@,
            None => forall|j: int| 0 <= j < bs@.len() ==> bs@[j]@.id != id@,
        },
{
    let n = bs.len();
    let mut i: usize = 0;
    while i < n
        invariant
            n == bs@.len(),
            i <= n,
            forall|j: int| 0 <= j < i ==> bs@[j]@.id != id@,
        decreases n - i,
    {
        if bs[i].id == *id {
            return Some(i);
        }
        i += 1;
    }
    None
}

/// A live tracker after one more qualifying event at `now`.
pub open spec fn tracker_updated(t: TrackerView, file: Seq<char>, now: u64) -> TrackerView {
    TrackerView { files: add_file(t.files, file), last_activity: now, notified_start: true, ..t }
}

/// The tracker a first qualifying event creates.
pub open spec fn new_tracker_view(
    folder: Seq<char>,
    file: Seq<char>,
    now: u64,
    now_str: Seq<char>,
    id: Seq<char>,
) -> TrackerView {
    TrackerView {
        folder: folder,
        files: seq![file],
        last_activity: now,
        started_at: now_str,
        notified_start: true,
        batch_id: id,
    }
}

/// The batch a first qualifying event creates: `Uploading`, one file.
pub open spec fn new_batch_view(
    folder: Seq<char>,
    file: Seq<char>,
    now_str: Seq<char>,
    id: Seq<char>,
) -> BatchView {
    BatchView {
        id: id,
        folder: folder,
        files: seq![file],
        status: BatchStatus::Uploading,
        started_at: now_str,
        completed_at: None,
        signed_at: None,
        file_count: 1,
    }
}

/// How the store grows on a fresh batch: inserted at the front, the tail
/// truncated to the cap, so overflow always evicts the oldest entry.
pub open spec fn store_after_insert(bs: Seq<BatchView>, b: BatchView) -> Seq<BatchView> {
    if bs.len() + 1 <= MAX_BATCHES {
        seq![b] + bs
    } else {
        (seq![b] + bs).take(MAX_BATCHES as int)
    }
}

/// The full effect of recording one qualifying `(folder, file)` event:
/// either the folder's live tracker absorbs it, or a fresh tracker and a
/// fresh `Uploading` batch appear.  `notify` says whether the caller must
/// emit the one-shot "batch started" signal.
pub open spec fn record_post(
    pre: GlobalState,
    post: GlobalState,
    folder: Seq<char>,
    file: Seq<char>,
    now: u64,
    now_str: Seq<char>,
    new_id: Seq<char>,
    notify: bool,
) -> bool {
    &&& post.config == pre.config
    &&& post.is_running == pre.is_running
    &&& post.dir_count == pre.dir_count
    &&& post.start_time == pre.start_time
    &&& if has_tracker(pre.tvs(), folder) {
        forall|i: int|
            is_tracker_at(pre.tvs(), folder, i) ==> {
                &&& notify == !pre.tvs()[i].notified_start
                &&& post.tvs() == pre.tvs().update(i, tracker_updated(pre.tvs()[i], file, now))
                &&& {
                    let bid = pre.tvs()[i].batch_id;
                    let nf = add_file(pre.tvs()[i].files, file);
                    if has_batch(pre.bvs(), bid) {
                        forall|bi: int|
                            is_first_batch(pre.bvs(), bid, bi) ==> post.bvs() == pre.bvs().update(
                                bi,
                                (BatchView {
                                    files: nf,
                                    file_count: nf.len(),
                                    ..pre.bvs()[bi]
                                }),
                            )
                    } else {
                        post.batches == pre.batches
                    }
                }
            }
    } else {
        &&& notify
        &&& post.tvs() == pre.tvs().push(new_tracker_view(folder, file, now, now_str, new_id))
        &&& post.bvs() == store_after_insert(pre.bvs(), new_batch_view(folder, file, now_str, new_id))
    }
}

/// Records one qualifying event with every external ingredient — the
/// clock readings and the fresh batch id — supplied by the caller.
pub fn record_event_at(
    state: &mut GlobalState,
    folder: &String,
    file_name: &String,
    now: u64,
    now_str: &String,
    new_id: String,
) -> (notify: bool)
    requires
        old(state).wf(),
    ensures
        final(state).wf(),
        record_post(
            *old(state),
            *final(state),
            folder@,
            file_name@,
            now,
            now_str@,
            new_id@,
            notify,
        ),
{
    let ghost pre = *state;
    match find_tracker(&state.folder_trackers, folder) {
        Some(ti) => {
            proof {
                assert(is_tracker_at(pre.tvs(), folder@, ti as int));
                assert forall|i: int| is_tracker_at(pre.tvs(), folder@, i) implies i == ti as int by {
                    if i != ti as int {
                        assert(pre.folder_trackers@[i]@.folder == pre.folder_trackers@[
                            ti as int]@.folder);
                    }
                }
            }
            let mut t = state.folder_trackers.remove(ti);
            let was_notified = t.notified_start;
            if !contains_string(&t.files, file_name) {
                t.files.push(file_name.clone());
            }
            t.last_activity = now;
            t.notified_start = true;
            let bid = t.batch_id.clone();
            let files_clone = clone_strings(&t.files);
            let nf_len = t.files.len();
            state.folder_trackers.insert(ti, t);
            proof {
                assert(state.folder_trackers@ =~= pre.folder_trackers@.update(ti as int, t));
                assert(t@.files =~= add_file(pre.tvs()[ti as int].files, file_name@));
                assert(t@ == tracker_updated(pre.tvs()[ti as int], file_name@, now));
                assert(state.tvs() =~= pre.tvs().update(
                    ti as int,
                    tracker_updated(pre.tvs()[ti as int], file_name@, now),
                ));
            }
            match find_first_batch(&state.batches, &bid) {
                Some(bi) => {
                    proof {
                        assert(is_first_batch(pre.bvs(), t@.batch_id, bi as int));
                        assert forall|k: int| is_first_batch(pre.bvs(), t@.batch_id, k) implies k
                            == bi as int by {}
                    }
                    let mut b = state.batches.remove(bi);
                    b.files = files_clone;
                    b.file_count = nf_len;
                    state.batches.insert(bi, b);
                    proof {
                        assert(state.batches@ =~= pre.batches@.update(bi as int, b));
                        assert(b@ == (BatchView {
                            files: add_file(pre.tvs()[ti as int].files, file_name@),
                            file_count: add_file(pre.tvs()[ti as int].files, file_name@).len(),
                            ..pre.bvs()[bi as int]
                        }));
                        assert(state.bvs() =~= pre.bvs().update(
                            bi as int,
                            (BatchView {
                                files: add_file(pre.tvs()[ti as int].files, file_name@),
                                file_count: add_file(pre.tvs()[ti as int].files, file_name@).len(),
                                ..pre.bvs()[bi as int]
                            }),
                        ));
                        assert(has_batch(pre.bvs(), t@.batch_id));
                    }
                }
                None => {
                    proof {
                        assert(!has_batch(pre.bvs(), t@.batch_id));
                    }
                }
            }
            proof {
                assert forall|k: int|
                    0 <= k < state.batches@.len() implies (#[trigger] state.batches@[k])@.file_count
                    == state.batches@[k]@.files.len() by {}
                assert forall|i: int, j: int|
                    0 <= i < j < state.folder_trackers@.len() implies (#[trigger] state.folder_trackers@[
                    i])@.folder != (#[trigger] state.folder_trackers@[j])@.folder by {
                    assert(state.folder_trackers@[i]@.folder == pre.folder_trackers@[i]@.folder);
                    assert(state.folder_trackers@[j]@.folder == pre.folder_trackers@[j]@.folder);
                }
            }
            !was_notified
        }
        None => {
            proof {
                assert(!has_tracker(pre.tvs(), folder@));
            }
            let mut tfiles: Vec<String> = Vec::new();
            tfiles.push(file_name.clone());
            let t = FolderTracker {
                folder: folder.clone(),
                files: tfiles,
                last_activity: now,
                started_at: now_str.clone(),
                notified_start: true,
                batch_id: new_id.clone(),
            };
            state.folder_trackers.push(t);
            let mut bfiles: Vec<String> = Vec::new();
            bfiles.push(file_name.clone());
            let b = Batch {
                id: new_id,
                folder: folder.clone(),
                files: bfiles,
                status: BatchStatus::Uploading,
                started_at: now_str.clone(),
                completed_at: None,
                signed_at: None,
                file_count: 1,
            };
            state.batches.insert(0, b);
            if state.batches.len() > MAX_BATCHES {
                state.batches.truncate(MAX_BATCHES);
            }
            proof {
                assert(t@.files =~= seq![file_name@]);
                assert(t@ == new_tracker_view(folder@, file_name@, now, now_str@, new_id@));
                assert(state.tvs() =~= pre.tvs().push(
                    new_tracker_view(folder@, file_name@, now, now_str@, new_id@),
                ));
                assert(b@.files =~= seq![file_name@]);
                assert(b@ == new_batch_view(folder@, file_name@, now_str@, new_id@));
                assert(state.bvs() =~= store_after_insert(
                    pre.bvs(),
                    new_batch_view(folder@, file_name@, now_str@, new_id@),
                ));
                assert forall|k: int|
                    0 <= k < state.batches@.len() implies (#[trigger] state.batches@[k])@.file_count
                    == state.batches@[k]@.files.len() by {}
                assert forall|i: int, j: int|
                    0 <= i < j < state.folder_trackers@.len() implies (#[trigger] state.folder_trackers@[
                    i])@.folder != (#[trigger] state.folder_trackers@[j])@.folder by {}
            }
            true
        }
    }
}


/// A tracker is stale once the inactivity timeout has fully elapsed.
pub open spec fn is_stale(t: TrackerView, now: u64) -> bool {
    now >= t.last_activity + UPLOAD_COMPLETE_TIMEOUT
}

/// `folder` belongs to a live tracker that is stale at `now`.
pub open spec fn due_entry_ok(ts: Seq<TrackerView>, folder: Seq<char>, now: u64) -> bool {
    exists|i: int| is_tracker_at(ts, folder, i) && is_stale(ts[i], now)
}

/// Some entry of `r` names `folder`.
pub open spec fn lists_folder(r: Seq<String>, folder: Seq<char>) -> bool {
    exists|k: int| 0 <= k < r.len() && r[k]@ == folder
}

/// The folders whose trackers have been idle for the timeout at `now`, in
/// tracker order: exactly these are due to be completed this tick.
pub fn completion_due(state: &GlobalState, now: u64) -> (r: Vec<String>)
    requires
        state.wf(),
    ensures
        r.deep_view() == state.tvs().filter(|t: TrackerView| is_stale(t, now)).map_values(
            |t: TrackerView| t.folder,
        ),
        forall|k: int| 0 <= k < r@.len() ==> due_entry_ok(state.tvs(), (#[trigger] r@[k])@, now),
        forall|i: int|
            0 <= i < state.tvs().len() && is_stale(#[trigger] state.tvs()[i], now)
                ==> lists_folder(r@, state.tvs()[i].folder),
{
    let ghost p = |t: TrackerView| is_stale(t, now);
    let ghost f = |t: TrackerView| t.folder;
    let n = state.folder_trackers.len();
    let mut r: Vec<String> = Vec::new();
    let mut i: usize = 0;
    proof {
        assert(tracker_views(state.folder_trackers@.take(0)) =~= Seq::<TrackerView>::empty());
        assert(Seq::<TrackerView>::empty().filter(p) =~= Seq::<TrackerView>::empty()) by {
            reveal(Seq::filter);
        }
        assert(r.deep_view() =~= tracker_views(state.folder_trackers@.take(0)).filter(p).map_values(f));
    }
    while i < n
        invariant
            n == state.folder_trackers@.len(),
            i <= n,
            p == (|t: TrackerView| is_stale(t, now)),
            f == (|t: TrackerView| t.folder),
            r.deep_view() == tracker_views(state.folder_trackers@.take(i as int)).filter(p).map_values(f),
        decreases n - i,
    {
        let ghost tv = state.folder_trackers@[i as int]@;
        let ghost taken = tracker_views(state.folder_trackers@.take(i as int));
        proof {
            assert(tracker_views(state.folder_trackers@.take(i as int + 1)) =~= taken.push(tv));
            lemma_filter_push(taken, p, tv);
            assert(taken.filter(p).push(tv).map_values(f) =~= taken.filter(p).map_values(f).push(
                f(tv),
            ));
        }
        let la = state.folder_trackers[i].last_activity;
        if now >= la && now - la >= UPLOAD_COMPLETE_TIMEOUT {
            r.push(state.folder_trackers[i].folder.clone());
            proof {
                assert(is_stale(tv, now));
                assert(r.deep_view() =~= taken.filter(p).map_values(f).push(tv.folder));
            }
        } else {
            proof {
                assert(!is_stale(tv, now));
            }
        }
        i += 1;
    }
    proof {
        assert(state.folder_trackers@.take(n as int) =~= state.folder_trackers@);
        assert forall|k: int|
            0 <= k < r@.len() implies due_entry_ok(state.tvs(), (#[trigger] r@[k])@, now) by {
            assert(r.deep_view()[k] == r@[k]@);
            assert(r.deep_view()[k] == state.tvs().filter(p).map_values(f)[k]);
            assert(r@[k]@ == f(state.tvs().filter(p)[k]));
            state.tvs().lemma_filter_pred(p, k);
            state.tvs().lemma_filter_contains_rev(p, state.tvs().filter(p)[k]);
            let i = choose|i: int|
                0 <= i < state.tvs().len() && state.tvs()[i] == state.tvs().filter(p)[k];
            assert(is_tracker_at(state.tvs(), r@[k]@, i) && is_stale(state.tvs()[i], now));
        }
        assert forall|i: int|
            0 <= i < state.tvs().len() && is_stale(#[trigger] state.tvs()[i], now) implies
            lists_folder(r@, state.tvs()[i].folder) by {
            state.tvs().lemma_filter_contains(p, i);
            assert(state.tvs().filter(p).contains(state.tvs()[i]));
            let k = choose|k: int|
                0 <= k < state.tvs().filter(p).len() && state.tvs().filter(p)[k] == state.tvs()[i];
            assert(r.deep_view()[k] == f(state.tvs().filter(p)[k]));
            assert(r.deep_view()[k] == r@[k]@);
            assert(0 <= k < r@.len() && r@[k]@ == state.tvs()[i].folder);
        }
    }
    r
}

/// The full effect of finalizing one folder: its tracker, if any, is
/// removed, and the batch it was building becomes `Completed` with the
/// tracker's final file set frozen in.  Without a live tracker nothing
/// changes at all.
pub open spec fn complete_post(
    pre: GlobalState,
    post: GlobalState,
    folder: Seq<char>,
    now_str: Seq<char>,
    r: bool,
) -> bool {
    &&& r == has_tracker(pre.tvs(), folder)
    &&& (!r ==> post == pre)
    &&& (r ==> {
        &&& post.config == pre.config
        &&& post.is_running == pre.is_running
        &&& post.dir_count == pre.dir_count
        &&& post.start_time == pre.start_time
        &&& forall|i: int|
            is_tracker_at(pre.tvs(), folder, i) ==> {
                &&& post.tvs() == pre.tvs().remove(i)
                &&& {
                    let t = pre.tvs()[i];
                    if has_batch(pre.bvs(), t.batch_id) {
                        forall|bi: int|
                            is_first_batch(pre.bvs(), t.batch_id, bi) ==> post.bvs()
                                == pre.bvs().update(
                                bi,
                                (BatchView {
                                    status: BatchStatus::Completed,
                                    completed_at: Some(now_str),
                                    files: t.files,
                                    file_count: t.files.len(),
                                    ..pre.bvs()[bi]
                                }),
                            )
                    } else {
                        post.batches == pre.batches
                    }
                }
            }
    })
}

/// Finalizes one folder's session at the given wall-clock stamp.
pub fn complete_folder_at(state: &mut GlobalState, folder: &String, now_str: &String) -> (r: bool)
    requires
        old(state).wf(),
    ensures
        final(state).wf(),
        complete_post(*old(state), *final(state), folder@, now_str@, r),
{
    let ghost pre = *state;
    match find_tracker(&state.folder_trackers, folder) {
        Some(ti) => {
            proof {
                assert(is_tracker_at(pre.tvs(), folder@, ti as int));
                assert forall|i: int| is_tracker_at(pre.tvs(), folder@, i) implies i == ti as int by {
                    if i != ti as int {
                        assert(pre.folder_trackers@[i]@.folder == pre.folder_trackers@[
                            ti as int]@.folder);
                    }
                }
            }
            let t = state.folder_trackers.remove(ti);
            proof {
                assert(state.tvs() =~= pre.tvs().remove(ti as int));
            }
            match find_first_batch(&state.batches, &t.batch_id) {
                Some(bi) => {
                    proof {
                        assert(is_first_batch(pre.bvs(), t@.batch_id, bi as int));
                    }
                    let mut b = state.batches.remove(bi);
                    b.status = BatchStatus::Completed;
                    b.completed_at = Some(now_str.clone());
                    b.files = clone_strings(&t.files);
                    b.file_count = t.files.len();
                    state.batches.insert(bi, b);
                    proof {
                        assert(state.batches@ =~= pre.batches@.update(bi as int, b));
                        assert(b@ == (BatchView {
                            status: BatchStatus::Completed,
                            completed_at: Some(now_str@),
                            files: pre.tvs()[ti as int].files,
                            file_count: pre.tvs()[ti as int].files.len(),
                            ..pre.bvs()[bi as int]
                        }));
                        assert(state.bvs() =~= pre.bvs().update(
                            bi as int,
                            (BatchView {
                                status: BatchStatus::Completed,
                                completed_at: Some(now_str@),
                                files: pre.tvs()[ti as int].files,
                                file_count: pre.tvs()[ti as int].files.len(),
                                ..pre.bvs()[bi as int]
                            }),
                        ));
                        assert(has_batch(pre.bvs(), t@.batch_id));
                    }
                }
                None => {
                    proof {
                        assert(!has_batch(pre.bvs(), t@.batch_id));
                    }
                }
            }
            proof {
                assert forall|k: int|
                    0 <= k < state.batches@.len() implies (#[trigger] state.batches@[k])@.file_count
                    == state.batches@[k]@.files.len() by {}
                assert forall|i: int, j: int|
                    0 <= i < j < state.folder_trackers@.len() implies (#[trigger] state.folder_trackers@[
                    i])@.folder != (#[trigger] state.folder_trackers@[j])@.folder by {
                    let si = if i < ti as int { i } else { i + 1 };
                    let sj = if j < ti as int { j } else { j + 1 };
                    assert(state.folder_trackers@[i] == pre.folder_trackers@[si]);
                    assert(state.folder_trackers@[j] == pre.folder_trackers@[sj]);
                }
            }
            true
        }
        None => {
            proof {
                assert(!has_tracker(pre.tvs(), folder@));
            }
            false
        }
    }
}

/// How many batches of `bs` are in status `st`.
pub open spec fn count_with_status(bs: Seq<BatchView>, st: BatchStatus) -> int {
    bs.filter(|b: BatchView| b.status == st).len() as int
}

/// The aggregate snapshot handed to the command surface.
pub struct AppState {
    pub is_running: bool,
    pub batches: Vec<Batch>,
    pub unsigned_count: i32,
    pub uploading_count: i32,
    pub dir_count: i32,
    pub start_time: String,
}

/// A deep copy of one batch record.
pub fn clone_batch(b: &Batch) -> (r: Batch)
    ensures
        r@ == b@,
{
    let r = Batch {
        id: b.id.clone(),
        folder: b.folder.clone(),
        files: clone_strings(&b.files),
        status: b.status,
        started_at: b.started_at.clone(),
        completed_at: clone_opt_string(&b.completed_at),
        signed_at: clone_opt_string(&b.signed_at),
        file_count: b.file_count,
    };
    r
}

/// A deep copy of the configuration.
pub fn clone_config(c: &AppConfig) -> (r: AppConfig)
    ensures
        r@ == c@,
{
    AppConfig {
        watch_folder: c.watch_folder.clone(),
        file_types: clone_strings(&c.file_types),
        watch_subdirs: c.watch_subdirs,
        sound_enabled: c.sound_enabled,
        ignore_folders: clone_strings(&c.ignore_folders),
        save_history: c.save_history,
    }
}

/// The active configuration, copied out for the caller.
pub fn get_config(state: &GlobalState) -> (r: AppConfig)
    ensures
        r@ == state.config@,
{
    clone_config(&state.config)
}

/// A snapshot of the whole engine: the batch list copied out, with the
/// counts of `Completed` (awaiting signature) and `Uploading` batches.
pub fn get_state(state: &GlobalState) -> (r: AppState)
    requires
        state.wf(),
    ensures
        r.is_running == state.is_running,
        batch_views(r.batches@) == state.bvs(),
        r.unsigned_count == count_with_status(state.bvs(), BatchStatus::Completed),
        r.uploading_count == count_with_status(state.bvs(), BatchStatus::Uploading),
        r.dir_count == state.dir_count,
        r.start_time == state.start_time,
{
    let ghost pc = |b: BatchView| b.status == BatchStatus::Completed;
    let ghost pu = |b: BatchView| b.status == BatchStatus::Uploading;
    let n = state.batches.len();
    let mut batches: Vec<Batch> = Vec::new();
    let mut unsigned: usize = 0;
    let mut uploading: usize = 0;
    let mut i: usize = 0;
    proof {
        assert(batch_views(state.batches@.take(0)) =~= Seq::<BatchView>::empty());
        assert(Seq::<BatchView>::empty().filter(pc) =~= Seq::<BatchView>::empty()) by {
            reveal(Seq::filter);
        }
        assert(Seq::<BatchView>::empty().filter(pu) =~= Seq::<BatchView>::empty()) by {
            reveal(Seq::filter);
        }
        assert(batch_views(batches@) =~= batch_views(state.batches@.take(0)));
    }
    while i < n
        invariant
            state.wf(),
            n == state.batches@.len(),
            i <= n,
            pc == (|b: BatchView| b.status == BatchStatus::Completed),
            pu == (|b: BatchView| b.status == BatchStatus::Uploading),
            batch_views(batches@) == batch_views(state.batches@.take(i as int)),
            unsigned == batch_views(state.batches@.take(i as int)).filter(pc).len(),
            uploading == batch_views(state.batches@.take(i as int)).filter(pu).len(),
            unsigned <= i,
            uploading <= i,
        decreases n - i,
    {
        let ghost bv = state.batches@[i as int]@;
        let ghost taken = batch_views(state.batches@.take(i as int));
        proof {
            assert(batch_views(state.batches@.take(i as int + 1)) =~= taken.push(bv));
            lemma_filter_push(taken, pc, bv);
            lemma_filter_push(taken, pu, bv);
        }
        let b = clone_batch(&state.batches[i]);
        match b.status {
            BatchStatus::Completed => {
                unsigned += 1;
            },
            BatchStatus::Uploading => {
                uploading += 1;
            },
            BatchStatus::Signed => {},
        }
        batches.push(b);
        proof {
            assert(batch_views(batches@) =~= taken.push(bv));
        }
        i += 1;
    }
    proof {
        assert(state.batches@.take(n as int) =~= state.batches@);
    }
    AppState {
        is_running: state.is_running,
        batches,
        unsigned_count: unsigned as i32,
        uploading_count: uploading as i32,
        dir_count: state.dir_count,
        start_time: state.start_time.clone(),
    }
}


/// Records one qualifying event now: reads the clocks and, for a fresh
/// folder, draws a new batch id, then applies the exact transition of
/// [`record_event_at`].  Whatever the clocks and the id generator
/// returned, the transition below holds of it; whether to emit the
/// one-shot "batch started" signal does not depend on them at all.
pub fn record_event(state: &mut GlobalState, folder: &String, file_name: &String) -> (notify:
    bool)
    requires
        old(state).wf(),
    ensures
        final(state).wf(),
        exists|now: u64, now_str: Seq<char>, new_id: Seq<char>|
            record_post(
                *old(state),
                *final(state),
                folder@,
                file_name@,
                now,
                now_str,
                new_id,
                notify,
            ),
        notify == (!has_tracker(old(state).tvs(), folder@) || exists|i: int|
            is_tracker_at(old(state).tvs(), folder@, i) && !old(state).tvs()[i].notified_start),
{
    let ghost pre = *state;
    let now = now_secs();
    let now_str = local_now_stamp();
    let new_id = new_batch_id();
    let r = record_event_at(state, folder, file_name, now, &now_str, new_id);
    proof {
        assert(record_post(pre, *state, folder@, file_name@, now, now_str@, new_id@, r));
        if has_tracker(pre.tvs(), folder@) {
            let w = choose|i: int| is_tracker_at(pre.tvs(), folder@, i);
            assert(is_tracker_at(pre.tvs(), folder@, w));
            assert(r == !pre.tvs()[w].notified_start);
            if r {
                assert(is_tracker_at(pre.tvs(), folder@, w) && !pre.tvs()[w].notified_start);
            } else {
                assert forall|i: int|
                    is_tracker_at(pre.tvs(), folder@, i) implies pre.tvs()[i].notified_start by {
                    if i != w {
                        assert(pre.folder_trackers@[i]@.folder == pre.folder_trackers@[w]@.folder);
                    }
                }
            }
        }
    }
    r
}

/// Finalizes one folder at the current wall-clock time.
pub fn complete_folder(state: &mut GlobalState, folder: &String) -> (r: bool)
    requires
        old(state).wf(),
    ensures
        final(state).wf(),
        r == has_tracker(old(state).tvs(), folder@),
        exists|now_str: Seq<char>| complete_post(*old(state), *final(state), folder@, now_str, r),
{
    let now_str = local_now_stamp();
    complete_folder_at(state, folder, &now_str)
}

/// Signs one batch at the current wall-clock time.
pub fn sign_batch(state: &mut GlobalState, batch_id: &String) -> (r: bool)
    requires
        old(state).wf(),
    ensures
        final(state).wf(),
        r == has_signable(old(state).bvs(), batch_id@),
        !r ==> *final(state) == *old(state),
        exists|now_str: Seq<char>| sign_post(*old(state), *final(state), batch_id@, now_str, r),
{
    let now_str = local_now_stamp();
    sign_batch_at(state, batch_id, now_str)
}

/// Signs every `Completed` batch at the current wall-clock time.
pub fn sign_all_batches(state: &mut GlobalState)
    requires
        old(state).wf(),
    ensures
        final(state).wf(),
        exists|now_str: Seq<char>| sign_all_post(*old(state), *final(state), now_str),
{
    let now_str = local_now_stamp();
    sign_all_batches_at(state, &now_str);
}

/// Flips the engine to running with the current clock time of day — an
/// 8-character `HH:MM:SS` stamp — as the session's start stamp.
pub fn mark_started_now(state: &mut GlobalState)
    requires
        old(state).wf(),
        !old(state).is_running,
    ensures
        final(state).wf(),
        final(state).is_running,
        final(state).dir_count == 1,
        final(state).start_time@.len() == 8,
        final(state).config == old(state).config,
        final(state).batches == old(state).batches,
        final(state).folder_trackers == old(state).folder_trackers,
{
    let st = local_now_hms();
    mark_started(state, st);
}


/// The distinct names of `v`, first appearances kept in order.
fn dedup_files(v: &Vec<String>) -> (r: Vec<String>)
    ensures
        r.deep_view() == files_after(v.deep_view()),
        no_dup_files(r.deep_view()),
{
    let n = v.len();
    let mut r: Vec<String> = Vec::new();
    let mut i: usize = 0;
    proof {
        assert(v.deep_view().take(0) =~= Seq::<Seq<char>>::empty());
        assert(r.deep_view() =~= files_after(v.deep_view().take(0)));
    }
    while i < n
        invariant
            n == v@.len(),
            i <= n,
            r.deep_view() == files_after(v.deep_view().take(i as int)),
            no_dup_files(r.deep_view()),
        decreases n - i,
    {
        let ghost taken = v.deep_view().take(i as int);
        proof {
            assert(v.deep_view().take(i as int + 1).drop_last() =~= taken);
            assert(v.deep_view().take(i as int + 1).last() == v.deep_view()[i as int]);
            lemma_add_file_no_dup(files_after(taken), v.deep_view()[i as int]);
        }
        if !contains_string(&r, &v[i]) {
            r.push(v[i].clone());
            proof {
                assert(r.deep_view() =~= files_after(taken).push(v.deep_view()[i as int]));
            }
        }
        proof {
            assert(r.deep_view() =~= add_file(files_after(taken), v.deep_view()[i as int]));
        }
        i += 1;
    }
    proof {
        assert(v.deep_view().take(n as int) =~= v.deep_view());
    }
    r
}

/// Restores a saved batch list into the store: the list is capped to the
/// first `MAX_BATCHES` entries, and each record's file names are reduced
/// to their distinct first appearances with the derived count re-taken
/// from them — so the engine's invariant holds whatever was read back.
pub fn restore_batches(state: &mut GlobalState, batches: Vec<Batch>)
    requires
        old(state).wf(),
    ensures
        final(state).wf(),
        final(state).config == old(state).config,
        final(state).folder_trackers == old(state).folder_trackers,
        final(state).is_running == old(state).is_running,
        final(state).dir_count == old(state).dir_count,
        final(state).start_time == old(state).start_time,
        final(state).batches@.len() == (if batches@.len() <= MAX_BATCHES {
            batches@.len() as int
        } else {
            MAX_BATCHES as int
        }),
        forall|i: int|
            0 <= i < final(state).batches@.len() ==> final(state).bvs()[i] == (BatchView {
                files: files_after(batches@[i]@.files),
                file_count: files_after(batches@[i]@.files).len(),
                ..batches@[i]@
            }),
{
    let ghost given = batches@;
    let mut v = batches;
    if v.len() > MAX_BATCHES {
        v.truncate(MAX_BATCHES);
    }
    let n = v.len();
    let mut out: Vec<Batch> = Vec::new();
    let mut i: usize = 0;
    while i < n
        invariant
            n == v@.len(),
            n == (if given.len() <= MAX_BATCHES {
                given.len() as int
            } else {
                MAX_BATCHES as int
            }),
            forall|j: int| 0 <= j < n ==> v@[j] == given[j],
            i <= n,
            out@.len() == i,
            forall|j: int|
                0 <= j < i ==> (#[trigger] out@[j])@ == (BatchView {
                    files: files_after(given[j]@.files),
                    file_count: files_after(given[j]@.files).len(),
                    ..given[j]@
                }),
            forall|j: int|
                0 <= j < i ==> no_dup_files((#[trigger] out@[j])@.files),
        decreases n - i,
    {
        let files = dedup_files(&v[i].files);
        let fc = files.len();
        let b = Batch {
            id: v[i].id.clone(),
            folder: v[i].folder.clone(),
            files,
            status: v[i].status,
            started_at: v[i].started_at.clone(),
            completed_at: clone_opt_string(&v[i].completed_at),
            signed_at: clone_opt_string(&v[i].signed_at),
            file_count: fc,
        };
        out.push(b);
        i += 1;
    }
    state.batches = out;
}

} // verus!
