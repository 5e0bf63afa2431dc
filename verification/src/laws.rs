//! The engine's cross-cutting guarantees, stated and proved once over the
//! transition predicates that the operations' own contracts use.

use vstd::prelude::*;
use crate::batch::{
    add_file, files_after, has_batch, has_tracker, is_first_batch, is_tracker_at, TrackerView,
    MAX_BATCHES,
};
use crate::engine::{
    GlobalState, complete_post, is_stale, new_batch_view, record_post, sign_post, store_after_insert,
    tracker_updated,
};

verus! {

/// For any sequence of qualifying events for one folder, the accumulated
/// file set holds exactly the distinct file names among them — duplicates
/// and ordering notwithstanding — and holds each at most once.
pub proof fn lemma_files_are_the_distinct_names(events: Seq<Seq<char>>)
    ensures
        forall|f: Seq<char>| #[trigger] files_after(events).contains(f) <==> events.contains(f),
        forall|i: int, j: int|
            0 <= i < j < files_after(events).len() ==> files_after(events)[i] != files_after(
                events,
            )[j],
    decreases events.len(),
{
    if events.len() > 0 {
        let rest = events.drop_last();
        let x = events.last();
        let prev = files_after(rest);
        let cur = files_after(events);
        lemma_files_are_the_distinct_names(rest);
        assert forall|f: Seq<char>| #[trigger] cur.contains(f) implies events.contains(f) by {
            if prev.contains(f) {
                assert(rest.contains(f));
                let w = choose|w: int| 0 <= w < rest.len() && rest[w] == f;
                assert(events[w] == f);
            } else {
                let w = choose|w: int| 0 <= w < cur.len() && cur[w] == f;
                assert(cur == prev.push(x));
                assert(f == x);
                assert(events[events.len() - 1] == f);
            }
        }
        assert forall|f: Seq<char>| events.contains(f) implies #[trigger] cur.contains(f) by {
            let w = choose|w: int| 0 <= w < events.len() && events[w] == f;
            if w < events.len() - 1 {
                assert(rest[w] == f);
                assert(rest.contains(f));
                assert(prev.contains(f));
                if prev.contains(x) {
                    assert(cur == prev);
                } else {
                    let v = choose|v: int| 0 <= v < prev.len() && prev[v] == f;
                    assert(cur[v] == f);
                }
            } else {
                assert(f == x);
                if prev.contains(x) {
                    assert(cur == prev);
                } else {
                    assert(cur == prev.push(x));
                    assert(cur[cur.len() - 1] == x);
                }
            }
        }
        assert forall|i: int, j: int|
            0 <= i < j < cur.len() implies cur[i] != cur[j] by {
            if !prev.contains(x) {
                assert(cur == prev.push(x));
                if j == cur.len() - 1 {
                    assert(cur[j] == x);
                    assert(cur[i] == prev[i]);
                    assert(prev.contains(prev[i]));
                }
            }
        }
    }
}

/// After any recorded event for a folder, that folder's tracker exists
/// and carries its one-shot start flag.
pub proof fn lemma_record_sets_notified(
    pre: GlobalState,
    post: GlobalState,
    folder: Seq<char>,
    file: Seq<char>,
    now: u64,
    now_str: Seq<char>,
    new_id: Seq<char>,
    notify: bool,
)
    requires
        pre.wf(),
        record_post(pre, post, folder, file, now, now_str, new_id, notify),
    ensures
        has_tracker(post.tvs(), folder),
        forall|i: int| is_tracker_at(post.tvs(), folder, i) ==> post.tvs()[i].notified_start,
{
    if has_tracker(pre.tvs(), folder) {
        let w = choose|w: int| is_tracker_at(pre.tvs(), folder, w);
        assert(is_tracker_at(pre.tvs(), folder, w));
        assert(post.tvs() == pre.tvs().update(w, tracker_updated(pre.tvs()[w], file, now)));
        assert(post.tvs()[w].folder == folder);
        assert(is_tracker_at(post.tvs(), folder, w));
        assert forall|i: int| is_tracker_at(post.tvs(), folder, i) implies post.tvs()[
            i].notified_start by {
            if i != w {
                assert(pre.tvs()[i].folder == folder);
                assert(pre.folder_trackers@[i]@.folder == pre.folder_trackers@[w]@.folder);
            }
        }
    } else {
        let k = pre.tvs().len() as int;
        assert(post.tvs()[k].folder == folder);
        assert(is_tracker_at(post.tvs(), folder, k));
        assert forall|i: int| is_tracker_at(post.tvs(), folder, i) implies post.tvs()[
            i].notified_start by {
            if i != k {
                assert(0 <= i < pre.tvs().len());
                assert(pre.tvs()[i].folder == folder);
                assert(is_tracker_at(pre.tvs(), folder, i));
                assert(has_tracker(pre.tvs(), folder));
            }
        }
    }
}

/// "Batch started" fires exactly once over a batch's lifetime: the event
/// that creates the tracker reports it, and every further event recorded
/// while that tracker lives reports nothing.
pub proof fn lemma_started_once(
    pre: GlobalState,
    mid: GlobalState,
    post: GlobalState,
    folder: Seq<char>,
    f1: Seq<char>,
    f2: Seq<char>,
    n1: u64,
    s1: Seq<char>,
    id1: Seq<char>,
    n2: u64,
    s2: Seq<char>,
    id2: Seq<char>,
    notify1: bool,
    notify2: bool,
)
    requires
        pre.wf(),
        record_post(pre, mid, folder, f1, n1, s1, id1, notify1),
        record_post(mid, post, folder, f2, n2, s2, id2, notify2),
        !has_tracker(pre.tvs(), folder),
    ensures
        notify1,
        !notify2,
{
    lemma_record_sets_notified(pre, mid, folder, f1, n1, s1, id1, notify1);
    let w = choose|w: int| is_tracker_at(mid.tvs(), folder, w);
    assert(is_tracker_at(mid.tvs(), folder, w));
    assert(mid.tvs()[w].notified_start);
    assert(notify2 == !mid.tvs()[w].notified_start);
}

/// The batch store never exceeds its cap, and when a fresh batch lands in
/// a full store it is the oldest entry — the last, in this newest-first
/// order — that goes.
pub proof fn lemma_store_bounded(
    pre: GlobalState,
    post: GlobalState,
    folder: Seq<char>,
    file: Seq<char>,
    now: u64,
    now_str: Seq<char>,
    new_id: Seq<char>,
    notify: bool,
)
    requires
        pre.wf(),
        record_post(pre, post, folder, file, now, now_str, new_id, notify),
        !has_tracker(pre.tvs(), folder),
    ensures
        post.bvs().len() <= MAX_BATCHES,
        pre.bvs().len() < MAX_BATCHES ==> post.bvs() == seq![
            new_batch_view(folder, file, now_str, new_id),
        ] + pre.bvs(),
        pre.bvs().len() == MAX_BATCHES ==> post.bvs() == seq![
            new_batch_view(folder, file, now_str, new_id),
        ] + pre.bvs().drop_last(),
{
    let b = new_batch_view(folder, file, now_str, new_id);
    assert(post.bvs() == store_after_insert(pre.bvs(), b));
    if pre.bvs().len() == MAX_BATCHES {
        assert((seq![b] + pre.bvs()).take(MAX_BATCHES as int) =~= seq![b] + pre.bvs().drop_last());
    }
}

/// A folder is listed for completion exactly when it has a live tracker
/// whose inactivity has reached the timeout.
pub proof fn lemma_due_iff_stale(ts: Seq<TrackerView>, now: u64, f: Seq<char>)
    ensures
        ts.filter(|t: TrackerView| is_stale(t, now)).map_values(|t: TrackerView| t.folder)
            .contains(f) <==> exists|i: int|
            is_tracker_at(ts, f, i) && is_stale(ts[i], now),
{
    let p = |t: TrackerView| is_stale(t, now);
    let m = |t: TrackerView| t.folder;
    let due = ts.filter(p).map_values(m);
    if due.contains(f) {
        let k = choose|k: int| 0 <= k < due.len() && due[k] == f;
        assert(due[k] == m(ts.filter(p)[k]));
        ts.lemma_filter_pred(p, k);
        ts.lemma_filter_contains_rev(p, ts.filter(p)[k]);
        let i = choose|i: int| 0 <= i < ts.len() && ts[i] == ts.filter(p)[k];
        assert(is_tracker_at(ts, f, i) && is_stale(ts[i], now));
    }
    if exists|i: int| is_tracker_at(ts, f, i) && is_stale(ts[i], now) {
        let i = choose|i: int| is_tracker_at(ts, f, i) && is_stale(ts[i], now);
        ts.lemma_filter_contains(p, i);
        assert(ts.filter(p).contains(ts[i]));
        let k = choose|k: int| 0 <= k < ts.filter(p).len() && ts.filter(p)[k] == ts[i];
        assert(due[k] == f);
        assert(due.contains(f));
    }
}

/// Signing an id none of whose batches is currently `Completed` fails and
/// leaves the whole state, every status with it, unchanged.
pub proof fn lemma_sign_non_completed_is_noop(
    pre: GlobalState,
    post: GlobalState,
    id: Seq<char>,
    now_str: Seq<char>,
    r: bool,
)
    requires
        sign_post(pre, post, id, now_str, r),
        forall|i: int|
            0 <= i < pre.bvs().len() && (#[trigger] pre.bvs()[i]).id == id ==> pre.bvs()[i].status
                != crate::batch::BatchStatus::Completed,
    ensures
        !r,
        post == pre,
{
}

/// Completing a folder without a live tracker changes nothing; with one,
/// the tracker is gone afterwards, so no second completion can fire for
/// the same batch.
pub proof fn lemma_complete_removes_tracker(
    pre: GlobalState,
    post: GlobalState,
    folder: Seq<char>,
    now_str: Seq<char>,
    r: bool,
)
    requires
        pre.wf(),
        complete_post(pre, post, folder, now_str, r),
    ensures
        r == has_tracker(pre.tvs(), folder),
        !has_tracker(post.tvs(), folder),
{
    if r {
        let w = choose|w: int| is_tracker_at(pre.tvs(), folder, w);
        assert(is_tracker_at(pre.tvs(), folder, w));
        assert(post.tvs() == pre.tvs().remove(w));
        assert forall|i: int| 0 <= i < post.tvs().len() implies post.tvs()[i].folder != folder by {
            let si = if i < w {
                i
            } else {
                i + 1
            };
            assert(post.tvs()[i] == pre.tvs()[si]);
            if si != w {
                assert(pre.folder_trackers@[si]@.folder != pre.folder_trackers@[w]@.folder || si
                    == w);
            }
        }
    } else {
        assert(post == pre);
        assert forall|i: int| 0 <= i < post.tvs().len() implies post.tvs()[i].folder != folder by {
            assert(!is_tracker_at(pre.tvs(), folder, i));
        }
    }
}


/// A chain of recorded events, all for one folder: `states` are the
/// engine states before and after each event, `files[k]` the file name of
/// the `k`-th event, and each step is one `record_post` transition.
pub open spec fn records_chain(
    states: Seq<GlobalState>,
    folder: Seq<char>,
    files: Seq<Seq<char>>,
    nows: Seq<u64>,
    strs: Seq<Seq<char>>,
    ids: Seq<Seq<char>>,
    notifies: Seq<bool>,
) -> bool {
    &&& states.len() == files.len() + 1
    &&& nows.len() == files.len()
    &&& strs.len() == files.len()
    &&& ids.len() == files.len()
    &&& notifies.len() == files.len()
    &&& forall|k: int|
        #![trigger files[k]]
        0 <= k < files.len() ==> record_post(
            states[k],
            states[k + 1],
            folder,
            files[k],
            nows[k],
            strs[k],
            ids[k],
            notifies[k],
        )
    &&& forall|k: int| 0 <= k < states.len() ==> (#[trigger] states[k]).wf()
}

/// For any sequence of qualifying events delivered for one folder while
/// its tracker lives — starting from a state without one — the tracker's
/// file set afterwards is the `add_file` fold of the events: by
/// [`lemma_files_are_the_distinct_names`], exactly the distinct file
/// names across those events, in first-appearance order.
pub proof fn lemma_chain_accumulates_the_events(
    states: Seq<GlobalState>,
    folder: Seq<char>,
    files: Seq<Seq<char>>,
    nows: Seq<u64>,
    strs: Seq<Seq<char>>,
    ids: Seq<Seq<char>>,
    notifies: Seq<bool>,
)
    requires
        records_chain(states, folder, files, nows, strs, ids, notifies),
        files.len() >= 1,
        !has_tracker(states[0].tvs(), folder),
    ensures
        has_tracker(states.last().tvs(), folder),
        forall|i: int|
            is_tracker_at(states.last().tvs(), folder, i) ==> states.last().tvs()[i].files
                == files_after(files),
    decreases files.len(),
{
    let n = files.len() as int;
    let last = states.last();
    if files.len() == 1 {
        assert(record_post(states[0], states[1], folder, files[0], nows[0], strs[0], ids[0], notifies[0]));
        let k = states[0].tvs().len() as int;
        assert(last == states[1]);
        assert(last.tvs() == states[0].tvs().push(
            crate::engine::new_tracker_view(folder, files[0], nows[0], strs[0], ids[0]),
        ));
        assert(last.tvs()[k].folder == folder);
        assert(is_tracker_at(last.tvs(), folder, k));
        assert(files_after(files) =~= seq![files[0]]) by {
            assert(files.drop_last().len() == 0);
            assert(files_after(files.drop_last()) =~= Seq::<Seq<char>>::empty());
            assert(!Seq::<Seq<char>>::empty().contains(files[0]));
        }
        assert forall|i: int| is_tracker_at(last.tvs(), folder, i) implies last.tvs()[i].files
            == files_after(files) by {
            if i != k {
                assert(states[0].tvs()[i].folder == folder);
                assert(is_tracker_at(states[0].tvs(), folder, i));
            }
            assert(last.tvs()[k].files =~= seq![files[0]]);
        }
    } else {
        let pstates = states.drop_last();
        let pfiles = files.drop_last();
        assert forall|k: int|
            0 <= k < pfiles.len() implies #[trigger] record_post(
            pstates[k],
            pstates[k + 1],
            folder,
            pfiles[k],
            nows.drop_last()[k],
            strs.drop_last()[k],
            ids.drop_last()[k],
            notifies.drop_last()[k],
        ) by {
            assert(pstates[k] == states[k]);
            assert(pstates[k + 1] == states[k + 1]);
            assert(record_post(states[k], states[k + 1], folder, files[k], nows[k], strs[k],
                ids[k], notifies[k]));
        }
        lemma_chain_accumulates_the_events(
            pstates,
            folder,
            pfiles,
            nows.drop_last(),
            strs.drop_last(),
            ids.drop_last(),
            notifies.drop_last(),
        );
        let mid = pstates.last();
        assert(mid == states[n - 1]);
        assert(record_post(states[n - 1], states[n], folder, files[n - 1], nows[n - 1],
            strs[n - 1], ids[n - 1], notifies[n - 1]));
        assert(has_tracker(mid.tvs(), folder));
        let w = choose|w: int| is_tracker_at(mid.tvs(), folder, w);
        assert(is_tracker_at(mid.tvs(), folder, w));
        assert(mid.tvs()[w].files == files_after(pfiles));
        assert(last.tvs() == mid.tvs().update(
            w,
            tracker_updated(mid.tvs()[w], files[n - 1], nows[n - 1]),
        ));
        assert(last.tvs()[w].folder == folder);
        assert(is_tracker_at(last.tvs(), folder, w));
        assert(last.tvs()[w].files == add_file(files_after(pfiles), files[n - 1]));
        assert(files_after(files) == add_file(files_after(pfiles), files[n - 1]));
        assert(mid.wf());
        assert forall|i: int| is_tracker_at(last.tvs(), folder, i) implies last.tvs()[i].files
            == files_after(files) by {
            if i != w {
                assert(mid.tvs()[i].folder == folder);
                assert(mid.folder_trackers@[i]@.folder == mid.folder_trackers@[w]@.folder);
            }
        }
    }
}


/// Over a whole chain of recorded events for one folder — the first of
/// which creates the tracker — the "batch started" signal is reported on
/// that first event and on no other: exactly once per batch lifetime.
pub proof fn lemma_chain_starts_once(
    states: Seq<GlobalState>,
    folder: Seq<char>,
    files: Seq<Seq<char>>,
    nows: Seq<u64>,
    strs: Seq<Seq<char>>,
    ids: Seq<Seq<char>>,
    notifies: Seq<bool>,
)
    requires
        records_chain(states, folder, files, nows, strs, ids, notifies),
        files.len() >= 1,
        !has_tracker(states[0].tvs(), folder),
    ensures
        notifies[0],
        forall|k: int| 1 <= k < notifies.len() ==> !(#[trigger] notifies[k]),
{
    assert(record_post(states[0], states[1], folder, files[0], nows[0], strs[0], ids[0],
        notifies[0]));
    assert forall|k: int| 1 <= k < notifies.len() implies !(#[trigger] notifies[k]) by {
        assert(record_post(states[k - 1], states[k], folder, files[k - 1], nows[k - 1],
            strs[k - 1], ids[k - 1], notifies[k - 1]));
        assert(record_post(states[k], states[k + 1], folder, files[k], nows[k], strs[k], ids[k],
            notifies[k]));
        assert(states[k - 1].wf());
        lemma_record_sets_notified(states[k - 1], states[k], folder, files[k - 1], nows[k - 1],
            strs[k - 1], ids[k - 1], notifies[k - 1]);
        let w = choose|w: int| is_tracker_at(states[k].tvs(), folder, w);
        assert(is_tracker_at(states[k].tvs(), folder, w));
        assert(states[k].tvs()[w].notified_start);
        assert(notifies[k] == !states[k].tvs()[w].notified_start);
    }
}


/// Two event sequences with the same file names — duplicates and order
/// aside — leave the same file set, viewed as a set.
pub proof fn lemma_same_names_same_set(e1: Seq<Seq<char>>, e2: Seq<Seq<char>>)
    requires
        forall|f: Seq<char>| #[trigger] e1.contains(f) <==> e2.contains(f),
    ensures
        forall|f: Seq<char>|
            #[trigger] files_after(e1).contains(f) <==> files_after(e2).contains(f),
{
    lemma_files_are_the_distinct_names(e1);
    lemma_files_are_the_distinct_names(e2);
}

/// Over a whole chain of recorded events for one folder — the first of
/// which creates the tracker and its paired batch — the batch paired with
/// the live tracker exists in the store, still first under its id, with
/// `files` equal to the distinct file names of the events in
/// first-appearance order and `file_count` equal to their number.
pub proof fn lemma_chain_updates_the_batch(
    states: Seq<GlobalState>,
    folder: Seq<char>,
    files: Seq<Seq<char>>,
    nows: Seq<u64>,
    strs: Seq<Seq<char>>,
    ids: Seq<Seq<char>>,
    notifies: Seq<bool>,
)
    requires
        records_chain(states, folder, files, nows, strs, ids, notifies),
        files.len() >= 1,
        !has_tracker(states[0].tvs(), folder),
    ensures
        has_tracker(states.last().tvs(), folder),
        forall|i: int|
            is_tracker_at(states.last().tvs(), folder, i) ==> states.last().tvs()[i].batch_id
                == ids[0],
        has_batch(states.last().bvs(), ids[0]),
        forall|bi: int|
            is_first_batch(states.last().bvs(), ids[0], bi) ==> {
                &&& states.last().bvs()[bi].folder == folder
                &&& states.last().bvs()[bi].files == files_after(files)
                &&& states.last().bvs()[bi].file_count == files_after(files).len()
            },
    decreases files.len(),
{
    let n = files.len() as int;
    let last = states.last();
    lemma_chain_accumulates_the_events(states, folder, files, nows, strs, ids, notifies);
    if files.len() == 1 {
        assert(record_post(states[0], states[1], folder, files[0], nows[0], strs[0], ids[0],
            notifies[0]));
        let k = states[0].tvs().len() as int;
        let b = crate::engine::new_batch_view(folder, files[0], strs[0], ids[0]);
        assert(last == states[1]);
        assert(last.tvs() == states[0].tvs().push(
            crate::engine::new_tracker_view(folder, files[0], nows[0], strs[0], ids[0]),
        ));
        assert(is_tracker_at(last.tvs(), folder, k));
        assert forall|i: int| is_tracker_at(last.tvs(), folder, i) implies last.tvs()[i].batch_id
            == ids[0] by {
            if i != k {
                assert(is_tracker_at(states[0].tvs(), folder, i));
            }
        }
        assert(last.bvs() == crate::engine::store_after_insert(states[0].bvs(), b));
        assert(last.bvs()[0] == b);
        assert(has_batch(last.bvs(), ids[0]));
        assert(files_after(files) =~= seq![files[0]]) by {
            assert(files.drop_last().len() == 0);
            assert(files_after(files.drop_last()) =~= Seq::<Seq<char>>::empty());
        }
        assert forall|bi: int| is_first_batch(last.bvs(), ids[0], bi) implies {
            &&& last.bvs()[bi].folder == folder
            &&& last.bvs()[bi].files == files_after(files)
            &&& last.bvs()[bi].file_count == files_after(files).len()
        } by {
            assert(last.bvs()[0].id == ids[0]);
            assert(bi == 0);
            assert(b.files =~= seq![files[0]]);
        }
    } else {
        let pstates = states.drop_last();
        let pfiles = files.drop_last();
        assert forall|k: int|
            #![trigger pfiles[k]]
            0 <= k < pfiles.len() implies record_post(
            pstates[k],
            pstates[k + 1],
            folder,
            pfiles[k],
            nows.drop_last()[k],
            strs.drop_last()[k],
            ids.drop_last()[k],
            notifies.drop_last()[k],
        ) by {
            assert(pstates[k] == states[k]);
            assert(pstates[k + 1] == states[k + 1]);
            assert(files[k] == pfiles[k]);
            assert(record_post(states[k], states[k + 1], folder, files[k], nows[k], strs[k],
                ids[k], notifies[k]));
        }
        lemma_chain_updates_the_batch(
            pstates,
            folder,
            pfiles,
            nows.drop_last(),
            strs.drop_last(),
            ids.drop_last(),
            notifies.drop_last(),
        );
        lemma_chain_accumulates_the_events(
            pstates,
            folder,
            pfiles,
            nows.drop_last(),
            strs.drop_last(),
            ids.drop_last(),
            notifies.drop_last(),
        );
        let mid = pstates.last();
        assert(mid == states[n - 1]);
        assert(ids.drop_last()[0] == ids[0]);
        assert(record_post(states[n - 1], states[n], folder, files[n - 1], nows[n - 1],
            strs[n - 1], ids[n - 1], notifies[n - 1]));
        assert(mid.wf());
        let w = choose|w: int| is_tracker_at(mid.tvs(), folder, w);
        assert(is_tracker_at(mid.tvs(), folder, w));
        assert(mid.tvs()[w].batch_id == ids[0]);
        assert(mid.tvs()[w].files == files_after(pfiles));
        let nf = add_file(mid.tvs()[w].files, files[n - 1]);
        assert(nf == files_after(files));
        assert(last.tvs() == mid.tvs().update(
            w,
            tracker_updated(mid.tvs()[w], files[n - 1], nows[n - 1]),
        ));
        assert(is_tracker_at(last.tvs(), folder, w));
        assert forall|i: int| is_tracker_at(last.tvs(), folder, i) implies last.tvs()[i].batch_id
            == ids[0] by {
            if i != w {
                assert(mid.tvs()[i].folder == folder);
                assert(mid.folder_trackers@[i]@.folder == mid.folder_trackers@[w]@.folder);
            }
        }
        let bw = choose|bw: int| 0 <= bw < mid.bvs().len() && mid.bvs()[bw].id == ids[0];
        assert(0 <= bw < mid.bvs().len() && mid.bvs()[bw].id == ids[0]);
        assert(exists|bf: int| is_first_batch(mid.bvs(), ids[0], bf)) by {
            lemma_first_batch_exists(mid.bvs(), ids[0], bw);
        }
        let bi = choose|bf: int| is_first_batch(mid.bvs(), ids[0], bf);
        assert(is_first_batch(mid.bvs(), ids[0], bi));
        assert(mid.bvs()[bi].folder == folder);
        assert(last.bvs() == mid.bvs().update(
            bi,
            (crate::batch::BatchView {
                files: nf,
                file_count: nf.len(),
                ..mid.bvs()[bi]
            }),
        ));
        assert(forall|j: int| 0 <= j < last.bvs().len() ==> (#[trigger] last.bvs()[j]).id
            == mid.bvs()[j].id);
        assert(last.bvs()[bi].id == ids[0]);
        assert(has_batch(last.bvs(), ids[0]));
        assert forall|b2: int| is_first_batch(last.bvs(), ids[0], b2) implies b2 == bi by {
            if b2 < bi {
                assert(mid.bvs()[b2].id == ids[0]);
            }
            if b2 > bi {
                assert(last.bvs()[bi].id == ids[0]);
            }
        }
        assert(last.bvs()[bi].folder == folder);
        assert(last.bvs()[bi].files == files_after(files));
        assert(last.bvs()[bi].file_count == files_after(files).len());
    }
}

/// A first index exists wherever any index matches.
proof fn lemma_first_batch_exists(bs: Seq<crate::batch::BatchView>, id: Seq<char>, w: int)
    requires
        0 <= w < bs.len(),
        bs[w].id == id,
    ensures
        exists|bf: int| is_first_batch(bs, id, bf),
    decreases w,
{
    if forall|j: int| 0 <= j < w ==> (#[trigger] bs[j]).id != id {
        assert(is_first_batch(bs, id, w));
    } else {
        let v = choose|v: int| 0 <= v < w && (#[trigger] bs[v]).id == id;
        lemma_first_batch_exists(bs, id, v);
    }
}

} // verus!
