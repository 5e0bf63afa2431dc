//! The event filter: classifies a raw filesystem change into the accepted
//! `(folder, file name)` pairs, or discards it.
//!
//! A path qualifies when the change is a creation or modification of a
//! regular file, the file's extension (lower-cased, with its leading dot)
//! is on the configured allow-list — an empty list accepts everything —
//! and no configured ignore segment occurs in the path wrapped in either
//! slash convention.  Ambiguous paths (no extension, no parent) are
//! silently skipped.  Classification is pure; nothing here touches disk.

use vstd::prelude::*;
use crate::batch::contains_string;
use crate::config::{AppConfig, ConfigView};
use crate::outside::{lower_of, to_lower};

verus! {

/// The kind of a raw filesystem change, as the engine cares about it.
#[derive(Clone, Copy, Debug, PartialEq, Eq, Structural)]
pub enum EventKind {
    Create,
    Modify,
    Other,
}

/// One path of a raw change, with what only the filesystem can say about
/// it: whether it names a directory.
pub struct PathSeen {
    pub path: String,
    pub is_dir: bool,
}

/// Mathematical image of a `PathSeen`.
pub struct PathSeenView {
    pub path: Seq<char>,
    pub is_dir: bool,
}

impl View for PathSeen {
    type V = PathSeenView;

    open spec fn view(&self) -> PathSeenView {
        PathSeenView { path: self.path@, is_dir: self.is_dir }
    }
}

/// One accepted event: the folder that became active and the file seen.
pub struct AcceptedEvent {
    pub folder: String,
    pub file_name: String,
}

impl View for AcceptedEvent {
    type V = (Seq<char>, Seq<char>);

    open spec fn view(&self) -> (Seq<char>, Seq<char>) {
        (self.folder@, self.file_name@)
    }
}

/// Path separator under either slash convention.
pub open spec fn is_sep(c: char) -> bool {
    c == '/' || c == '\\'
}

/// Index of the last separator of `p`, or -1 when it has none.
pub open spec fn last_sep(p: Seq<char>) -> int
    decreases p.len(),
{
    if p.len() == 0 {
        -1
    } else if is_sep(p.last()) {
        p.len() - 1
    } else {
        last_sep(p.drop_last())
    }
}

/// Index of the last dot of `n`, or -1 when it has none.
pub open spec fn last_dot(n: Seq<char>) -> int
    decreases n.len(),
{
    if n.len() == 0 {
        -1
    } else if n.last() == '.' {
        n.len() - 1
    } else {
        last_dot(n.drop_last())
    }
}

/// `last_sep` is where a separator stands with none after it.
pub proof fn lemma_last_sep_at(p: Seq<char>, k: int)
    requires
        0 <= k < p.len(),
        is_sep(p[k]),
        forall|j: int| k < j < p.len() ==> !is_sep(p[j]),
    ensures
        last_sep(p) == k,
    decreases p.len(),
{
    if k == p.len() - 1 {
    } else {
        assert(!is_sep(p.last()));
        assert(p.drop_last()[k] == p[k]);
        assert(forall|j: int| k < j < p.drop_last().len() ==> p.drop_last()[j] == p[j]);
        lemma_last_sep_at(p.drop_last(), k);
    }
}

/// Without any separator, `last_sep` is -1.
pub proof fn lemma_last_sep_none(p: Seq<char>)
    requires
        forall|j: int| 0 <= j < p.len() ==> !is_sep(p[j]),
    ensures
        last_sep(p) == -1,
    decreases p.len(),
{
    if p.len() > 0 {
        assert(forall|j: int| 0 <= j < p.drop_last().len() ==> p.drop_last()[j] == p[j]);
        lemma_last_sep_none(p.drop_last());
    }
}

/// `last_dot` is where a dot stands with none after it.
pub proof fn lemma_last_dot_at(n: Seq<char>, k: int)
    requires
        0 <= k < n.len(),
        n[k] == '.',
        forall|j: int| k < j < n.len() ==> n[j] != '.',
    ensures
        last_dot(n) == k,
    decreases n.len(),
{
    if k == n.len() - 1 {
    } else {
        assert(n.last() != '.');
        assert(n.drop_last()[k] == n[k]);
        assert(forall|j: int| k < j < n.drop_last().len() ==> n.drop_last()[j] == n[j]);
        lemma_last_dot_at(n.drop_last(), k);
    }
}

/// Without any dot, `last_dot` is -1.
pub proof fn lemma_last_dot_none(n: Seq<char>)
    requires
        forall|j: int| 0 <= j < n.len() ==> n[j] != '.',
    ensures
        last_dot(n) == -1,
    decreases n.len(),
{
    if n.len() > 0 {
        assert(forall|j: int| 0 <= j < n.drop_last().len() ==> n.drop_last()[j] == n[j]);
        lemma_last_dot_none(n.drop_last());
    }
}

/// `last_sep` stays within `p` and names a separator when non-negative.
pub proof fn lemma_last_sep_bounds(p: Seq<char>)
    ensures
        -1 <= last_sep(p) < p.len(),
        last_sep(p) >= 0 ==> is_sep(p[last_sep(p)]),
    decreases p.len(),
{
    if p.len() > 0 && !is_sep(p.last()) {
        lemma_last_sep_bounds(p.drop_last());
    }
}

/// The path has a parent to serve as the batch's folder.
pub open spec fn has_parent(p: Seq<char>) -> bool {
    last_sep(p) >= 0
}

/// The characters after the last separator: the file's name.
pub open spec fn name_part(p: Seq<char>) -> Seq<char> {
    p.subrange(last_sep(p) + 1, p.len() as int)
}

/// The characters before the last separator: the folder — the separator
/// itself when the path sits directly under the root.
pub open spec fn folder_part(p: Seq<char>) -> Seq<char> {
    if last_sep(p) == 0 {
        p.subrange(0, 1)
    } else {
        p.subrange(0, last_sep(p))
    }
}

/// The file name carries an extension: a dot past its first character.
pub open spec fn has_ext(p: Seq<char>) -> bool {
    last_dot(name_part(p)) > 0
}

/// The raw extension: what follows the file name's last dot.
pub open spec fn ext_raw(p: Seq<char>) -> Seq<char> {
    let n = name_part(p);
    n.subrange(last_dot(n) + 1, n.len() as int)
}

/// The allow-list check: an empty list accepts everything, otherwise the
/// lower-cased extension with its leading dot must be listed.
pub open spec fn ext_allowed(types: Seq<Seq<char>>, p: Seq<char>) -> bool {
    types.len() == 0 || types.contains(seq!['.'] + lower_of(ext_raw(p)))
}

/// A segment wrapped in one separator convention, e.g. `/seg/`.
pub open spec fn wrap_seg(seg: Seq<char>, c: char) -> Seq<char> {
    seq![c] + seg + seq![c]
}

/// `needle` occurs contiguously inside `hay`.
pub open spec fn contains_seq(hay: Seq<char>, needle: Seq<char>) -> bool {
    exists|k: int|
        0 <= k <= hay.len() - needle.len() && #[trigger] hay.subrange(k, k + needle.len() as int)
            == needle
}

/// Some ignore segment occurs in `p`, wrapped in either slash convention.
/// This is the original's raw substring test, kept as such: a segment that
/// is a substring of another folder's name matches too.
pub open spec fn is_ignored(igs: Seq<Seq<char>>, p: Seq<char>) -> bool {
    exists|i: int|
        0 <= i < igs.len() && (contains_seq(p, wrap_seg(igs[i], '/')) || contains_seq(
            p,
            wrap_seg(igs[i], '\\'),
        ))
}

/// Only creations and modifications count as activity.
pub open spec fn kind_ok(k: EventKind) -> bool {
    k == EventKind::Create || k == EventKind::Modify
}

/// Every rule a single path must pass.
pub open spec fn path_accepted(cfg: ConfigView, path: Seq<char>, is_dir: bool) -> bool {
    &&& !is_dir
    &&& has_ext(path)
    &&& ext_allowed(cfg.file_types, path)
    &&& !is_ignored(cfg.ignore_folders, path)
    &&& has_parent(path)
}

/// `ps` maps each seen path to its view.
pub open spec fn path_seen_views(ps: Seq<PathSeen>) -> Seq<PathSeenView> {
    ps.map_values(|p: PathSeen| p@)
}

/// `es` maps each accepted event to its view.
pub open spec fn accepted_views(es: Seq<AcceptedEvent>) -> Seq<(Seq<char>, Seq<char>)> {
    es.map_values(|e: AcceptedEvent| e@)
}

/// What one raw change yields: nothing for an irrelevant kind, else the
/// accepted paths in order, each split into folder and file name.
pub open spec fn accepted_of(cfg: ConfigView, kind: EventKind, paths: Seq<PathSeenView>) -> Seq<
    (Seq<char>, Seq<char>),
> {
    if !kind_ok(kind) {
        Seq::empty()
    } else {
        paths.filter(|pv: PathSeenView| path_accepted(cfg, pv.path, pv.is_dir)).map_values(
            |pv: PathSeenView| (folder_part(pv.path), name_part(pv.path)),
        )
    }
}

/// The index of the last separator of `s`, scanned from the end.
fn find_last_sep(s: &str) -> (r: Option<usize>)
    ensures
        match r {
            Some(i) => i < s@.len() && last_sep(s@) == i,
            None => last_sep(s@) == -1,
        },
{
    let n = s.unicode_len();
    let mut i: usize = n;
    while i > 0
        invariant
            n == s@.len(),
            i <= n,
            forall|j: int| i <= j < n ==> !is_sep(s@[j]),
        decreases i,
    {
        i -= 1;
        let c = s.get_char(i);
        if c == '/' || c == '\\' {
            proof {
                lemma_last_sep_at(s@, i as int);
            }
            return Some(i);
        }
    }
    proof {
        lemma_last_sep_none(s@);
    }
    None
}

/// The index of the last dot of `s`, scanned from the end.
fn find_last_dot(s: &str) -> (r: Option<usize>)
    ensures
        match r {
            Some(i) => i < s@.len() && last_dot(s@) == i,
            None => last_dot(s@) == -1,
        },
{
    let n = s.unicode_len();
    let mut i: usize = n;
    while i > 0
        invariant
            n == s@.len(),
            i <= n,
            forall|j: int| i <= j < n ==> s@[j] != '.',
        decreases i,
    {
        i -= 1;
        let c = s.get_char(i);
        if c == '.' {
            proof {
                lemma_last_dot_at(s@, i as int);
            }
            return Some(i);
        }
    }
    proof {
        lemma_last_dot_none(s@);
    }
    None
}

/// Whether `needle` stands at position `k` of `hay`.
fn matches_at(hay: &str, hay_len: usize, k: usize, needle: &str, needle_len: usize) -> (r: bool)
    requires
        hay_len == hay@.len(),
        needle_len == needle@.len(),
        k + needle_len <= hay_len,
    ensures
        r == (hay@.subrange(k as int, k as int + needle@.len() as int) == needle@),
{
    let mut i: usize = 0;
    while i < needle_len
        invariant
            hay_len == hay@.len(),
            needle_len == needle@.len(),
            k + needle_len <= hay_len,
            i <= needle_len,
            forall|j: int| 0 <= j < i ==> hay@[k + j] == needle@[j],
        decreases needle_len - i,
    {
        if hay.get_char(k + i) != needle.get_char(i) {
            proof {
                assert(hay@.subrange(k as int, k as int + needle@.len() as int)[i as int]
                    != needle@[i as int]);
            }
            return false;
        }
        i += 1;
    }
    proof {
        assert(hay@.subrange(k as int, k as int + needle@.len() as int) =~= needle@);
    }
    true
}

/// Whether `needle` occurs anywhere inside `hay`.
fn contains_sub(hay: &str, needle: &str) -> (r: bool)
    ensures
        r == contains_seq(hay@, needle@),
{
    let hn = hay.unicode_len();
    let nn = needle.unicode_len();
    if nn > hn {
        proof {
            assert(hay@.len() - needle@.len() < 0);
        }
        return false;
    }
    let last = hn - nn;
    let mut k: usize = 0;
    while k < last
        invariant
            hn == hay@.len(),
            nn == needle@.len(),
            nn <= hn,
            last == hn - nn,
            k <= last,
            forall|j: int|
                0 <= j < k ==> #[trigger] hay@.subrange(j, j + needle@.len() as int) != needle@,
        decreases last - k,
    {
        if matches_at(hay, hn, k, needle, nn) {
            proof {
                assert(0 <= k as int <= hay@.len() - needle@.len());
            }
            return true;
        }
        k += 1;
    }
    if matches_at(hay, hn, last, needle, nn) {
        proof {
            assert(0 <= last as int <= hay@.len() - needle@.len());
        }
        return true;
    }
    false
}

/// A segment wrapped in the one-character separator `sep`.
fn wrap_with(seg: &String, sep: &str) -> (r: String)
    requires
        sep@.len() == 1,
    ensures
        r@ == wrap_seg(seg@, sep@[0]),
{
    let mut r = String::from_str(sep);
    r.append(seg.as_str());
    r.append(sep);
    proof {
        assert(r@ =~= wrap_seg(seg@, sep@[0]));
    }
    r
}

/// Whether any configured ignore segment occurs in `path` under either
/// slash convention.
fn ignored_exec(igs: &Vec<String>, path: &str) -> (r: bool)
    ensures
        r == is_ignored(igs.deep_view(), path@),
{
    let n = igs.len();
    let mut i: usize = 0;
    proof {
        reveal_strlit("/");
        reveal_strlit("\\");
    }
    while i < n
        invariant
            n == igs@.len(),
            forall|j: int|
                0 <= j < i ==> !contains_seq(path@, wrap_seg(igs.deep_view()[j], '/'))
                    && !contains_seq(path@, wrap_seg(igs.deep_view()[j], '\\')),
        decreases n - i,
    {
        proof {
            reveal_strlit("/");
            assert("/"@ =~= seq!['/']);
        }
        let fwd = wrap_with(&igs[i], "/");
        if contains_sub(path, fwd.as_str()) {
            proof {
                assert(contains_seq(path@, wrap_seg(igs.deep_view()[i as int], '/')));
            }
            return true;
        }
        proof {
            reveal_strlit("\\");
            assert("\\"@ =~= seq!['\\']);
        }
        let bwd = wrap_with(&igs[i], "\\");
        if contains_sub(path, bwd.as_str()) {
            proof {
                assert(contains_seq(path@, wrap_seg(igs.deep_view()[i as int], '\\')));
            }
            return true;
        }
        i += 1;
    }
    false
}

/// Classifies one path against the configuration: `Some` exactly when all
/// rules pass, carrying the folder and file name the engine records.
pub fn accept_path(config: &AppConfig, path: &str, is_dir: bool) -> (r: Option<AcceptedEvent>)
    ensures
        r.is_some() == path_accepted(config@, path@, is_dir),
        r matches Some(a) ==> a.folder@ == folder_part(path@) && a.file_name@ == name_part(path@),
{
    if is_dir {
        return None;
    }
    let n = path.unicode_len();
    let sep_opt = find_last_sep(path);
    proof {
        lemma_last_sep_bounds(path@);
    }
    let name_start: usize = match sep_opt {
        Some(i) => i + 1,
        None => 0,
    };
    let name = path.substring_char(name_start, n);
    proof {
        assert(name@ == name_part(path@));
    }
    let name_len = name.unicode_len();
    let dot_opt = find_last_dot(name);
    let dot: usize = match dot_opt {
        Some(d) => {
            if d == 0 {
                proof {
                    assert(!has_ext(path@));
                }
                return None;
            }
            d
        },
        None => {
            proof {
                assert(!has_ext(path@));
            }
            return None;
        },
    };
    let raw = name.substring_char(dot + 1, name_len);
    proof {
        assert(raw@ == ext_raw(path@));
    }
    let lowered = to_lower(raw);
    let mut ext = String::from_str(".");
    ext.append(lowered.as_str());
    proof {
        reveal_strlit(".");
        assert(ext@ =~= seq!['.'] + lower_of(ext_raw(path@)));
    }
    if !config.file_types.is_empty() && !contains_string(&config.file_types, &ext) {
        proof {
            assert(!ext_allowed(config@.file_types, path@));
        }
        return None;
    }
    if ignored_exec(&config.ignore_folders, path) {
        return None;
    }
    match sep_opt {
        Some(si) => {
            let folder = if si == 0 {
                path.substring_char(0, 1)
            } else {
                path.substring_char(0, si)
            };
            proof {
                assert(folder@ == folder_part(path@));
            }
            Some(AcceptedEvent {
                folder: String::from_str(folder),
                file_name: String::from_str(name),
            })
        },
        None => {
            proof {
                assert(!has_parent(path@));
            }
            None
        },
    }
}

/// Classifies one raw filesystem change whole: nothing for renames,
/// deletions and other irrelevant kinds, else each accepted path in
/// order, split into folder and file name.
pub fn filter_event(config: &AppConfig, kind: &EventKind, paths: &Vec<PathSeen>) -> (r: Vec<
    AcceptedEvent,
>)
    ensures
        accepted_views(r@) == accepted_of(config@, *kind, path_seen_views(paths@)),
{
    let ghost pa = |pv: PathSeenView| path_accepted(config@, pv.path, pv.is_dir);
    let ghost pf = |pv: PathSeenView| (folder_part(pv.path), name_part(pv.path));
    let mut r: Vec<AcceptedEvent> = Vec::new();
    let relevant = match kind {
        EventKind::Create => true,
        EventKind::Modify => true,
        EventKind::Other => false,
    };
    if !relevant {
        proof {
            assert(accepted_views(r@) =~= accepted_of(config@, *kind, path_seen_views(paths@)));
        }
        return r;
    }
    let n = paths.len();
    let mut i: usize = 0;
    proof {
        assert(path_seen_views(paths@.take(0)) =~= Seq::<PathSeenView>::empty());
        assert(Seq::<PathSeenView>::empty().filter(pa) =~= Seq::<PathSeenView>::empty()) by {
            reveal(Seq::filter);
        }
        assert(accepted_views(r@) =~= path_seen_views(paths@.take(0)).filter(pa).map_values(pf));
    }
    while i < n
        invariant
            n == paths@.len(),
            i <= n,
            pa == (|pv: PathSeenView| path_accepted(config@, pv.path, pv.is_dir)),
            pf == (|pv: PathSeenView| (folder_part(pv.path), name_part(pv.path))),
            accepted_views(r@) == path_seen_views(paths@.take(i as int)).filter(pa).map_values(pf),
        decreases n - i,
    {
        let ghost pv = paths@[i as int]@;
        let ghost taken = path_seen_views(paths@.take(i as int));
        proof {
            assert(path_seen_views(paths@.take(i as int + 1)) =~= taken.push(pv));
            lemma_filter_push_paths(taken, pa, pv);
            assert(taken.filter(pa).push(pv).map_values(pf) =~= taken.filter(pa).map_values(
                pf,
            ).push(pf(pv)));
        }
        match accept_path(config, paths[i].path.as_str(), paths[i].is_dir) {
            Some(a) => {
                r.push(a);
                proof {
                    assert(accepted_views(r@) =~= taken.filter(pa).map_values(pf).push(pf(pv)));
                }
            },
            None => {},
        }
        i += 1;
    }
    proof {
        assert(paths@.take(n as int) =~= paths@);
    }
    r
}

/// Filtering commutes with appending one seen path.
proof fn lemma_filter_push_paths(
    s: Seq<PathSeenView>,
    p: spec_fn(PathSeenView) -> bool,
    x: PathSeenView,
)
    ensures
        s.push(x).filter(p) == (if p(x) {
            s.filter(p).push(x)
        } else {
            s.filter(p)
        }),
{
    crate::batch::lemma_filter_push(s, p, x);
}

} // verus!
