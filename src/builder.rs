//! The cache reconciler: the stages of building a cache from the fetched
//! lists, and of reconciling an existing cache with what is on disk.
//!
//! Each stage is a function on plain values; reading directories, fetching
//! lists, probing items and writing files happen between the stages.
use vstd::prelude::*;

use crate::blacklist::{
    lemma_appended_entry_is_loaded, load_optional_blacklists, merged, plain_field, Blacklist, BlacklistEntry, EntryError, LoadError,
};
use crate::cache::{entry_of, remove_downloaded_entries, still_to_download, Cache, CacheEntry, PlatformVideo};
use crate::index::{build_approximate_index, names_index, ApproximateIndex};
use crate::text::str_eq;

verus! {

broadcast use vstd::string::group_string_axioms;

/// A list found in the tree: the directory holding its marker file, relative
/// to the sync root, and the URL the marker names.
#[derive(Debug)]
pub struct ListReference {
    pub sync_dir: String,
    pub url: String,
}

/// What was read from one sync directory before any list is fetched.
#[derive(Debug)]
pub struct DirFiles {
    pub dir: String,
    /// The automatic blacklist's content, `None` if the file is missing.
    pub auto_blacklist: Option<String>,
    /// The hand-kept blacklist's content, `None` if the file is missing.
    pub custom_blacklist: Option<String>,
    /// Names of the regular files under the directory.
    pub filenames: Vec<String>,
}

/// A sync directory's blacklist and approximate index.
#[derive(Debug)]
pub struct SyncDirState {
    pub dir: String,
    pub blacklist: Blacklist,
    pub index: ApproximateIndex,
}

/// Decodes a directory's two blacklists and indexes its files.
pub fn prepare_sync_dir(files: DirFiles) -> (r: Result<SyncDirState, LoadError>)
    ensures
        match r {
            Ok(st) => {
                &&& st.dir == files.dir
                &&& merged(seq![files.auto_blacklist, files.custom_blacklist]) == Ok::<_, (int, (int, EntryError))>(st.blacklist@)
                &&& st.index@ == names_index(files.filenames@.map_values(|n: String| n@))
            },
            Err(e) => merged(seq![files.auto_blacklist, files.custom_blacklist]) == Err::<Seq<(Seq<char>, Seq<char>)>, _>(
                (e.file as int, (e.error.line as int, e.error.cause)),
            ),
        },
{
    let DirFiles { dir, auto_blacklist, custom_blacklist, filenames } = files;
    let contents = vec![auto_blacklist, custom_blacklist];
    assert(contents@ == seq![files.auto_blacklist, files.custom_blacklist]);
    let blacklist = match load_optional_blacklists(&contents) {
        Ok(b) => b,
        Err(e) => {
            return Err(e);
        },
    };
    let index = build_approximate_index(&filenames);
    Ok(SyncDirState { dir, blacklist, index })
}

/// The position of the first directory named `dir`.
pub open spec fn first_named(names: Seq<Seq<char>>, dir: Seq<char>) -> Option<int> {
    if exists|i: int| 0 <= i < names.len() && names[i] == dir {
        Some(choose|i: int| 0 <= i < names.len() && names[i] == dir && forall|j: int| 0 <= j < i ==> names[j] != dir)
    } else {
        None
    }
}

pub proof fn lemma_first_named(names: Seq<Seq<char>>, dir: Seq<char>)
    ensures
        first_named(names, dir) matches Some(k) ==> 0 <= k < names.len() && names[k] == dir && forall|j: int| 0 <= j < k ==> names[j] != dir,
        first_named(names, dir) is None ==> forall|i: int| 0 <= i < names.len() ==> names[i] != dir,
{
    if exists|i: int| 0 <= i < names.len() && names[i] == dir {
        let i = choose|i: int| 0 <= i < names.len() && names[i] == dir;
        lemma_first_exists(names, dir, i);
    }
}

proof fn lemma_first_exists(names: Seq<Seq<char>>, dir: Seq<char>, i: int)
    requires
        0 <= i < names.len(),
        names[i] == dir,
    ensures
        exists|c: int| 0 <= c < names.len() && names[c] == dir && forall|j: int| 0 <= j < c ==> names[j] != dir,
    decreases i,
{
    if exists|j: int| 0 <= j < i && names[j] == dir {
        let j = choose|j: int| 0 <= j < i && names[j] == dir;
        lemma_first_exists(names, dir, j);
    } else {
        assert(forall|j: int| 0 <= j < i ==> names[j] != dir);
    }
}

pub open spec fn dir_names(ds: Seq<SyncDirState>) -> Seq<Seq<char>> {
    ds.map_values(|s: SyncDirState| s.dir@)
}

/// An item is known when its directory's blacklist holds it or its
/// directory's index holds its id.
pub open spec fn known(ds: Seq<SyncDirState>, v: PlatformVideo) -> bool {
    match first_named(dir_names(ds), v.sync_dir@) {
        Some(k) => ds[k].blacklist@.contains((v.raw.ie_key@, v.id@)) || ds[k].index@.contains(v.id@),
        None => false,
    }
}

/// The items neither blacklisted nor already on disk, in their order.
pub open spec fn unknown_videos(vs: Seq<PlatformVideo>, ds: Seq<SyncDirState>) -> Seq<PlatformVideo> {
    vs.filter(|v: PlatformVideo| !known(ds, v))
}

fn find_dir(dirs: &Vec<SyncDirState>, dir: &str) -> (r: Option<usize>)
    ensures
        r matches Some(i) ==> first_named(dir_names(dirs@), dir@) == Some(i as int) && i < dirs@.len(),
        r is None ==> first_named(dir_names(dirs@), dir@) is None,
{
    let ghost names = dir_names(dirs@);
    let mut i: usize = 0;
    while i < dirs.len()
        invariant
            i <= dirs@.len(),
            names == dir_names(dirs@),
            forall|j: int| 0 <= j < i ==> names[j] != dir@,
        decreases dirs.len() - i,
    {
        if str_eq(dirs[i].dir.as_str(), dir) {
            assert(names[i as int] == dir@);
            assert forall|k: int| 0 <= k < names.len() && names[k] == dir@ && (forall|j: int| 0 <= j < k ==> names[j] != dir@) implies k == i by {
                if k > i {
                    assert(names[i as int] == dir@);
                }
            }
            return Some(i);
        }
        i = i + 1;
    }
    assert forall|j: int| 0 <= j < names.len() implies names[j] != dir@ by {}
    None
}

/// Drops the items that are blacklisted for their directory or whose id is
/// in their directory's index.
pub fn filter_known_videos(videos: Vec<PlatformVideo>, dirs: &Vec<SyncDirState>) -> (r: Vec<PlatformVideo>)
    ensures
        r@ == unknown_videos(videos@, dirs@),
{
    let ghost vs = videos@;
    let mut kept: Vec<PlatformVideo> = Vec::new();
    assert(vs.take(0) =~= seq![]);
    proof {
        reveal(Seq::filter);
    }
    for v in it: videos.into_iter()
        invariant
            it.seq() == vs,
            kept@ == vs.take(it.index() as int).filter(|v: PlatformVideo| !known(dirs@, v)),
    {
        let ghost i = it.index();
        assert(vs.take(i + 1).drop_last() == vs.take(i as int));
        assert(v == vs[i as int]);
        let is_known = match find_dir(dirs, v.sync_dir.as_str()) {
            Some(k) => dirs[k].blacklist.is_blacklisted(v.raw.ie_key.as_str(), v.id.as_str()) || dirs[k].index.contains(v.id.as_str()),
            None => false,
        };
        assert(is_known == known(dirs@, v));
        proof {
            reveal(Seq::filter);
        }
        if !is_known {
            kept.push(v);
        }
    }
    assert(vs.take(vs.len() as int) == vs);
    kept
}

/// An item passes its probe unless it needed one and the probe failed.
pub open spec fn passes_probe(v: PlatformVideo, probe: bool) -> bool {
    !v.needs_checking || probe
}

/// The items that pass their probes, `ps[i]` being the outcome for `vs[i]`.
pub open spec fn available(vs: Seq<PlatformVideo>, ps: Seq<bool>) -> Seq<PlatformVideo>
    decreases vs.len(),
{
    if vs.len() == 0 {
        seq![]
    } else {
        let rest = available(vs.drop_last(), ps.take(vs.len() - 1));
        if passes_probe(vs.last(), ps[vs.len() - 1]) {
            rest.push(vs.last())
        } else {
            rest
        }
    }
}

/// Directory and blacklist entry of each item whose probe failed.
pub open spec fn rejected(vs: Seq<PlatformVideo>, ps: Seq<bool>) -> Seq<(Seq<char>, (Seq<char>, Seq<char>))>
    decreases vs.len(),
{
    if vs.len() == 0 {
        seq![]
    } else {
        let rest = rejected(vs.drop_last(), ps.take(vs.len() - 1));
        if passes_probe(vs.last(), ps[vs.len() - 1]) {
            rest
        } else {
            rest.push((vs.last().sync_dir@, (vs.last().raw.ie_key@, vs.last().id@)))
        }
    }
}

pub open spec fn rejection_view(p: (String, BlacklistEntry)) -> (Seq<char>, (Seq<char>, Seq<char>)) {
    (p.0@, p.1@)
}

/// Splits the items by their probe outcomes: those kept, and the blacklist
/// entries, with their directory, of those whose probe failed. `probes[i]`
/// is the outcome for `videos[i]`; it is not read for items that need no
/// probe.
pub fn apply_availability(videos: Vec<PlatformVideo>, probes: &Vec<bool>) -> (r: (Vec<PlatformVideo>, Vec<(String, BlacklistEntry)>))
    requires
        probes@.len() == videos@.len(),
    ensures
        r.0@ == available(videos@, probes@),
        r.1@.map_values(|p: (String, BlacklistEntry)| rejection_view(p)) == rejected(videos@, probes@),
{
    let ghost vs = videos@;
    let mut kept: Vec<PlatformVideo> = Vec::new();
    let mut gone: Vec<(String, BlacklistEntry)> = Vec::new();
    assert(vs.take(0) =~= seq![]);
    assert(gone@.map_values(|p: (String, BlacklistEntry)| rejection_view(p)) =~= seq![]);
    let mut idx: usize = 0;
    let np = probes.len();
    for v in it: videos.into_iter()
        invariant
            it.seq() == vs,
            idx == it.index(),
            np == probes@.len(),
            probes@.len() == vs.len(),
            kept@ == available(vs.take(it.index() as int), probes@.take(it.index() as int)),
            gone@.map_values(|p: (String, BlacklistEntry)| rejection_view(p)) == rejected(vs.take(it.index() as int), probes@.take(it.index() as int)),
    {
        let ghost i = it.index();
        assert(vs.take(i + 1).drop_last() == vs.take(i as int));
        assert(probes@.take(i + 1).take(i as int) == probes@.take(i as int));
        assert(v == vs[i as int]);
        assert(idx < probes@.len());
        if !v.needs_checking || probes[idx] {
            kept.push(v);
        } else {
            let ghost before = gone@.map_values(|p: (String, BlacklistEntry)| rejection_view(p));
            let PlatformVideo { raw, sync_dir, id, needs_checking: _ } = v;
            let item = (sync_dir, BlacklistEntry::new(raw.ie_key, id));
            let ghost added = rejection_view(item);
            gone.push(item);
            assert(gone@.map_values(|p: (String, BlacklistEntry)| rejection_view(p)) =~= before.push(added));
        }
        idx = idx + 1;
    }
    assert(vs.take(vs.len() as int) == vs);
    assert(probes@.take(vs.len() as int) == probes@);
    (kept, gone)
}

/// The cache entries of items numbered in order from 0.
pub open spec fn numbered(vs: Seq<PlatformVideo>) -> Seq<CacheEntry> {
    Seq::new(vs.len(), |i: int| entry_of(i as usize, vs[i]))
}

/// Gives each item its ordinal, its position in `videos`; `max_index` is the
/// number of items.
pub fn assign_ordinals(videos: Vec<PlatformVideo>) -> (r: Cache)
    ensures
        r.entries@ == numbered(videos@),
        r.max_index == videos@.len(),
{
    let ghost vs = videos@;
    let n = videos.len();
    let mut entries: Vec<CacheEntry> = Vec::new();
    for v in it: videos.into_iter()
        invariant
            it.seq() == vs,
            n == vs.len(),
            entries@ == numbered(vs.take(it.index() as int)),
    {
        let i = entries.len();
        assert(v == vs[i as int]);
        entries.push(CacheEntry::indexed(i, v));
        assert(entries@ =~= numbered(vs.take(i + 1)));
    }
    assert(vs.take(vs.len() as int) == vs);
    Cache { entries, max_index: n }
}

/// Reconciles an existing cache with the directories' indexes: the cache
/// without the entries downloaded since, and whether it has to be written
/// again, which is when it lost entries.
pub fn reconcile_cache(old: Cache, indexes: &Vec<(String, ApproximateIndex)>) -> (r: (Cache, bool))
    ensures
        r.0.max_index == old.max_index,
        r.0.entries@ == still_to_download(old.entries@, indexes@),
        r.1 == (r.0.entries@.len() != old.entries@.len()),
{
    let before = old.entries.len();
    let updated = remove_downloaded_entries(old, indexes);
    let changed = updated.entries.len() != before;
    (updated, changed)
}

/// A probe outcome that depends on the item's directory, source and id.
pub open spec fn probe_of(avail: spec_fn(Seq<char>, Seq<char>, Seq<char>) -> bool, v: PlatformVideo) -> bool {
    avail(v.sync_dir@, v.raw.ie_key@, v.id@)
}

proof fn lemma_available_as_filter(
    ks: Seq<PlatformVideo>,
    ps: Seq<bool>,
    avail: spec_fn(Seq<char>, Seq<char>, Seq<char>) -> bool,
)
    requires
        ps.len() == ks.len(),
        forall|i: int| 0 <= i < ps.len() ==> ps[i] == probe_of(avail, #[trigger] ks[i]),
    ensures
        available(ks, ps) == ks.filter(|v: PlatformVideo| passes_probe(v, probe_of(avail, v))),
    decreases ks.len(),
{
    reveal(Seq::filter);
    if ks.len() > 0 {
        let n = ks.len() - 1;
        assert forall|i: int| 0 <= i < ps.take(n).len() implies ps.take(n)[i] == probe_of(avail, #[trigger] ks.drop_last()[i]) by {
            assert(ks.drop_last()[i] == ks[i]);
        }
        lemma_available_as_filter(ks.drop_last(), ps.take(n), avail);
        assert(ps[n] == probe_of(avail, ks[n]));
    }
}

proof fn lemma_filter_filter(vs: Seq<PlatformVideo>, p: spec_fn(PlatformVideo) -> bool, q: spec_fn(PlatformVideo) -> bool)
    ensures
        vs.filter(p).filter(q) == vs.filter(|v: PlatformVideo| p(v) && q(v)),
    decreases vs.len(),
{
    reveal(Seq::filter);
    if vs.len() > 0 {
        lemma_filter_filter(vs.drop_last(), p, q);
        let inner = vs.drop_last().filter(p);
        if p(vs.last()) {
            assert(inner.push(vs.last()).drop_last() == inner);
        }
    }
}

proof fn lemma_filter_ext(vs: Seq<PlatformVideo>, p: spec_fn(PlatformVideo) -> bool, q: spec_fn(PlatformVideo) -> bool)
    requires
        forall|i: int| 0 <= i < vs.len() ==> p(#[trigger] vs[i]) == q(vs[i]),
    ensures
        vs.filter(p) == vs.filter(q),
    decreases vs.len(),
{
    reveal(Seq::filter);
    if vs.len() > 0 {
        assert forall|i: int| 0 <= i < vs.drop_last().len() implies p(#[trigger] vs.drop_last()[i]) == q(vs.drop_last()[i]) by {
            assert(vs.drop_last()[i] == vs[i]);
        }
        lemma_filter_ext(vs.drop_last(), p, q);
        assert(p(vs[vs.len() - 1]) == q(vs[vs.len() - 1]));
    }
}

proof fn lemma_rejected_witness(ks: Seq<PlatformVideo>, ps: Seq<bool>, x: (Seq<char>, (Seq<char>, Seq<char>)))
    requires
        ps.len() == ks.len(),
        rejected(ks, ps).contains(x),
    ensures
        exists|i: int|
            0 <= i < ks.len() && i < ps.len() && !passes_probe(#[trigger] ks[i], ps[i]) && x == (ks[i].sync_dir@, (ks[i].raw.ie_key@, ks[i].id@)),
    decreases ks.len(),
{
    if ks.len() == 0 {
        assert(rejected(ks, ps) == Seq::<(Seq<char>, (Seq<char>, Seq<char>))>::empty());
        assert(false);
    }
    let n = ks.len() - 1;
    let rest = rejected(ks.drop_last(), ps.take(n));
    if rest.contains(x) {
        lemma_rejected_witness(ks.drop_last(), ps.take(n), x);
        let i = choose|i: int|
            0 <= i < ks.drop_last().len() && i < ps.take(n).len() && !passes_probe(#[trigger] ks.drop_last()[i], ps.take(n)[i]) && x == (ks.drop_last()[i].sync_dir@, (ks.drop_last()[i].raw.ie_key@, ks.drop_last()[i].id@));
        assert(ks.drop_last()[i] == ks[i]);
    } else {
        assert(!passes_probe(ks[n], ps[n]));
    }
}

proof fn lemma_available_from(ks: Seq<PlatformVideo>, ps: Seq<bool>)
    ensures
        forall|i: int| 0 <= i < available(ks, ps).len() ==> ks.contains(#[trigger] available(ks, ps)[i]),
    decreases ks.len(),
{
    if ks.len() > 0 {
        let n = ks.len() - 1;
        lemma_available_from(ks.drop_last(), ps.take(n));
        let rest = available(ks.drop_last(), ps.take(n));
        assert forall|i: int| 0 <= i < available(ks, ps).len() implies ks.contains(#[trigger] available(ks, ps)[i]) by {
            if i < rest.len() {
                assert(available(ks, ps)[i] == rest[i]);
                let j = choose|j: int| 0 <= j < ks.drop_last().len() && ks.drop_last()[j] == rest[i];
                assert(ks[j] == rest[i]);
            } else {
                assert(available(ks, ps)[i] == ks[n]);
            }
        }
    }
}

/// The verdict of a build on one item, before numbering.
pub open spec fn kept_by(dirs: Seq<SyncDirState>, avail: spec_fn(Seq<char>, Seq<char>, Seq<char>) -> bool, v: PlatformVideo) -> bool {
    !known(dirs, v) && passes_probe(v, probe_of(avail, v))
}

proof fn lemma_same_verdict(
    videos: Seq<PlatformVideo>,
    dirs1: Seq<SyncDirState>,
    dirs2: Seq<SyncDirState>,
    probes1: Seq<bool>,
    avail: spec_fn(Seq<char>, Seq<char>, Seq<char>) -> bool,
    i: int,
)
    requires
        0 <= i < videos.len(),
        forall|m: int|
            0 <= m < videos.len() && (#[trigger] videos[m]).raw.ie_key@ == videos[i].raw.ie_key@
                ==> videos[m].needs_checking == videos[i].needs_checking,
        dir_names(dirs2) == dir_names(dirs1),
        forall|k: int| 0 <= k < dirs1.len() ==> (#[trigger] dirs2[k]).index@ == dirs1[k].index@,
        forall|k: int, e: (Seq<char>, Seq<char>)|
            0 <= k < dirs1.len() ==> ((#[trigger] dirs2[k].blacklist@.contains(e)) <==> (dirs1[k].blacklist@.contains(e)
                || rejected(unknown_videos(videos, dirs1), probes1).contains((dirs1[k].dir@, e)))),
        probes1.len() == unknown_videos(videos, dirs1).len(),
        forall|j: int| 0 <= j < probes1.len() ==> probes1[j] == probe_of(avail, #[trigger] unknown_videos(videos, dirs1)[j]),
    ensures
        kept_by(dirs1, avail, videos[i]) == kept_by(dirs2, avail, videos[i]),
{
    let u1 = unknown_videos(videos, dirs1);
    let fresh1 = |v: PlatformVideo| !known(dirs1, v);
    let v = videos[i];
    let e = (v.raw.ie_key@, v.id@);
    assert(dirs1.len() == dir_names(dirs1).len());
    assert(dirs2.len() == dir_names(dirs2).len());
    lemma_first_named(dir_names(dirs1), v.sync_dir@);
    match first_named(dir_names(dirs1), v.sync_dir@) {
        None => {},
        Some(k) => {
            assert(dir_names(dirs1)[k] == v.sync_dir@);
            assert(dirs1[k].dir@ == v.sync_dir@);
            let rej = rejected(u1, probes1);
            if rej.contains((v.sync_dir@, e)) {
                lemma_rejected_witness(u1, probes1, (v.sync_dir@, e));
                let j = choose|j: int|
                    0 <= j < u1.len() && j < probes1.len() && !passes_probe(#[trigger] u1[j], probes1[j]) && (v.sync_dir@, e) == (u1[j].sync_dir@, (u1[j].raw.ie_key@, u1[j].id@));
                videos.lemma_filter_contains_rev(fresh1, u1[j]);
                let m = choose|m: int| 0 <= m < videos.len() && videos[m] == u1[j];
                assert(videos[m].raw.ie_key@ == videos[i].raw.ie_key@);
                assert(probes1[j] == probe_of(avail, u1[j]));
                assert(!passes_probe(v, probe_of(avail, v)));
            } else {
                assert(dirs2[k].blacklist@.contains(e) == dirs1[k].blacklist@.contains(e));
            }
        },
    }
}

/// Rebuilding is idempotent. Take a second build over the same items and the
/// same directories, with the same files on disk, whose blacklists hold what
/// they held before plus what the first build's probes rejected. If probe
/// outcomes depend on the item alone and whether an item needs a probe depends
/// on its source alone, the second build keeps exactly the items the first
/// kept, in the same order, and so numbers them the same.
pub proof fn lemma_rebuild_is_idempotent(
    videos: Seq<PlatformVideo>,
    dirs1: Seq<SyncDirState>,
    dirs2: Seq<SyncDirState>,
    probes1: Seq<bool>,
    probes2: Seq<bool>,
    avail: spec_fn(Seq<char>, Seq<char>, Seq<char>) -> bool,
)
    requires
        forall|i: int, j: int|
            0 <= i < videos.len() && 0 <= j < videos.len() && (#[trigger] videos[i]).raw.ie_key@ == (#[trigger] videos[j]).raw.ie_key@
                ==> videos[i].needs_checking == videos[j].needs_checking,
        dir_names(dirs2) == dir_names(dirs1),
        forall|k: int| 0 <= k < dirs1.len() ==> (#[trigger] dirs2[k]).index@ == dirs1[k].index@,
        forall|k: int, e: (Seq<char>, Seq<char>)|
            0 <= k < dirs1.len() ==> ((#[trigger] dirs2[k].blacklist@.contains(e)) <==> (dirs1[k].blacklist@.contains(e)
                || rejected(unknown_videos(videos, dirs1), probes1).contains((dirs1[k].dir@, e)))),
        probes1.len() == unknown_videos(videos, dirs1).len(),
        forall|i: int| 0 <= i < probes1.len() ==> probes1[i] == probe_of(avail, #[trigger] unknown_videos(videos, dirs1)[i]),
        probes2.len() == unknown_videos(videos, dirs2).len(),
        forall|i: int| 0 <= i < probes2.len() ==> probes2[i] == probe_of(avail, #[trigger] unknown_videos(videos, dirs2)[i]),
    ensures
        available(unknown_videos(videos, dirs2), probes2) == available(unknown_videos(videos, dirs1), probes1),
        numbered(available(unknown_videos(videos, dirs2), probes2)) == numbered(available(unknown_videos(videos, dirs1), probes1)),
{
    let u1 = unknown_videos(videos, dirs1);
    let u2 = unknown_videos(videos, dirs2);
    let q = |v: PlatformVideo| passes_probe(v, probe_of(avail, v));
    let fresh1 = |v: PlatformVideo| !known(dirs1, v);
    let fresh2 = |v: PlatformVideo| !known(dirs2, v);
    lemma_available_as_filter(u1, probes1, avail);
    lemma_available_as_filter(u2, probes2, avail);
    lemma_filter_filter(videos, fresh1, q);
    lemma_filter_filter(videos, fresh2, q);
    assert forall|i: int| 0 <= i < videos.len() implies (|v: PlatformVideo| fresh1(v) && q(v))(#[trigger] videos[i]) == (|v: PlatformVideo| fresh2(v) && q(v))(videos[i]) by {
        lemma_same_verdict(videos, dirs1, dirs2, probes1, avail, i);
    }
    lemma_filter_ext(videos, |v: PlatformVideo| fresh1(v) && q(v), |v: PlatformVideo| fresh2(v) && q(v));
}

/// A blacklisted pair is never kept: once `e` is in the blacklist of the
/// directory `dirs[k]`, no build keeps an item of that directory whose source
/// and id are `e`, whatever the lists hold and whatever the probes answer.
pub proof fn lemma_blacklisted_never_kept(
    videos: Seq<PlatformVideo>,
    dirs: Seq<SyncDirState>,
    probes: Seq<bool>,
    k: int,
    e: (Seq<char>, Seq<char>),
)
    requires
        0 <= k < dirs.len(),
        forall|j: int| 0 <= j < k ==> (#[trigger] dirs[j]).dir@ != dirs[k].dir@,
        dirs[k].blacklist@.contains(e),
    ensures
        forall|i: int|
            0 <= i < available(unknown_videos(videos, dirs), probes).len() ==> !(
            (#[trigger] available(unknown_videos(videos, dirs), probes)[i]).sync_dir@ == dirs[k].dir@ && (
            available(unknown_videos(videos, dirs), probes)[i].raw.ie_key@,
            available(unknown_videos(videos, dirs), probes)[i].id@,
        ) == e),
{
    let u = unknown_videos(videos, dirs);
    let a = available(u, probes);
    let p = |v: PlatformVideo| !known(dirs, v);
    lemma_available_from(u, probes);
    assert forall|i: int| 0 <= i < a.len() implies !((#[trigger] a[i]).sync_dir@ == dirs[k].dir@ && (a[i].raw.ie_key@, a[i].id@) == e) by {
        let j = choose|j: int| 0 <= j < u.len() && u[j] == a[i];
        videos.lemma_filter_pred(p, j);
        if a[i].sync_dir@ == dirs[k].dir@ {
            let names = dir_names(dirs);
            assert(names[k] == dirs[k].dir@);
            assert(first_named(names, dirs[k].dir@) == Some(k)) by {
                let c = choose|c: int| 0 <= c < names.len() && names[c] == dirs[k].dir@ && forall|j: int| 0 <= j < c ==> names[j] != dirs[k].dir@;
                if c < k {
                    assert(names[c] == dirs[c].dir@);
                } else if c > k {
                    assert(names[k] != dirs[k].dir@);
                }
            }
        }
    }
}

/// Blacklisting is final. Suppose the line `key/id` was appended, with its
/// newline, to a directory's automatic blacklist whose content was empty or
/// ended with a newline, and a later build prepares that directory from the
/// file (its preparation succeeding) as the first directory of that name.
/// Then no item of that directory with that source and id is kept, whatever
/// the lists hold and whatever the probes answer.
pub proof fn lemma_written_entry_never_cached(
    files: DirFiles,
    c: Seq<char>,
    key: Seq<char>,
    id: Seq<char>,
    videos: Seq<PlatformVideo>,
    dirs: Seq<SyncDirState>,
    probes: Seq<bool>,
    k: int,
)
    requires
        files.auto_blacklist matches Some(a) && a@ == c + (key + seq!['/'] + id) + seq!['\n'],
        plain_field(key),
        plain_field(id),
        key.len() == 0 || key[0] != '#',
        c.len() == 0 || c.last() == '\n',
        0 <= k < dirs.len(),
        dirs[k].dir == files.dir,
        merged(seq![files.auto_blacklist, files.custom_blacklist]) == Ok::<_, (int, (int, EntryError))>(dirs[k].blacklist@),
        forall|j: int| 0 <= j < k ==> (#[trigger] dirs[j]).dir@ != dirs[k].dir@,
    ensures
        forall|i: int|
            0 <= i < available(unknown_videos(videos, dirs), probes).len() ==> !(
            (#[trigger] available(unknown_videos(videos, dirs), probes)[i]).sync_dir@ == files.dir@ && (
            available(unknown_videos(videos, dirs), probes)[i].raw.ie_key@,
            available(unknown_videos(videos, dirs), probes)[i].id@,
        ) == (key, id)),
{
    lemma_appended_entry_is_loaded(seq![files.auto_blacklist, files.custom_blacklist], c, key, id);
    lemma_blacklisted_never_kept(videos, dirs, probes, k, (key, id));
}

} // verus!
