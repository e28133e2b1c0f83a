//! The download cache: the items still to fetch, each with the ordinal it was
//! given when the full item set was known.
use vstd::prelude::*;

use crate::index::ApproximateIndex;
use crate::text::str_eq;
use crate::ytdlp::RawVideoInfos;

verus! {

broadcast use vstd::string::group_string_axioms;

/// An item of a fetched list, resolved against its source.
#[derive(Debug)]
pub struct PlatformVideo {
    pub raw: RawVideoInfos,
    /// The directory the item belongs to, relative to the sync root.
    pub sync_dir: String,
    pub id: String,
    /// Inherited from the source: probe availability before caching.
    pub needs_checking: bool,
}

/// An item still to download, with its ordinal.
#[derive(Debug)]
pub struct CacheEntry {
    pub ie_key: String,
    pub id: String,
    pub title: String,
    pub url: String,
    pub index: usize,
    pub sync_dir: String,
}

/// The entries still to download, and one more than the largest ordinal given
/// when the cache was built.
#[derive(Debug)]
pub struct Cache {
    pub entries: Vec<CacheEntry>,
    pub max_index: usize,
}

/// The entry an item becomes under a given ordinal.
pub open spec fn entry_of(index: usize, v: PlatformVideo) -> CacheEntry {
    CacheEntry {
        ie_key: v.raw.ie_key,
        id: v.id,
        title: v.raw.title,
        url: v.raw.url,
        index,
        sync_dir: v.sync_dir,
    }
}

/// One more than the largest ordinal, or 0 without entries.
pub open spec fn max_plus_one(es: Seq<CacheEntry>) -> nat
    decreases es.len(),
{
    if es.len() == 0 {
        0
    } else {
        let rest = max_plus_one(es.drop_last());
        if es.last().index + 1 > rest {
            (es.last().index + 1) as nat
        } else {
            rest
        }
    }
}

impl CacheEntry {
    pub fn indexed(index: usize, video: PlatformVideo) -> (r: Self)
        ensures
            r == entry_of(index, video),
    {
        let PlatformVideo { raw, sync_dir, id, needs_checking: _ } = video;
        let RawVideoInfos { ie_key, title, url } = raw;
        CacheEntry { ie_key, id, title, url, index, sync_dir }
    }
}

impl Cache {
    /// A cache over `entries`, its `max_index` one more than their largest
    /// ordinal.
    pub fn new(entries: Vec<CacheEntry>) -> (r: Self)
        requires
            forall|i: int| 0 <= i < entries@.len() ==> #[trigger] entries@[i].index < usize::MAX,
        ensures
            r.entries == entries,
            r.max_index == max_plus_one(entries@),
    {
        let mut max_index: usize = 0;
        let mut i: usize = 0;
        assert(entries@.take(0) =~= seq![]);
        while i < entries.len()
            invariant
                i <= entries@.len(),
                forall|i: int| 0 <= i < entries@.len() ==> #[trigger] entries@[i].index < usize::MAX,
                max_index == max_plus_one(entries@.take(i as int)),
            decreases entries.len() - i,
        {
            assert(entries@.take(i + 1).drop_last() == entries@.take(i as int));
            let candidate = entries[i].index + 1;
            if candidate > max_index {
                max_index = candidate;
            }
            i = i + 1;
        }
        assert(entries@.take(entries@.len() as int) == entries@);
        Cache { entries, max_index }
    }
}

/// The first index given for the directory `dir`, by position.
pub open spec fn index_for(indexes: Seq<(String, ApproximateIndex)>, dir: Seq<char>) -> Option<int> {
    if exists|i: int| 0 <= i < indexes.len() && indexes[i].0@ == dir {
        Some(choose|i: int| 0 <= i < indexes.len() && indexes[i].0@ == dir && forall|j: int| 0 <= j < i ==> indexes[j].0@ != dir)
    } else {
        None
    }
}

/// An entry whose id now appears in its directory's index was downloaded.
pub open spec fn downloaded(indexes: Seq<(String, ApproximateIndex)>, e: CacheEntry) -> bool {
    match index_for(indexes, e.sync_dir@) {
        Some(k) => indexes[k].1@.contains(e.id@),
        None => false,
    }
}

/// The entries not yet downloaded, in their order.
pub open spec fn still_to_download(entries: Seq<CacheEntry>, indexes: Seq<(String, ApproximateIndex)>) -> Seq<CacheEntry> {
    entries.filter(|e: CacheEntry| !downloaded(indexes, e))
}

fn find_index(indexes: &Vec<(String, ApproximateIndex)>, dir: &str) -> (r: Option<usize>)
    ensures
        r matches Some(i) ==> index_for(indexes@, dir@) == Some(i as int) && i < indexes@.len(),
        r is None ==> index_for(indexes@, dir@) is None,
{
    let mut i: usize = 0;
    while i < indexes.len()
        invariant
            i <= indexes@.len(),
            forall|j: int| 0 <= j < i ==> indexes@[j].0@ != dir@,
        decreases indexes.len() - i,
    {
        if str_eq(indexes[i].0.as_str(), dir) {
            let ghost s = indexes@;
            assert forall|k: int| 0 <= k < s.len() && s[k].0@ == dir@ && (forall|j: int| 0 <= j < k ==> s[j].0@ != dir@) implies k == i by {
                if k > i {
                    assert(s[i as int].0@ == dir@);
                }
            }
            return Some(i);
        }
        i = i + 1;
    }
    None
}

/// Drops the entries that were downloaded since the cache was built. The
/// remaining entries keep their ordinals and the cache keeps its `max_index`.
pub fn remove_downloaded_entries(from: Cache, indexes: &Vec<(String, ApproximateIndex)>) -> (r: Cache)
    ensures
        r.max_index == from.max_index,
        r.entries@ == still_to_download(from.entries@, indexes@),
{
    let Cache { entries, max_index } = from;
    let ghost es = entries@;
    let mut kept: Vec<CacheEntry> = Vec::new();
    assert(es.take(0) =~= seq![]);
    proof {
        reveal(Seq::filter);
    }
    for e in it: entries.into_iter()
        invariant
            it.seq() == es,
            kept@ == es.take(it.index() as int).filter(|e: CacheEntry| !downloaded(indexes@, e)),
    {
        let ghost i = it.index();
        assert(e == es[i as int]);
        assert(es.take(i + 1).drop_last() == es.take(i as int));
        let drop = match find_index(indexes, e.sync_dir.as_str()) {
            Some(k) => indexes[k].1.contains(e.id.as_str()),
            None => false,
        };
        proof {
            reveal(Seq::filter);
        }
        assert(drop == downloaded(indexes@, e));
        if !drop {
            kept.push(e);
        }
    }
    assert(es.take(es.len() as int) == es);
    Cache { entries: kept, max_index }
}

proof fn lemma_filter_all_pass(s: Seq<CacheEntry>, pred: spec_fn(CacheEntry) -> bool)
    requires
        forall|i: int| 0 <= i < s.len() ==> pred(#[trigger] s[i]),
    ensures
        s.filter(pred) == s,
    decreases s.len(),
{
    reveal(Seq::filter);
    if s.len() > 0 {
        lemma_filter_all_pass(s.drop_last(), pred);
        assert(s.drop_last().push(s.last()) == s);
    }
}

/// Reconciling keeps each remaining entry exactly as it was, its ordinal
/// included, keeps every entry not yet downloaded, and is idempotent: run
/// again against the same directories it removes nothing more. (That
/// `max_index` is kept is in the contract of `remove_downloaded_entries`.)
pub proof fn lemma_reconcile_keeps_ordinals(entries: Seq<CacheEntry>, indexes: Seq<(String, ApproximateIndex)>)
    ensures
        forall|e: CacheEntry|
            #[trigger] still_to_download(entries, indexes).contains(e) ==> entries.contains(e)
                && !downloaded(indexes, e),
        forall|i: int|
            0 <= i < entries.len() && !downloaded(indexes, #[trigger] entries[i])
                ==> still_to_download(entries, indexes).contains(entries[i]),
        still_to_download(still_to_download(entries, indexes), indexes) == still_to_download(entries, indexes),
{
    let pred = |e: CacheEntry| !downloaded(indexes, e);
    let kept = entries.filter(pred);
    assert forall|e: CacheEntry| #[trigger] kept.contains(e) implies entries.contains(e) && !downloaded(indexes, e) by {
        entries.lemma_filter_contains_rev(pred, e);
        let i = choose|i: int| 0 <= i < kept.len() && kept[i] == e;
        entries.lemma_filter_pred(pred, i);
    }
    assert forall|i: int| 0 <= i < entries.len() && !downloaded(indexes, #[trigger] entries[i]) implies kept.contains(entries[i]) by {
        entries.lemma_filter_contains(pred, i);
    }
    assert forall|i: int| 0 <= i < kept.len() implies pred(#[trigger] kept[i]) by {
        entries.lemma_filter_pred(pred, i);
    }
    lemma_filter_all_pass(kept, pred);
}

} // verus!
