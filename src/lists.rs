//! Turning fetched lists into items: lists are ordered by their directory,
//! case-insensitively and stably, and every item is resolved against its
//! source.
use vstd::prelude::*;

use crate::builder::ListReference;
use crate::cache::PlatformVideo;
use crate::config::{platform_named, Config};
use crate::platforms::{determine_video_id, find_platform, find_from, video_id_of, IdError, LookupError, PlatformsMatchers};
use crate::ytdlp::{RawPlaylist, RawVideoInfos};

verus! {

broadcast use vstd::string::group_string_axioms;

/// What `str::to_lowercase` gives for a text.
pub uninterp spec fn lower_of(s: Seq<char>) -> Seq<char>;

/// Relies on `str::to_lowercase`, whose result depends on the text alone.
#[verifier::external_body]
fn lowercase(s: &str) -> (r: String)
    ensures
        r@ == lower_of(s@),
{
    s.to_lowercase()
}

/// Lexicographic order by code point, the order of `String`'s comparison.
pub open spec fn text_lt(a: Seq<char>, b: Seq<char>) -> bool
    decreases a.len(),
{
    if a.len() == 0 {
        b.len() > 0
    } else if b.len() == 0 {
        false
    } else if a[0] != b[0] {
        (a[0] as u32) < (b[0] as u32)
    } else {
        text_lt(a.drop_first(), b.drop_first())
    }
}

fn text_less(a: &str, b: &str) -> (r: bool)
    ensures
        r == text_lt(a@, b@),
{
    let x = crate::text::chars_of(a);
    let y = crate::text::chars_of(b);
    let mut i: usize = 0;
    assert(a@.skip(0) == a@ && b@.skip(0) == b@);
    while i < x.len() && i < y.len() && x[i] == y[i]
        invariant
            i <= x@.len(),
            i <= y@.len(),
            x@ == a@,
            y@ == b@,
            text_lt(a@, b@) == text_lt(a@.skip(i as int), b@.skip(i as int)),
        decreases x.len() - i,
    {
        assert(a@.skip(i as int).drop_first() == a@.skip(i + 1));
        assert(b@.skip(i as int).drop_first() == b@.skip(i + 1));
        i = i + 1;
    }
    if i == x.len() {
        assert(a@.skip(i as int).len() == 0);
        i < y.len()
    } else if i == y.len() {
        assert(b@.skip(i as int).len() == 0);
        false
    } else {
        assert(a@.skip(i as int)[0] == x@[i as int]);
        assert(b@.skip(i as int)[0] == y@[i as int]);
        (x[i] as u32) < (y[i] as u32)
    }
}

pub open spec fn dir_key(l: (String, RawPlaylist)) -> Seq<char> {
    lower_of(l.0@)
}

/// Where a list goes among sorted ones: after every list whose key is not
/// greater than its own.
pub open spec fn insert_pos(sorted: Seq<(String, RawPlaylist)>, x: (String, RawPlaylist)) -> int
    decreases sorted.len(),
{
    if sorted.len() == 0 {
        0
    } else if text_lt(dir_key(x), dir_key(sorted[0])) {
        0
    } else {
        1 + insert_pos(sorted.drop_first(), x)
    }
}

/// The lists ordered by their directory, case-insensitively; lists of equal
/// keys keep their order.
pub open spec fn sorted_lists(ls: Seq<(String, RawPlaylist)>) -> Seq<(String, RawPlaylist)>
    decreases ls.len(),
{
    if ls.len() == 0 {
        ls
    } else {
        let s = sorted_lists(ls.drop_last());
        s.insert(insert_pos(s, ls.last()), ls.last())
    }
}

proof fn lemma_insert_pos(sorted: Seq<(String, RawPlaylist)>, x: (String, RawPlaylist), j: int)
    requires
        0 <= j <= sorted.len(),
        forall|i: int| 0 <= i < j ==> !text_lt(dir_key(x), dir_key(#[trigger] sorted[i])),
        j == sorted.len() || text_lt(dir_key(x), dir_key(sorted[j])),
    ensures
        insert_pos(sorted, x) == j,
    decreases j,
{
    if j > 0 {
        let rest = sorted.drop_first();
        assert forall|i: int| 0 <= i < j - 1 implies !text_lt(dir_key(x), dir_key(#[trigger] rest[i])) by {
            assert(rest[i] == sorted[i + 1]);
        }
        if j < sorted.len() {
            assert(rest[j - 1] == sorted[j]);
        }
        lemma_insert_pos(rest, x, j - 1);
        assert(!text_lt(dir_key(x), dir_key(sorted[0])));
    }
}

/// Orders fetched lists by directory, case-insensitively and stably.
pub fn sort_lists(lists: Vec<(String, RawPlaylist)>) -> (r: Vec<(String, RawPlaylist)>)
    ensures
        r@ == sorted_lists(lists@),
{
    let ghost ls = lists@;
    let mut sorted: Vec<(String, RawPlaylist)> = Vec::new();
    assert(ls.take(0) =~= seq![]);
    for item in it: lists.into_iter()
        invariant
            it.seq() == ls,
            sorted@ == sorted_lists(ls.take(it.index() as int)),
    {
        let ghost i = it.index();
        assert(ls.take(i + 1).drop_last() == ls.take(i as int));
        assert(item == ls[i as int]);
        let key = lowercase(item.0.as_str());
        let mut j: usize = 0;
        while j < sorted.len() && !text_less(key.as_str(), lowercase(sorted[j].0.as_str()).as_str())
            invariant
                j <= sorted@.len(),
                key@ == dir_key(item),
                forall|m: int| 0 <= m < j ==> !text_lt(dir_key(item), dir_key(#[trigger] sorted@[m])),
            decreases sorted.len() - j,
        {
            j = j + 1;
        }
        proof {
            lemma_insert_pos(sorted@, item, j as int);
        }
        sorted.insert(j, item);
    }
    assert(ls.take(ls.len() as int) == ls);
    sorted
}

/// Every item of the lists, in order, with its list's directory.
pub open spec fn flat_items(ls: Seq<(String, RawPlaylist)>) -> Seq<(String, RawVideoInfos)>
    decreases ls.len(),
{
    if ls.len() == 0 {
        seq![]
    } else {
        flat_items(ls.drop_last()) + ls.last().1.entries@.map_values(|e: RawVideoInfos| (ls.last().0, e))
    }
}

proof fn lemma_flat_prefix(ls: Seq<(String, RawPlaylist)>, j: int)
    requires
        0 <= j <= ls.len(),
    ensures
        flat_items(ls.take(j)).len() <= flat_items(ls).len(),
        forall|n: int| 0 <= n < flat_items(ls.take(j)).len() ==> #[trigger] flat_items(ls)[n] == flat_items(ls.take(j))[n],
    decreases ls.len() - j,
{
    if j == ls.len() {
        assert(ls.take(j) == ls);
    } else {
        lemma_flat_prefix(ls, j + 1);
        assert(ls.take(j + 1).drop_last() == ls.take(j));
        let a = flat_items(ls.take(j));
        let b = flat_items(ls.take(j + 1));
        assert forall|n: int| 0 <= n < a.len() implies #[trigger] flat_items(ls)[n] == a[n] by {
            assert(b[n] == a[n]);
        }
    }
}

proof fn lemma_failing_item(ls: Seq<(String, RawPlaylist)>, j: int, n: int, config: Config, ms: PlatformsMatchers)
    requires
        0 <= j <= ls.len(),
        0 <= n < flat_items(ls.take(j)).len(),
        !resolves(flat_items(ls.take(j))[n].1, config, ms),
    ensures
        exists|n2: int| 0 <= n2 < flat_items(ls).len() && !resolves(#[trigger] flat_items(ls)[n2].1, config, ms),
{
    lemma_flat_prefix(ls, j);
    assert(flat_items(ls)[n] == flat_items(ls.take(j))[n]);
}

/// An item resolves when its source is configured and its id can be
/// extracted from its URL.
pub open spec fn resolves(item: RawVideoInfos, config: Config, ms: PlatformsMatchers) -> bool {
    platform_named(config.platforms@, item.ie_key@) is Some && video_id_of(item.url@, item.ie_key@, ms@) is Ok
}

/// `v` is the item `(dir, item)` resolved.
pub open spec fn resolved_as(v: PlatformVideo, dir: String, item: RawVideoInfos, config: Config, ms: PlatformsMatchers) -> bool {
    &&& v.raw == item
    &&& v.sync_dir == dir
    &&& video_id_of(item.url@, item.ie_key@, ms@) == Ok::<_, IdError>(v.id@)
    &&& v.needs_checking == (config.platforms@[platform_named(config.platforms@, item.ie_key@)->0].1.dl_options.needs_checking == Some(true))
}

/// An item that could not be resolved.
#[derive(Debug)]
pub enum CollectError {
    /// No source of the configuration has the item's key.
    UnregisteredPlatform { ie_key: String, url: String },
    /// The item's id could not be extracted from its URL.
    NoVideoId { url: String, cause: IdError },
}

/// Resolves every item of the fetched lists, ordered by directory.
pub fn collect_videos(lists: Vec<(String, RawPlaylist)>, config: &Config, matchers: &PlatformsMatchers) -> (r: Result<Vec<PlatformVideo>, CollectError>)
    ensures
        r is Ok == forall|n: int| 0 <= n < flat_items(sorted_lists(lists@)).len() ==> resolves(#[trigger] flat_items(sorted_lists(lists@))[n].1, *config, *matchers),
        r matches Ok(vs) ==> {
            &&& vs@.len() == flat_items(sorted_lists(lists@)).len()
            &&& forall|n: int| 0 <= n < vs@.len() ==> resolved_as(#[trigger] vs@[n], flat_items(sorted_lists(lists@))[n].0, flat_items(sorted_lists(lists@))[n].1, *config, *matchers)
        },
        r matches Err(e) ==> exists|n: int| 0 <= n < flat_items(sorted_lists(lists@)).len() && !resolves(#[trigger] flat_items(sorted_lists(lists@))[n].1, *config, *matchers),
{
    let sorted = sort_lists(lists);
    let ghost ls = sorted@;
    let mut out: Vec<PlatformVideo> = Vec::new();
    assert(ls.take(0) =~= seq![]);
    for list in it: sorted.into_iter()
        invariant
            it.seq() == ls,
            ls == sorted_lists(lists@),
            out@.len() == flat_items(ls.take(it.index() as int)).len(),
            forall|n: int| 0 <= n < out@.len() ==> resolved_as(#[trigger] out@[n], flat_items(ls.take(it.index() as int))[n].0, flat_items(ls.take(it.index() as int))[n].1, *config, *matchers),
            forall|n: int| 0 <= n < flat_items(ls.take(it.index() as int)).len() ==> resolves(#[trigger] flat_items(ls.take(it.index() as int))[n].1, *config, *matchers),
    {
        let ghost i = it.index();
        let ghost before = flat_items(ls.take(i as int));
        assert(ls.take(i + 1).drop_last() == ls.take(i as int));
        assert(list == ls[i as int]);
        let ghost added = list.1.entries@.map_values(|e: RawVideoInfos| (list.0, e));
        assert(flat_items(ls.take(i + 1)) == before + added);
        let (dir, playlist) = list;
        let ghost base = out@.len();
        for video in jt: playlist.entries.into_iter()
            invariant
                jt.seq() == added.map_values(|p: (String, RawVideoInfos)| p.1),
                forall|m: int| 0 <= m < added.len() ==> (#[trigger] added[m]).0 == dir,
                base == before.len(),
                0 <= i < ls.len(),
                ls == sorted_lists(lists@),
                before + added == flat_items(ls.take(i + 1)),
                out@.len() == base + jt.index(),
                forall|n: int| 0 <= n < out@.len() ==> resolved_as(#[trigger] out@[n], (before + added)[n].0, (before + added)[n].1, *config, *matchers),
                forall|n: int| 0 <= n < base + jt.index() ==> resolves(#[trigger] (before + added)[n].1, *config, *matchers),
        {
            let ghost m = jt.index();
            assert((before + added)[base + m] == added[m]);
            assert(video == added[m].1);
            let k = match config.platform_index(video.ie_key.as_str()) {
                Some(k) => k,
                None => {
                    proof {
                        lemma_failing_item(ls, i + 1, base + m, *config, *matchers);
                    }
                    return Err(CollectError::UnregisteredPlatform { ie_key: video.ie_key, url: video.url });
                },
            };
            let id = match determine_video_id(&video, matchers) {
                Ok(id) => id,
                Err(cause) => {
                    proof {
                        lemma_failing_item(ls, i + 1, base + m, *config, *matchers);
                    }
                    return Err(CollectError::NoVideoId { url: video.url, cause });
                },
            };
            let needs_checking = match config.platforms[k].1.dl_options.needs_checking {
                Some(b) => b,
                None => false,
            };
            out.push(PlatformVideo { raw: video, sync_dir: dir.clone(), id, needs_checking });
        }
    }
    assert(ls.take(ls.len() as int) == ls);
    Ok(out)
}

/// Whether lists may be fetched in parallel: no list URL belongs to a
/// rate-limited source. Every list URL must belong to a source.
pub fn fetch_in_parallel(lists: &Vec<ListReference>, config: &Config, matchers: &PlatformsMatchers) -> (r: Result<bool, LookupError>)
    ensures
        r matches Ok(b) ==> {
            &&& forall|i: int| 0 <= i < lists@.len() ==> source_found(#[trigger] lists@[i], *config, *matchers)
            &&& b == forall|i: int| 0 <= i < lists@.len() ==> !(#[trigger] rate_limited_list(lists@[i], *config, *matchers))
        },
        r is Err ==> exists|i: int| 0 <= i < lists@.len() && !(source_found(#[trigger] lists@[i], *config, *matchers)),
{
    let mut parallel = true;
    let mut i: usize = 0;
    while i < lists.len()
        invariant
            i <= lists@.len(),
            forall|j: int| 0 <= j < i ==> source_found(#[trigger] lists@[j], *config, *matchers),
            parallel == forall|j: int| 0 <= j < i ==> !(#[trigger] rate_limited_list(lists@[j], *config, *matchers)),
        decreases lists.len() - i,
    {
        let found = match find_platform(lists[i].url.as_str(), config, matchers) {
            Ok(f) => f,
            Err(e) => {
                return Err(e);
            },
        };
        let limited = match config.platforms[found.platform_index].1.dl_options.rate_limited {
            Some(b) => b,
            None => false,
        };
        assert(rate_limited_list(lists@[i as int], *config, *matchers) == limited);
        assert(source_found(lists@[i as int], *config, *matchers));
        if limited {
            parallel = false;
        }
        i = i + 1;
    }
    Ok(parallel)
}

/// Some source recognises the list's URL.
pub open spec fn source_found(l: ListReference, config: Config, ms: PlatformsMatchers) -> bool {
    find_from(l.url@, config.platforms@, ms@, 0) matches Ok(Some(_))
}

/// The list's URL belongs to a rate-limited source.
pub open spec fn rate_limited_list(l: ListReference, config: Config, ms: PlatformsMatchers) -> bool {
    match find_from(l.url@, config.platforms@, ms@, 0) {
        Ok(Some((k, _, _))) => 0 <= k < config.platforms@.len() && config.platforms@[k].1.dl_options.rate_limited == Some(true),
        _ => false,
    }
}

} // verus!
