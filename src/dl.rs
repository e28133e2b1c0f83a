//! Single-item downloads: the options of a download, the argument list
//! handed to the downloader, and the planning of a batch of URLs.
use vstd::prelude::*;

use crate::config::{Config, PlatformDownloadOptions, UseCookiesFrom};
use crate::platforms::{
    find_from, find_platform, regex_group, regex_is_match, try_find_platform, video_id_from_url, FoundPlatform, LookupError,
    PlatformsMatchers, ID_GROUP,
};
use crate::scheduler::ScheduledItem;
use crate::text::{chars_of, concat, string_of};
use crate::ytdlp::{RawPlaylist, RawVideoInfos};

verus! {

broadcast use vstd::string::group_string_axioms;

/// Format selection used when neither the call nor the source gives one:
/// the best video at the highest resolution available, with the best audio.
pub const DEFAULT_BEST_VIDEO_FORMAT: &'static str = "bestvideo*[height>=4320]+bestaudio/best[height>=4320]/bestvideo*[height>2160][height<4320]+bestaudio/best[height>2160][height<4320]/bestvideo*[height=2160]+bestaudio/best[height=2160]/bestvideo*[height>1440][height<2160]+bestaudio/best[height>1440][height<2160]/bestvideo*[height=1440]+bestaudio/best[height=1440]/bestvideo*[height>1080][height<1440]+bestaudio/best[height>1080][height<1440]/bestvideo*[height=1080]+bestaudio/best[height=1080]/bestvideo*[height>720][height<1080]+bestaudio/best[height>720][height<1080]/bestvideo*[height=720]+bestaudio/best[height=720]/bestvideo*[height>480]+bestaudio/best[height>480]/bestvideo*[height=480]+bestaudio/best[height=480]/bestvideo*[height>320]+bestaudio/best[height>320]/bestvideo*[height=320]+bestaudio/best[height=320]/bestvideo*[height>240]+bestaudio/best[height>240]/bestvideo*[height=240]+bestaudio/best[height=240]/bestvideo*[height>144]+bestaudio/best[height>144]/bestvideo*[height=144]+bestaudio/best[height=144]/bestvideo+bestaudio/best";

/// File naming used when the call gives none.
pub const DEFAULT_FILENAMING: &'static str = "%(title)s-%(id)s.%(ext)s";

/// Prefix of the output template that puts the upload date in front.
pub const UPLOAD_DATE_PREFIX: &'static str = "%(upload_date)s---";

/// The options of one download.
#[derive(Debug)]
pub struct SingleDlArgs {
    /// Download without a registered source.
    pub no_platform: bool,
    /// Downloader format selection.
    pub format: Option<String>,
    pub custom_temp_dir: Option<String>,
    /// Download in place rather than through a temporary directory.
    pub no_temp_dir: bool,
    pub output_dir: Option<String>,
    pub filenaming: Option<String>,
    /// Prefix file names with the item's position in its list.
    pub index_prefix: bool,
    pub limit_bandwidth: Option<String>,
    pub cookies: Option<UseCookiesFrom>,
    pub skip_repair_date: bool,
    pub no_thumbnail: bool,
    /// Wait before downloading, for sources that limit requests.
    pub rate_limited: bool,
    /// Further arguments handed to the downloader as they are.
    pub forward_ytdlp_args: Vec<String>,
    /// A title known beforehand, for display.
    pub prefetched_title: Option<String>,
}

/// A batch of URLs downloaded with the same options.
#[derive(Debug)]
pub struct DlArgs {
    pub urls: Vec<String>,
    pub dl_url: SingleDlArgs,
}

fn dup_string(s: &Option<String>) -> (r: Option<String>)
    ensures
        r == *s,
{
    match s {
        Some(x) => Some(x.clone()),
        None => None,
    }
}

fn dup_strings(v: &Vec<String>) -> (r: Vec<String>)
    ensures
        r@ == v@,
{
    let r = v.clone();
    assert(r@ =~= v@);
    r
}

impl UseCookiesFrom {
    pub fn duplicate(&self) -> (r: Self)
        ensures
            r == *self,
    {
        match self {
            UseCookiesFrom::Browser(b) => UseCookiesFrom::Browser(b.clone()),
            UseCookiesFrom::File(f) => UseCookiesFrom::File(f.clone()),
        }
    }
}

fn dup_cookies(c: &Option<UseCookiesFrom>) -> (r: Option<UseCookiesFrom>)
    ensures
        r == *c,
{
    match c {
        Some(x) => Some(x.duplicate()),
        None => None,
    }
}

/// `a` holds the options of `b`, but for its cookies.
pub open spec fn same_but_cookies(a: SingleDlArgs, b: SingleDlArgs) -> bool {
    &&& a.no_platform == b.no_platform
    &&& a.format == b.format
    &&& a.custom_temp_dir == b.custom_temp_dir
    &&& a.no_temp_dir == b.no_temp_dir
    &&& a.output_dir == b.output_dir
    &&& a.filenaming == b.filenaming
    &&& a.index_prefix == b.index_prefix
    &&& a.limit_bandwidth == b.limit_bandwidth
    &&& a.skip_repair_date == b.skip_repair_date
    &&& a.no_thumbnail == b.no_thumbnail
    &&& a.rate_limited == b.rate_limited
    &&& a.forward_ytdlp_args@ == b.forward_ytdlp_args@
    &&& a.prefetched_title == b.prefetched_title
}

/// `a` holds the same options as `b`.
pub open spec fn same_options(a: SingleDlArgs, b: SingleDlArgs) -> bool {
    same_but_cookies(a, b) && a.cookies == b.cookies
}

impl SingleDlArgs {
    /// These options, with `cookies` in place of their own.
    pub fn with_cookies(&self, cookies: Option<UseCookiesFrom>) -> (r: Self)
        ensures
            same_but_cookies(r, *self),
            r.cookies == cookies,
    {
        SingleDlArgs {
            no_platform: self.no_platform,
            format: dup_string(&self.format),
            custom_temp_dir: dup_string(&self.custom_temp_dir),
            no_temp_dir: self.no_temp_dir,
            output_dir: dup_string(&self.output_dir),
            filenaming: dup_string(&self.filenaming),
            index_prefix: self.index_prefix,
            limit_bandwidth: dup_string(&self.limit_bandwidth),
            cookies,
            skip_repair_date: self.skip_repair_date,
            no_thumbnail: self.no_thumbnail,
            rate_limited: self.rate_limited,
            forward_ytdlp_args: dup_strings(&self.forward_ytdlp_args),
            prefetched_title: dup_string(&self.prefetched_title),
        }
    }

    pub fn duplicate(&self) -> (r: Self)
        ensures
            same_options(r, *self),
    {
        self.with_cookies(dup_cookies(&self.cookies))
    }
}

/// Each URL of the batch with the batch's options.
pub fn download_from_args(args: DlArgs) -> (r: Vec<(String, SingleDlArgs)>)
    ensures
        r@.len() == args.urls@.len(),
        forall|i: int| 0 <= i < r@.len() ==> (#[trigger] r@[i]).0 == args.urls@[i] && same_options(r@[i].1, args.dl_url),
{
    let DlArgs { urls, dl_url } = args;
    let mut items: Vec<(String, SingleDlArgs)> = Vec::new();
    let mut i: usize = 0;
    while i < urls.len()
        invariant
            i <= urls@.len(),
            items@.len() == i,
            forall|j: int| 0 <= j < i ==> (#[trigger] items@[j]).0 == urls@[j] && same_options(items@[j].1, dl_url),
        decreases urls.len() - i,
    {
        items.push((urls[i].clone(), dl_url.duplicate()));
        i = i + 1;
    }
    items
}

/// The first of `a` and `b` that is given.
pub open spec fn either<T>(a: Option<T>, b: Option<T>) -> Option<T> {
    if a is Some {
        a
    } else {
        b
    }
}

pub open spec fn str_views(v: Seq<String>) -> Seq<Seq<char>> {
    v.map_values(|s: String| s@)
}

pub open spec fn cookie_args(c: Option<UseCookiesFrom>) -> Seq<Seq<char>> {
    match c {
        Some(UseCookiesFrom::Browser(b)) => seq!["--cookies-from-browser"@, b@],
        Some(UseCookiesFrom::File(f)) => seq!["--cookies"@, f@],
        None => seq![],
    }
}

pub open spec fn format_part(opts: PlatformDownloadOptions, args: SingleDlArgs) -> Seq<Seq<char>> {
    let format = match either(args.format, opts.download_format) {
        Some(f) => f@,
        None => DEFAULT_BEST_VIDEO_FORMAT@,
    };
    seq!["--format"@, format, "--add-metadata"@, "--abort-on-unavailable-fragment"@, "--compat-options"@, "abort-on-error"@]
}

pub open spec fn bandwidth_part(opts: PlatformDownloadOptions, args: SingleDlArgs, config: Config) -> Seq<Seq<char>> {
    match either(args.limit_bandwidth, either(opts.bandwidth_limit, config.default_bandwidth_limit)) {
        Some(b) => seq!["--limit-rate"@, b@],
        None => seq![],
    }
}

pub open spec fn thumbnail_part(opts: PlatformDownloadOptions, args: SingleDlArgs) -> Seq<Seq<char>> {
    if !args.no_thumbnail && opts.no_thumbnail != Some(true) {
        seq!["--embed-thumbnail"@] + match opts.output_format {
            Some(f) => seq!["--merge-output-format"@, f@],
            None => seq![],
        }
    } else {
        seq![]
    }
}

pub open spec fn sleep_part(opts: PlatformDownloadOptions, args: SingleDlArgs) -> Seq<Seq<char>> {
    if opts.rate_limited == Some(true) || args.rate_limited {
        seq!["--sleep-requests=3"@]
    } else {
        seq![]
    }
}

pub open spec fn forwarded_part(opts: PlatformDownloadOptions, args: SingleDlArgs) -> Seq<Seq<char>> {
    let from_source = match opts.forward_ytdlp_args {
        Some(v) => str_views(v@),
        None => seq![],
    };
    from_source + str_views(args.forward_ytdlp_args@)
}

/// The downloader's arguments for one item, the option chains resolved
/// left to right: the call's value, then the source's, then the default.
pub open spec fn download_args(url: Seq<char>, opts: PlatformDownloadOptions, args: SingleDlArgs, config: Config, output: Seq<char>) -> Seq<Seq<char>> {
    format_part(opts, args) + bandwidth_part(opts, args, config) + thumbnail_part(opts, args) + cookie_args(either(args.cookies, opts.cookies)) + sleep_part(opts, args) + seq!["-o"@, output, url] + forwarded_part(opts, args)
}

fn push_str(v: &mut Vec<String>, s: &str)
    ensures
        final(v)@.len() == old(v)@.len() + 1,
        str_views(final(v)@) == str_views(old(v)@).push(s@),
{
    let ghost before = str_views(v@);
    v.push(s.to_owned());
    assert(str_views(v@) =~= before.push(s@));
}

fn push_all(v: &mut Vec<String>, more: &Vec<String>)
    ensures
        str_views(final(v)@) == str_views(old(v)@) + str_views(more@),
{
    let ghost start = str_views(v@);
    let mut i: usize = 0;
    while i < more.len()
        invariant
            i <= more@.len(),
            str_views(v@) == start + str_views(more@.take(i as int)),
        decreases more.len() - i,
    {
        push_str(v, more[i].as_str());
        assert(str_views(more@.take(i + 1)) =~= str_views(more@.take(i as int)).push(more@[i as int]@));
        i = i + 1;
    }
    assert(more@.take(more@.len() as int) == more@);
}

fn push_format(v: &mut Vec<String>, opts: &PlatformDownloadOptions, args: &SingleDlArgs)
    ensures
        str_views(final(v)@) == str_views(old(v)@) + format_part(*opts, *args),
{
    let ghost start = str_views(v@);
    push_str(v, "--format");
    match &args.format {
        Some(f) => push_str(v, f.as_str()),
        None => match &opts.download_format {
            Some(f) => push_str(v, f.as_str()),
            None => push_str(v, DEFAULT_BEST_VIDEO_FORMAT),
        },
    }
    push_str(v, "--add-metadata");
    push_str(v, "--abort-on-unavailable-fragment");
    push_str(v, "--compat-options");
    push_str(v, "abort-on-error");
    assert(str_views(v@) =~= start + format_part(*opts, *args));
}

fn push_bandwidth(v: &mut Vec<String>, opts: &PlatformDownloadOptions, args: &SingleDlArgs, config: &Config)
    ensures
        str_views(final(v)@) == str_views(old(v)@) + bandwidth_part(*opts, *args, *config),
{
    let ghost start = str_views(v@);
    let bandwidth = match &args.limit_bandwidth {
        Some(b) => Some(b),
        None => match &opts.bandwidth_limit {
            Some(b) => Some(b),
            None => match &config.default_bandwidth_limit {
                Some(b) => Some(b),
                None => None,
            },
        },
    };
    match bandwidth {
        Some(b) => {
            push_str(v, "--limit-rate");
            push_str(v, b.as_str());
        },
        None => {},
    }
    assert(str_views(v@) =~= start + bandwidth_part(*opts, *args, *config));
}

fn push_thumbnail(v: &mut Vec<String>, opts: &PlatformDownloadOptions, args: &SingleDlArgs)
    ensures
        str_views(final(v)@) == str_views(old(v)@) + thumbnail_part(*opts, *args),
{
    let ghost start = str_views(v@);
    let thumbnail = !args.no_thumbnail && match opts.no_thumbnail {
        Some(true) => false,
        _ => true,
    };
    if thumbnail {
        push_str(v, "--embed-thumbnail");
        match &opts.output_format {
            Some(f) => {
                push_str(v, "--merge-output-format");
                push_str(v, f.as_str());
            },
            None => {},
        }
    }
    assert(str_views(v@) =~= start + thumbnail_part(*opts, *args));
}

fn push_cookies(v: &mut Vec<String>, cookies: Option<&UseCookiesFrom>)
    ensures
        str_views(final(v)@) == str_views(old(v)@) + cookie_args(match cookies {
            Some(c) => Some(*c),
            None => None,
        }),
{
    let ghost start = str_views(v@);
    match cookies {
        Some(UseCookiesFrom::Browser(b)) => {
            push_str(v, "--cookies-from-browser");
            push_str(v, b.as_str());
        },
        Some(UseCookiesFrom::File(f)) => {
            push_str(v, "--cookies");
            push_str(v, f.as_str());
        },
        None => {},
    }
    assert(str_views(v@) =~= start + cookie_args(match cookies {
        Some(c) => Some(*c),
        None => None,
    }));
}

/// Builds the downloader's arguments for one item; `output` is the output
/// template, directory included.
pub fn build_download_args(url: &str, opts: &PlatformDownloadOptions, args: &SingleDlArgs, config: &Config, output: &str) -> (r: Vec<String>)
    ensures
        str_views(r@) == download_args(url@, *opts, *args, *config, output@),
{
    let mut v: Vec<String> = Vec::new();
    assert(str_views(v@) =~= seq![]);
    push_format(&mut v, opts, args);
    push_bandwidth(&mut v, opts, args, config);
    push_thumbnail(&mut v, opts, args);
    let cookies = match &args.cookies {
        Some(c) => Some(c),
        None => match &opts.cookies {
            Some(c) => Some(c),
            None => None,
        },
    };
    push_cookies(&mut v, cookies);
    let ghost s4 = str_views(v@);
    let limited = args.rate_limited || match opts.rate_limited {
        Some(true) => true,
        _ => false,
    };
    if limited {
        push_str(&mut v, "--sleep-requests=3");
    }
    assert(str_views(v@) =~= s4 + sleep_part(*opts, *args));
    let ghost s5 = str_views(v@);
    push_str(&mut v, "-o");
    push_str(&mut v, output);
    push_str(&mut v, url);
    assert(str_views(v@) =~= s5 + seq!["-o"@, output@, url@]);
    let ghost s6 = str_views(v@);
    match &opts.forward_ytdlp_args {
        Some(more) => push_all(&mut v, more),
        None => {},
    }
    push_all(&mut v, &args.forward_ytdlp_args);
    assert(str_views(v@) =~= s6 + forwarded_part(*opts, *args));
    v
}

/// Why a download cannot go ahead.
#[derive(Debug)]
pub enum DlError {
    /// Repairing dates needs a source, and the call asked for none.
    RepairDateWithoutPlatform,
    /// A list URL came with other URLs.
    MixedPlaylist,
    /// A URL could not be classified.
    Lookup(LookupError),
    /// Repairing dates needs a temporary directory.
    RepairDateWithoutTempDir,
    /// An index prefix was asked for an item outside a list.
    IndexPrefixOutsidePlaylist,
    /// A list item of another source could not be redirected: its id was
    /// not found in its URL.
    NoRedirectId { url: String },
}

/// How a batch of URLs is downloaded.
#[derive(Debug)]
pub enum DownloadPlan {
    /// The batch is the one list URL, of this source.
    Playlist { platform: FoundPlatform },
    /// Each URL is an item, with its source if one recognises it.
    Videos { platforms: Vec<Option<FoundPlatform>> },
}

/// Some item asks for its date to be repaired without a source.
pub open spec fn repair_without_platform(urls: Seq<(String, SingleDlArgs)>) -> bool {
    exists|i: int| 0 <= i < urls.len() && (#[trigger] urls[i]).1.no_platform && !urls[i].1.skip_repair_date
}

/// The URL is recognised as an item of a source, or by no source.
pub open spec fn video_url(url: Seq<char>, config: Config, ms: PlatformsMatchers) -> bool {
    match find_from(url, config.platforms@, ms@, 0) {
        Ok(Some((_, _, is_list))) => !is_list,
        Ok(None) => true,
        Err(_) => false,
    }
}

/// `f` is what classification found for `url`.
pub open spec fn found_as(f: Option<FoundPlatform>, url: Seq<char>, config: Config, ms: PlatformsMatchers) -> bool {
    match f {
        Some(p) => find_from(url, config.platforms@, ms@, 0) == Ok::<_, (int, bool)>(Some((p.platform_index as int, p.matchers_index as int, p.is_playlist)))
            && p.platform_index < config.platforms@.len() && p.matchers_index < ms@.len()
            && p.platform_name == config.platforms@[p.platform_index as int].0,
        None => find_from(url, config.platforms@, ms@, 0) == Ok::<Option<(int, int, bool)>, (int, bool)>(None),
    }
}

/// Classifies a batch: a single list URL is downloaded as a list; else every
/// URL must be an item URL, or belong to no source.
pub fn classify_downloads(urls: &Vec<(String, SingleDlArgs)>, config: &Config, matchers: &PlatformsMatchers) -> (r: Result<DownloadPlan, DlError>)
    ensures
        (r matches Err(DlError::RepairDateWithoutPlatform)) == repair_without_platform(urls@),
        r matches Ok(DownloadPlan::Videos { platforms }) ==> {
            &&& platforms@.len() == urls@.len()
            &&& forall|i: int| 0 <= i < urls@.len() ==> video_url((#[trigger] urls@[i]).0@, *config, *matchers) && found_as(platforms@[i], urls@[i].0@, *config, *matchers)
        },
        r matches Ok(DownloadPlan::Playlist { platform }) ==> urls@.len() == 1 && found_as(Some(platform), urls@[0].0@, *config, *matchers) && platform.is_playlist,
        r matches Err(DlError::MixedPlaylist) ==> urls@.len() > 1 && exists|i: int| 0 <= i < urls@.len() && !video_url((#[trigger] urls@[i]).0@, *config, *matchers) && find_from(urls@[i].0@, config.platforms@, matchers@, 0) is Ok,
        r matches Err(DlError::Lookup(_)) ==> exists|i: int| 0 <= i < urls@.len() && find_from((#[trigger] urls@[i]).0@, config.platforms@, matchers@, 0) is Err,
        r is Ok || r matches Err(DlError::RepairDateWithoutPlatform) || r matches Err(DlError::MixedPlaylist) || r matches Err(DlError::Lookup(_)),
{
    let mut i: usize = 0;
    while i < urls.len()
        invariant
            i <= urls@.len(),
            forall|j: int| 0 <= j < i ==> !((#[trigger] urls@[j]).1.no_platform && !urls@[j].1.skip_repair_date),
        decreases urls.len() - i,
    {
        if urls[i].1.no_platform && !urls[i].1.skip_repair_date {
            return Err(DlError::RepairDateWithoutPlatform);
        }
        i = i + 1;
    }
    let mut platforms: Vec<Option<FoundPlatform>> = Vec::new();
    let mut i: usize = 0;
    while i < urls.len()
        invariant
            i <= urls@.len(),
            !repair_without_platform(urls@),
            platforms@.len() == i,
            forall|j: int| 0 <= j < i ==> video_url((#[trigger] urls@[j]).0@, *config, *matchers) && found_as(platforms@[j], urls@[j].0@, *config, *matchers),
        decreases urls.len() - i,
    {
        let found = match try_find_platform(urls[i].0.as_str(), config, matchers) {
            Ok(f) => f,
            Err(e) => {
                return Err(DlError::Lookup(e));
            },
        };
        match found {
            Some(p) => {
                if p.is_playlist {
                    if urls.len() > 1 {
                        return Err(DlError::MixedPlaylist);
                    }
                    return Ok(DownloadPlan::Playlist { platform: p });
                }
                platforms.push(Some(p));
            },
            None => platforms.push(None),
        }
        i = i + 1;
    }
    Ok(DownloadPlan::Videos { platforms })
}

/// The pacing each item asks for: the call's request for a fixed wait, and
/// its source when that source is rate-limited.
pub fn schedule_items(urls: &Vec<(String, SingleDlArgs)>, platforms: &Vec<Option<FoundPlatform>>, config: &Config) -> (r: Vec<ScheduledItem>)
    requires
        platforms@.len() == urls@.len(),
    ensures
        r@.len() == urls@.len(),
        forall|i: int| 0 <= i < r@.len() ==> (#[trigger] r@[i]).rate_limited_request == urls@[i].1.rate_limited && r@[i].rate_limited_source == match platforms@[i] {
            Some(p) => if p.platform_index < config.platforms@.len() && config.platforms@[p.platform_index as int].1.dl_options.rate_limited == Some(true) {
                Some(p.platform_name)
            } else {
                None
            },
            None => None,
        },
{
    let mut items: Vec<ScheduledItem> = Vec::new();
    let mut i: usize = 0;
    while i < urls.len()
        invariant
            i <= urls@.len(),
            platforms@.len() == urls@.len(),
            items@.len() == i,
            forall|j: int| 0 <= j < i ==> (#[trigger] items@[j]).rate_limited_request == urls@[j].1.rate_limited && items@[j].rate_limited_source == match platforms@[j] {
                Some(p) => if p.platform_index < config.platforms@.len() && config.platforms@[p.platform_index as int].1.dl_options.rate_limited == Some(true) {
                    Some(p.platform_name)
                } else {
                    None
                },
                None => None,
            },
        decreases urls.len() - i,
    {
        let source = match &platforms[i] {
            Some(p) => {
                if p.platform_index < config.platforms.len() && match config.platforms[p.platform_index].1.dl_options.rate_limited {
                    Some(true) => true,
                    _ => false,
                } {
                    Some(p.platform_name.clone())
                } else {
                    None
                }
            },
            None => None,
        };
        items.push(ScheduledItem { rate_limited_request: urls[i].1.rate_limited, rate_limited_source: source });
        i = i + 1;
    }
    items
}

/// What becomes of a list item at `url`, in a list of the source `list`:
/// `None` when it cannot be handled, else the URL to download it at, or
/// `None` inside when it is left out.
pub open spec fn list_item_url(url: Seq<char>, list: FoundPlatform, config: Config, ms: PlatformsMatchers) -> Option<Option<Seq<char>>> {
    match find_from(url, config.platforms@, ms@, 0) {
        Ok(Some((k, m, _))) => if config.platforms@[k].0@ == list.platform_name@ {
            Some(Some(url))
        } else if config.platforms@[list.platform_index as int].1.redirect_playlist_videos == Some(true) {
            let p = ms@[m].1.id_from_video_url@;
            if regex_is_match(p, url) && regex_group(p, url, ID_GROUP@) is Some {
                Some(Some(config.platforms@[list.platform_index as int].1.videos_url_prefix@ + regex_group(p, url, ID_GROUP@)->0))
            } else {
                None
            }
        } else {
            Some(None)
        },
        _ => None,
    }
}

/// The URLs downloaded and the URLs left out, over a list's items.
pub open spec fn expansion(entries: Seq<RawVideoInfos>, list: FoundPlatform, config: Config, ms: PlatformsMatchers) -> (Seq<Seq<char>>, Seq<Seq<char>>)
    decreases entries.len(),
{
    if entries.len() == 0 {
        (seq![], seq![])
    } else {
        let (kept, left) = expansion(entries.drop_last(), list, config, ms);
        match list_item_url(entries.last().url@, list, config, ms) {
            Some(Some(u)) => (kept.push(u), left),
            _ => (kept, left.push(entries.last().url@)),
        }
    }
}

/// Expands a fetched list into item downloads. Items of the list's source
/// keep their URL; items of another source are redirected through the list
/// source's URL prefix when its configuration asks for it, and left out
/// otherwise. Each item takes the list source's cookies, else the call's.
/// Returns the downloads and the URLs left out.
pub fn expand_playlist(list: &FoundPlatform, args: &SingleDlArgs, playlist: &RawPlaylist, config: &Config, matchers: &PlatformsMatchers) -> (r: Result<(Vec<(String, SingleDlArgs)>, Vec<String>), DlError>)
    requires
        list.platform_index < config.platforms@.len(),
    ensures
        r is Ok == forall|i: int| 0 <= i < playlist.entries@.len() ==> list_item_url((#[trigger] playlist.entries@[i]).url@, *list, *config, *matchers) is Some,
        r matches Ok((items, skipped)) ==> {
            &&& items@.map_values(|p: (String, SingleDlArgs)| p.0@) == expansion(playlist.entries@, *list, *config, *matchers).0
            &&& str_views(skipped@) == expansion(playlist.entries@, *list, *config, *matchers).1
            &&& forall|i: int| 0 <= i < items@.len() ==> same_but_cookies((#[trigger] items@[i]).1, *args) && items@[i].1.cookies == either(config.platforms@[list.platform_index as int].1.dl_options.cookies, args.cookies)
        },
{
    let pc = &config.platforms[list.platform_index].1;
    let ghost es = playlist.entries@;
    let mut items: Vec<(String, SingleDlArgs)> = Vec::new();
    let mut skipped: Vec<String> = Vec::new();
    let mut i: usize = 0;
    assert(es.take(0) =~= seq![]);
    assert(items@.map_values(|p: (String, SingleDlArgs)| p.0@) =~= seq![]);
    assert(str_views(skipped@) =~= seq![]);
    while i < playlist.entries.len()
        invariant
            i <= es.len(),
            es == playlist.entries@,
            list.platform_index < config.platforms@.len(),
            *pc == config.platforms@[list.platform_index as int].1,
            items@.map_values(|p: (String, SingleDlArgs)| p.0@) == expansion(es.take(i as int), *list, *config, *matchers).0,
            str_views(skipped@) == expansion(es.take(i as int), *list, *config, *matchers).1,
            forall|j: int| 0 <= j < i ==> list_item_url((#[trigger] es[j]).url@, *list, *config, *matchers) is Some,
            forall|j: int| 0 <= j < items@.len() ==> same_but_cookies((#[trigger] items@[j]).1, *args) && items@[j].1.cookies == either(pc.dl_options.cookies, args.cookies),
        decreases playlist.entries.len() - i,
    {
        let entry = &playlist.entries[i];
        assert(es.take(i + 1).drop_last() == es.take(i as int));
        assert(es.take(i + 1).last() == es[i as int]);
        let p = match find_platform(entry.url.as_str(), config, matchers) {
            Ok(p) => p,
            Err(e) => {
                assert(list_item_url(es[i as int].url@, *list, *config, *matchers) is None);
                return Err(DlError::Lookup(e));
            },
        };
        let same = crate::text::str_eq(p.platform_name.as_str(), list.platform_name.as_str());
        let redirect = match pc.redirect_playlist_videos {
            Some(true) => true,
            _ => false,
        };
        let url = if same {
            Some(entry.url.clone())
        } else if redirect {
            match video_id_from_url(&matchers[p.matchers_index].1, entry.url.as_str()) {
                Some(id) => Some(concat(pc.videos_url_prefix.as_str(), id.as_str())),
                None => {
                    assert(list_item_url(es[i as int].url@, *list, *config, *matchers) is None);
                    return Err(DlError::NoRedirectId { url: entry.url.clone() });
                },
            }
        } else {
            None
        };
        let ghost before_items = items@.map_values(|p: (String, SingleDlArgs)| p.0@);
        let ghost before_skipped = str_views(skipped@);
        match url {
            Some(u) => {
                assert(list_item_url(es[i as int].url@, *list, *config, *matchers) == Some(Some(u@)));
                let cookies = match &pc.dl_options.cookies {
                    Some(c) => Some(c.duplicate()),
                    None => dup_cookies(&args.cookies),
                };
                items.push((u, args.with_cookies(cookies)));
                assert(items@.map_values(|p: (String, SingleDlArgs)| p.0@) =~= before_items.push(u@));
            },
            None => {
                assert(list_item_url(es[i as int].url@, *list, *config, *matchers) == Some(None::<Seq<char>>));
                skipped.push(entry.url.clone());
                assert(str_views(skipped@) =~= before_skipped.push(es[i as int].url@));
            },
        }
        i = i + 1;
    }
    assert(es.take(es.len() as int) == es);
    Ok((items, skipped))
}

/// The name of an item's file: the call's naming or the default, prefixed
/// with the item's position in its list when asked.
pub open spec fn filenaming_of(args: SingleDlArgs, position: Option<(usize, usize)>) -> Option<Seq<char>> {
    let naming = match args.filenaming {
        Some(f) => f@,
        None => DEFAULT_FILENAMING@,
    };
    if args.index_prefix {
        match position {
            Some((index, total)) => Some(padded((index + 1) as nat, decimal(total as nat).len()) + seq!['.', ' '] + naming),
            None => None,
        }
    } else {
        Some(naming)
    }
}

/// The decimal digits of `n`.
pub open spec fn decimal(n: nat) -> Seq<char>
    decreases n,
{
    if n < 10 {
        seq![digit_char(n)]
    } else {
        decimal(n / 10).push(digit_char(n % 10))
    }
}

pub open spec fn digit_char(d: nat) -> char {
    if d == 0 { '0' } else if d == 1 { '1' } else if d == 2 { '2' } else if d == 3 { '3' } else if d == 4 { '4' } else if d == 5 { '5' } else if d == 6 { '6' } else if d == 7 { '7' } else if d == 8 { '8' } else { '9' }
}

/// `n` in decimal, padded with zeros on the left to `width` digits.
pub open spec fn padded(n: nat, width: nat) -> Seq<char> {
    let d = decimal(n);
    if d.len() >= width {
        d
    } else {
        Seq::new((width - d.len()) as nat, |i: int| '0') + d
    }
}

fn digit(d: u64) -> (r: char)
    requires
        d < 10,
    ensures
        r == digit_char(d as nat),
{
    if d == 0 { '0' } else if d == 1 { '1' } else if d == 2 { '2' } else if d == 3 { '3' } else if d == 4 { '4' } else if d == 5 { '5' } else if d == 6 { '6' } else if d == 7 { '7' } else if d == 8 { '8' } else { '9' }
}

/// The decimal digits of `n`.
pub fn to_decimal(n: u64) -> (r: Vec<char>)
    ensures
        r@ == decimal(n as nat),
    decreases n,
{
    if n < 10 {
        vec![digit(n)]
    } else {
        let mut r = to_decimal(n / 10);
        r.push(digit(n % 10));
        r
    }
}

/// `n` in decimal, zero-padded to `width` digits.
pub fn to_padded(n: u64, width: usize) -> (r: String)
    ensures
        r@ == padded(n as nat, width as nat),
{
    let d = to_decimal(n);
    let mut r = String::new();
    let mut k: usize = d.len();
    while k < width
        invariant
            d.len() <= k <= width || (d.len() > width && k == d.len()),
            r@ == Seq::new((k - d.len()) as nat, |i: int| '0'),
        decreases width - k,
    {
        crate::text::push_char(&mut r, '0');
        assert(r@ =~= Seq::new((k + 1 - d.len()) as nat, |i: int| '0'));
        k = k + 1;
    }
    let ghost zeros = r@;
    let mut i: usize = 0;
    while i < d.len()
        invariant
            i <= d@.len(),
            r@ == zeros + d@.take(i as int),
        decreases d.len() - i,
    {
        crate::text::push_char(&mut r, d[i]);
        assert(d@.take(i + 1) == d@.take(i as int).push(d@[i as int]));
        i = i + 1;
    }
    assert(d@.take(d@.len() as int) == d@);
    if d.len() >= width {
        assert(zeros =~= Seq::<char>::empty());
        assert(r@ =~= d@);
    }
    r
}

/// The file naming of one item, `position` being its index and the size of
/// its list when it is part of one.
pub fn output_filenaming(args: &SingleDlArgs, position: Option<(usize, usize)>) -> (r: Result<String, DlError>)
    requires
        position matches Some((index, total)) ==> index < total,
    ensures
        r matches Ok(s) ==> filenaming_of(*args, position) == Some(s@),
        r is Err ==> filenaming_of(*args, position) is None,
{
    let naming = match &args.filenaming {
        Some(f) => f.clone(),
        None => DEFAULT_FILENAMING.to_owned(),
    };
    if !args.index_prefix {
        return Ok(naming);
    }
    match position {
        None => Err(DlError::IndexPrefixOutsidePlaylist),
        Some((index, total)) => {
            let width = to_decimal(total as u64).len();
            let number = to_padded((index + 1) as u64, width);
            let prefix = concat(number.as_str(), ". ");
            proof {
                reveal_strlit(". ");
            }
            Ok(concat(prefix.as_str(), naming.as_str()))
        },
    }
}

/// Whether the date can be repaired: a download in place cannot, unless
/// the call or the source skips repairing.
pub fn check_repair_date(args: &SingleDlArgs, opts: &PlatformDownloadOptions) -> (r: Result<(), DlError>)
    ensures
        r is Ok == (!args.no_temp_dir || opts.skip_repair_date == Some(true) || args.skip_repair_date),
{
    let skip = match opts.skip_repair_date {
        Some(true) => true,
        _ => false,
    };
    if args.no_temp_dir && !skip && !args.skip_repair_date {
        Err(DlError::RepairDateWithoutTempDir)
    } else {
        Ok(())
    }
}

pub open spec fn strip_prefix(s: Seq<char>, p: Seq<char>) -> Option<Seq<char>> {
    if s.len() >= p.len() && s.take(p.len() as int) == p {
        Some(s.skip(p.len() as int))
    } else {
        None
    }
}

fn strip_prefix_exec(s: &str, p: &str) -> (r: Option<String>)
    ensures
        r matches Some(x) ==> strip_prefix(s@, p@) == Some(x@),
        r is None ==> strip_prefix(s@, p@) is None,
{
    let a = chars_of(s);
    let b = chars_of(p);
    if a.len() < b.len() {
        return None;
    }
    let mut i: usize = 0;
    while i < b.len()
        invariant
            i <= b@.len() <= a@.len(),
            a@ == s@,
            b@ == p@,
            forall|j: int| 0 <= j < i ==> a@[j] == b@[j],
        decreases b.len() - i,
    {
        if a[i] != b[i] {
            assert(s@.take(p@.len() as int)[i as int] != p@[i as int]);
            return None;
        }
        i = i + 1;
    }
    assert(s@.take(p@.len() as int) =~= p@);
    Some(string_of(a.as_slice(), b.len(), a.len()))
}

/// Parses the command line's cookie source.
pub fn parse_cookies_arg(arg: &str) -> (r: Result<UseCookiesFrom, String>)
    ensures
        match strip_prefix(arg@, "browser:"@) {
            Some(name) => r matches Ok(UseCookiesFrom::Browser(b)) && b@ == name,
            None => match strip_prefix(arg@, "file:"@) {
                Some(path) => r matches Ok(UseCookiesFrom::File(f)) && f@ == path,
                None => r matches Err(m) && m@ == "Invalid cookies source: "@ + arg@,
            },
        },
{
    match strip_prefix_exec(arg, "browser:") {
        Some(name) => Ok(UseCookiesFrom::Browser(name)),
        None => match strip_prefix_exec(arg, "file:") {
            Some(path) => Ok(UseCookiesFrom::File(path)),
            None => Err(concat("Invalid cookies source: ", arg)),
        },
    }
}

/// An upload date.
#[derive(Clone, Copy, Debug, PartialEq, Eq, Structural)]
pub struct UploadDate {
    pub year: i32,
    pub month: u8,
    pub day: u8,
}

/// A date that is neither `NA` nor of the shape `20YYMMDD`.
#[derive(Clone, Copy, Debug, PartialEq, Eq, Structural)]
pub struct InvalidDate;

pub open spec fn is_digit(c: char) -> bool {
    '0' <= c <= '9'
}

pub open spec fn digit_value(c: char) -> int {
    c as u32 - '0' as u32
}

/// The date the downloader wrote in front of a file name: `NA` when it has
/// none, else eight digits starting with `20`.
pub open spec fn upload_date_of(s: Seq<char>) -> Result<Option<UploadDate>, InvalidDate> {
    if s == "NA"@ {
        Ok(None)
    } else if s.len() == 8 && s[0] == '2' && s[1] == '0' && forall|i: int| 2 <= i < 8 ==> is_digit(#[trigger] s[i]) {
        Ok(Some(UploadDate {
            year: (2000 + digit_value(s[2]) * 10 + digit_value(s[3])) as i32,
            month: (digit_value(s[4]) * 10 + digit_value(s[5])) as u8,
            day: (digit_value(s[6]) * 10 + digit_value(s[7])) as u8,
        }))
    } else {
        Err(InvalidDate)
    }
}

/// Parses an upload date.
pub fn parse_date(date: &str) -> (r: Result<Option<UploadDate>, InvalidDate>)
    ensures
        r == upload_date_of(date@),
{
    let cs = chars_of(date);
    proof {
        reveal_strlit("NA");
    }
    if cs.len() == 2 && cs[0] == 'N' && cs[1] == 'A' {
        assert(date@ =~= "NA"@);
        return Ok(None);
    }
    assert(date@ != "NA"@) by {
        if date@ == "NA"@ {
            assert(date@[0] == 'N' && date@[1] == 'A');
        }
    }
    if cs.len() != 8 || cs[0] != '2' || cs[1] != '0' {
        return Err(InvalidDate);
    }
    let mut i: usize = 2;
    while i < 8
        invariant
            2 <= i <= 8,
            cs@ == date@,
            cs@.len() == 8,
            date@ != "NA"@,
            forall|j: int| 2 <= j < i ==> is_digit(#[trigger] cs@[j]),
        decreases 8 - i,
    {
        if !('0' <= cs[i] && cs[i] <= '9') {
            return Err(InvalidDate);
        }
        i = i + 1;
    }
    let v = |k: usize| -> (d: u8)
        requires
            k < 8,
            2 <= k,
            is_digit(cs@[k as int]),
        ensures
            d == digit_value(cs@[k as int]),
        { ((cs[k] as u32) - ('0' as u32)) as u8 };
    let year = 2000 + (v(2) as i32) * 10 + (v(3) as i32);
    let month = v(4) * 10 + v(5);
    let day = v(6) * 10 + v(7);
    Ok(Some(UploadDate { year, month, day }))
}

} // verus!

verus! {

/// Format selection of each `VideoQuality` preset.
pub const FORMAT_ABSOLUTEBEST: &'static str = "bestvideo*[height>=4320]+bestaudio/best[height>=4320]";
pub const FORMAT_BEST2160P: &'static str = "bestvideo*[height>2160][height<4320]+bestaudio/best[height>2160][height<4320]/bestvideo*[height=2160]+bestaudio/best[height=2160]/bestvideo*[height>1440][height<2160]+bestaudio/best[height>1440][height<2160]/bestvideo*[height=1440]+bestaudio/best[height=1440]/bestvideo*[height>1080][height<1440]+bestaudio/best[height>1080][height<1440]/bestvideo*[height=1080]+bestaudio/best[height=1080]/bestvideo*[height>720][height<1080]+bestaudio/best[height>720][height<1080]/bestvideo*[height=720]+bestaudio/best[height=720]/bestvideo*[height>480][height<720]+bestaudio/best[height>480][height<720]/bestvideo*[height=480]+bestaudio/best[height=480]/bestvideo*[height>320][height<480]+bestaudio/best[height>320][height<480]/bestvideo*[height=320]+bestaudio/best[height=320]/bestvideo*[height>240][height<320]+bestaudio/best[height>240][height<320]/bestvideo*[height=240]+bestaudio/best[height=240]/bestvideo*[height>144][height<240]+bestaudio/best[height>144][height<240]/bestvideo*[height=144]+bestaudio/best[height=144]/bestvideo*+bestaudio/bestvideo+bestaudio/best";
pub const FORMAT_BEST1440P: &'static str = "bestvideo*[height>1440][height<2160]+bestaudio/best[height>1440][height<2160]/bestvideo*[height=1440]+bestaudio/best[height=1440]/bestvideo*[height>1080][height<1440]+bestaudio/best[height>1080][height<1440]/bestvideo*[height=1080]+bestaudio/best[height=1080]/bestvideo*[height>720][height<1080]+bestaudio/best[height>720][height<1080]/bestvideo*[height=720]+bestaudio/best[height=720]/bestvideo*[height>480][height<720]+bestaudio/best[height>480][height<720]/bestvideo*[height=480]+bestaudio/best[height=480]/bestvideo*[height>320][height<480]+bestaudio/best[height>320][height<480]/bestvideo*[height=320]+bestaudio/best[height=320]/bestvideo*[height>240][height<320]+bestaudio/best[height>240][height<320]/bestvideo*[height=240]+bestaudio/best[height=240]/bestvideo*[height>144][height<240]+bestaudio/best[height>144][height<240]/bestvideo*[height=144]+bestaudio/best[height=144]/bestvideo*+bestaudio/bestvideo+bestaudio/best";
pub const FORMAT_BEST1080P: &'static str = "bestvideo*[height>1080][height<1440]+bestaudio/best[height>1080][height<1440]/bestvideo*[height=1080]+bestaudio/best[height=1080]/bestvideo*[height>720][height<1080]+bestaudio/best[height>720][height<1080]/bestvideo*[height=720]+bestaudio/best[height=720]/bestvideo*[height>480][height<720]+bestaudio/best[height>480][height<720]/bestvideo*[height=480]+bestaudio/best[height=480]/bestvideo*[height>320][height<480]+bestaudio/best[height>320][height<480]/bestvideo*[height=320]+bestaudio/best[height=320]/bestvideo*[height>240][height<320]+bestaudio/best[height>240][height<320]/bestvideo*[height=240]+bestaudio/best[height=240]/bestvideo*[height>144][height<240]+bestaudio/best[height>144][height<240]/bestvideo*[height=144]+bestaudio/best[height=144]/bestvideo*+bestaudio/bestvideo+bestaudio/best";
pub const FORMAT_BEST720P: &'static str = "bestvideo*[height>720][height<1080]+bestaudio/best[height>720][height<1080]/bestvideo*[height=720]+bestaudio/best[height=720]/bestvideo*[height>480][height<720]+bestaudio/best[height>480][height<720]/bestvideo*[height=480]+bestaudio/best[height=480]/bestvideo*[height>320][height<480]+bestaudio/best[height>320][height<480]/bestvideo*[height=320]+bestaudio/best[height=320]/bestvideo*[height>240][height<320]+bestaudio/best[height>240][height<320]/bestvideo*[height=240]+bestaudio/best[height=240]/bestvideo*[height>144][height<240]+bestaudio/best[height>144][height<240]/bestvideo*[height=144]+bestaudio/best[height=144]/bestvideo*+bestaudio/bestvideo+bestaudio/best";
pub const FORMAT_BEST480P: &'static str = "bestvideo*[height>480][height<720]+bestaudio/best[height>480][height<720]/bestvideo*[height=480]+bestaudio/best[height=480]/bestvideo*[height>320][height<480]+bestaudio/best[height>320][height<480]/bestvideo*[height=320]+bestaudio/best[height=320]/bestvideo*[height>240][height<320]+bestaudio/best[height>240][height<320]/bestvideo*[height=240]+bestaudio/best[height=240]/bestvideo*[height>144][height<240]+bestaudio/best[height>144][height<240]/bestvideo*[height=144]+bestaudio/best[height=144]/bestvideo*+bestaudio/bestvideo+bestaudio/best";
pub const FORMAT_BEST320P: &'static str = "bestvideo*[height>320][height<480]+bestaudio/best[height>320][height<480]/bestvideo*[height=320]+bestaudio/best[height=320]/bestvideo*[height>240][height<320]+bestaudio/best[height>240][height<320]/bestvideo*[height=240]+bestaudio/best[height=240]/bestvideo*[height>144][height<240]+bestaudio/best[height>144][height<240]/bestvideo*[height=144]+bestaudio/best[height=144]/bestvideo*+bestaudio/bestvideo+bestaudio/best";
pub const FORMAT_BEST240P: &'static str = "bestvideo*[height>240][height<320]+bestaudio/best[height>240][height<320]/bestvideo*[height=240]+bestaudio/best[height=240]/bestvideo*[height>144][height<240]+bestaudio/best[height>144][height<240]/bestvideo*[height=144]+bestaudio/best[height=144]/bestvideo*+bestaudio/bestvideo+bestaudio/best";
pub const FORMAT_BEST144P: &'static str = "bestvideo*[height>144][height<240]+bestaudio/best[height>144][height<240]/bestvideo*[height=144]+bestaudio/best[height=144]/bestvideo*+bestaudio/bestvideo+bestaudio/best";

/// Video quality presets, best first.
#[derive(Clone, Copy, Debug, PartialEq, Eq, Structural)]
pub enum VideoQuality {
    AbsoluteBest,
    Best2160p,
    Best1440p,
    Best1080p,
    Best720p,
    Best480p,
    Best320p,
    Best240p,
    Best144p,
}

/// The format selection of a preset: the best video up to its height, then
/// each lower height in turn, then whatever is best.
pub open spec fn quality_format(q: VideoQuality) -> Seq<char> {
    match q {
        VideoQuality::AbsoluteBest => FORMAT_ABSOLUTEBEST@,
        VideoQuality::Best2160p => FORMAT_BEST2160P@,
        VideoQuality::Best1440p => FORMAT_BEST1440P@,
        VideoQuality::Best1080p => FORMAT_BEST1080P@,
        VideoQuality::Best720p => FORMAT_BEST720P@,
        VideoQuality::Best480p => FORMAT_BEST480P@,
        VideoQuality::Best320p => FORMAT_BEST320P@,
        VideoQuality::Best240p => FORMAT_BEST240P@,
        VideoQuality::Best144p => FORMAT_BEST144P@,
    }
}

impl VideoQuality {
    pub fn to_yt_dlp_format(self) -> (r: &'static str)
        ensures
            r@ == quality_format(self),
    {
        match self {
            VideoQuality::AbsoluteBest => FORMAT_ABSOLUTEBEST,
            VideoQuality::Best2160p => FORMAT_BEST2160P,
            VideoQuality::Best1440p => FORMAT_BEST1440P,
            VideoQuality::Best1080p => FORMAT_BEST1080P,
            VideoQuality::Best720p => FORMAT_BEST720P,
            VideoQuality::Best480p => FORMAT_BEST480P,
            VideoQuality::Best320p => FORMAT_BEST320P,
            VideoQuality::Best240p => FORMAT_BEST240P,
            VideoQuality::Best144p => FORMAT_BEST144P,
        }
    }
}

} // verus!
