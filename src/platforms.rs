//! The platform registry: compiled URL matchers per configured source, URL
//! classification and item-id extraction.
//!
//! Patterns are written in pomsky and compiled to regular expressions of the
//! `regex` crate; what those two crates compute is named, not restated.
use vstd::prelude::*;

use crate::config::{Config, PlatformConfig};
use crate::text::{concat, str_eq};
use crate::ytdlp::RawVideoInfos;

verus! {

broadcast use vstd::string::group_string_axioms;

#[verifier::external_type_specification]
#[verifier::external_body]
pub struct ExRegex(regex::Regex);

/// The regex text that pomsky emits for a source, for the Rust flavour.
pub uninterp spec fn pomsky_regex(source: Seq<char>) -> Option<Seq<char>>;

/// Whether the `regex` crate accepts a pattern.
pub uninterp spec fn regex_compiles(pattern: Seq<char>) -> bool;

/// Whether a pattern matches somewhere in a text.
pub uninterp spec fn regex_is_match(pattern: Seq<char>, text: Seq<char>) -> bool;

/// What a named group captured in the leftmost match of a pattern in a text.
pub uninterp spec fn regex_group(pattern: Seq<char>, text: Seq<char>, group: Seq<char>) -> Option<Seq<char>>;

/// The names of a pattern's capture groups, `None` for unnamed ones.
pub uninterp spec fn regex_group_names(pattern: Seq<char>) -> Seq<Option<Seq<char>>>;

/// Definitions every configured pattern may use.
pub const POMSKY_HEADER: &'static str = "
    let https = \"http\" 's'? \"://\";
    let www = \"www.\"?;
    let id = !['\\']+;
";

/// The capture group that holds an item id.
pub const ID_GROUP: &'static str = "id";

/// A compiled pattern, with the regex text it was compiled from. Only
/// `compile_regex` builds one, so `regex` is always `pattern` compiled; the
/// matching wrappers below rely on that.
#[derive(Debug)]
pub struct Matcher {
    pattern: String,
    regex: regex::Regex,
}

impl View for Matcher {
    type V = Seq<char>;

    closed spec fn view(&self) -> Seq<char> {
        self.pattern@
    }
}

/// Relies on pomsky's `Expr::parse_and_compile` (Rust flavour, default
/// options): the regex text emitted, or the diagnostics' messages.
#[verifier::external_body]
fn pomsky_compile(source: &str) -> (r: Result<String, Vec<String>>)
    ensures
        match r {
            Ok(t) => pomsky_regex(source@) == Some(t@),
            Err(_) => pomsky_regex(source@) is None,
        },
{
    let options = pomsky::options::CompileOptions {
        flavor: pomsky::options::RegexFlavor::Rust,
        ..Default::default()
    };
    match pomsky::Expr::parse_and_compile(source, options) {
        (Some(regex), _, _) => Ok(regex),
        (None, diagnostics, _) => Err(diagnostics.into_iter().map(|d| d.msg).collect()),
    }
}

/// Relies on `regex::Regex::new`: it succeeds exactly on accepted patterns.
#[verifier::external_body]
fn compile_regex(pattern: String) -> (r: Option<Matcher>)
    ensures
        r is Some == regex_compiles(pattern@),
        r matches Some(m) ==> m@ == pattern@,
{
    match regex::Regex::new(&pattern) {
        Ok(regex) => Some(Matcher { pattern, regex }),
        Err(_) => None,
    }
}

/// Relies on `regex::Regex::is_match`.
#[verifier::external_body]
fn matcher_is_match(m: &Matcher, text: &str) -> (r: bool)
    ensures
        r == regex_is_match(m@, text@),
{
    m.regex.is_match(text)
}

/// Relies on `regex::Regex::captures` and `Captures::name`: no captures when
/// there is no match, else what the group captured, if it took part.
#[verifier::external_body]
fn matcher_group(m: &Matcher, text: &str, group: &str) -> (r: Option<Option<String>>)
    ensures
        r is Some == regex_is_match(m@, text@),
        r matches Some(g) ==> match g {
            Some(s) => regex_group(m@, text@, group@) == Some(s@),
            None => regex_group(m@, text@, group@) is None,
        },
{
    match m.regex.captures(text) {
        None => None,
        Some(c) => Some(c.name(group).map(|g| g.as_str().to_string())),
    }
}

/// Relies on `regex::Regex::capture_names`.
#[verifier::external_body]
fn matcher_group_names(m: &Matcher) -> (r: Vec<Option<String>>)
    ensures
        r@.len() == regex_group_names(m@).len(),
        forall|i: int|
            0 <= i < r@.len() ==> match #[trigger] r@[i] {
                Some(s) => regex_group_names(m@)[i] == Some(s@),
                None => regex_group_names(m@)[i] is None,
            },
{
    m.regex.capture_names().map(|n| n.map(|s| s.to_string())).collect()
}

/// The regex a configured pattern compiles to, if both steps succeed.
pub open spec fn compiled_pattern(source: Seq<char>) -> Option<Seq<char>> {
    match pomsky_regex(POMSKY_HEADER@ + source) {
        Some(t) => if regex_compiles(t) {
            Some(t)
        } else {
            None
        },
        None => None,
    }
}

/// Compiles one configured pattern.
pub fn compile_pomsky(source: &str) -> (r: Result<Matcher, Vec<String>>)
    ensures
        r is Ok == compiled_pattern(source@) is Some,
        r matches Ok(m) ==> Some(m@) == compiled_pattern(source@),
{
    let full = concat(POMSKY_HEADER, source);
    match pomsky_compile(full.as_str()) {
        Err(diagnostics) => Err(diagnostics),
        Ok(text) => match compile_regex(text) {
            Some(m) => Ok(m),
            None => Err(Vec::new()),
        },
    }
}

/// The three compiled pattern sets of one source.
#[derive(Debug)]
pub struct PlatformMatchingRegexes {
    pub platform_url_matcher: Matcher,
    pub playlist_url_matchers: Vec<Matcher>,
    pub id_from_video_url: Matcher,
}

/// Compiled matchers by source name.
pub type PlatformsMatchers = Vec<(String, PlatformMatchingRegexes)>;

/// Which pattern of a source is at fault.
#[derive(Clone, Copy, Debug, PartialEq, Eq, Structural)]
pub enum PlatformErrorKind {
    InvalidUrlMatcher,
    InvalidPlaylistMatcher,
    InvalidVideosRegex,
    /// The item pattern has no `id` capture group.
    MissingIdGroup,
}

/// A source whose patterns cannot be used.
#[derive(Debug)]
pub struct PlatformError {
    pub platform: String,
    pub kind: PlatformErrorKind,
    /// The pattern compiler's messages, if it gave any.
    pub diagnostics: Vec<String>,
}

pub open spec fn playlist_sources(pc: PlatformConfig) -> Seq<String> {
    match pc.playlist_url_matchers {
        Some(v) => v@,
        None => seq![],
    }
}

pub open spec fn has_id_group(pattern: Seq<char>) -> bool {
    exists|i: int|
        0 <= i < regex_group_names(pattern).len() && regex_group_names(pattern)[i] == Some(
            ID_GROUP@,
        )
}

/// The first problem with a source's patterns, in the order they are compiled.
pub open spec fn platform_problem(pc: PlatformConfig) -> Option<PlatformErrorKind> {
    if compiled_pattern(pc.platform_url_matcher@) is None {
        Some(PlatformErrorKind::InvalidUrlMatcher)
    } else if exists|j: int|
        0 <= j < playlist_sources(pc).len() && compiled_pattern(playlist_sources(pc)[j]@) is None {
        Some(PlatformErrorKind::InvalidPlaylistMatcher)
    } else if compiled_pattern(pc.videos_url_regex@) is None {
        Some(PlatformErrorKind::InvalidVideosRegex)
    } else if !has_id_group(compiled_pattern(pc.videos_url_regex@)->0) {
        Some(PlatformErrorKind::MissingIdGroup)
    } else {
        None
    }
}

/// `m` holds the compiled patterns of `pc`.
pub open spec fn compiled_as(m: PlatformMatchingRegexes, pc: PlatformConfig) -> bool {
    &&& Some(m.platform_url_matcher@) == compiled_pattern(pc.platform_url_matcher@)
    &&& m.playlist_url_matchers@.len() == playlist_sources(pc).len()
    &&& forall|j: int|
        0 <= j < m.playlist_url_matchers@.len() ==> Some(m.playlist_url_matchers@[j]@)
            == compiled_pattern(#[trigger] playlist_sources(pc)[j]@)
    &&& Some(m.id_from_video_url@) == compiled_pattern(pc.videos_url_regex@)
}

fn compile_platform(name: &String, pc: &PlatformConfig) -> (r: Result<PlatformMatchingRegexes, PlatformError>)
    ensures
        r is Ok == (platform_problem(*pc) is None),
        r matches Ok(m) ==> compiled_as(m, *pc),
        r matches Err(e) ==> e.platform == *name && Some(e.kind) == platform_problem(*pc),
{
    let platform_url_matcher = match compile_pomsky(pc.platform_url_matcher.as_str()) {
        Ok(m) => m,
        Err(diagnostics) => {
            return Err(PlatformError { platform: name.clone(), kind: PlatformErrorKind::InvalidUrlMatcher, diagnostics });
        },
    };
    let mut playlist_url_matchers: Vec<Matcher> = Vec::new();
    match &pc.playlist_url_matchers {
        None => {},
        Some(sources) => {
            let mut j: usize = 0;
            while j < sources.len()
                invariant
                    j <= sources@.len(),
                    playlist_sources(*pc) == sources@,
                    Some(platform_url_matcher@) == compiled_pattern(pc.platform_url_matcher@),
                    playlist_url_matchers@.len() == j,
                    forall|k: int| 0 <= k < j ==> Some(playlist_url_matchers@[k]@) == compiled_pattern(#[trigger] sources@[k]@),
                decreases sources.len() - j,
            {
                match compile_pomsky(sources[j].as_str()) {
                    Ok(m) => playlist_url_matchers.push(m),
                    Err(diagnostics) => {
                        assert(compiled_pattern(playlist_sources(*pc)[j as int]@) is None);
                        return Err(PlatformError { platform: name.clone(), kind: PlatformErrorKind::InvalidPlaylistMatcher, diagnostics });
                    },
                }
                j = j + 1;
            }
        },
    }
    let id_from_video_url = match compile_pomsky(pc.videos_url_regex.as_str()) {
        Ok(m) => m,
        Err(diagnostics) => {
            return Err(PlatformError { platform: name.clone(), kind: PlatformErrorKind::InvalidVideosRegex, diagnostics });
        },
    };
    let names = matcher_group_names(&id_from_video_url);
    let mut found = false;
    let mut i: usize = 0;
    while i < names.len()
        invariant
            i <= names@.len() == regex_group_names(id_from_video_url@).len(),
            forall|k: int| 0 <= k < names@.len() ==> match #[trigger] names@[k] {
                Some(s) => regex_group_names(id_from_video_url@)[k] == Some(s@),
                None => regex_group_names(id_from_video_url@)[k] is None,
            },
            found == exists|k: int| 0 <= k < i && regex_group_names(id_from_video_url@)[k] == Some(ID_GROUP@),
        decreases names.len() - i,
    {
        let hit = match &names[i] {
            Some(n) => str_eq(n.as_str(), ID_GROUP),
            None => false,
        };
        assert(hit == (regex_group_names(id_from_video_url@)[i as int] == Some(ID_GROUP@))) by {
            match names@[i as int] {
                Some(s) => {},
                None => {},
            }
        }
        found = found || hit;
        i = i + 1;
    }
    if !found {
        return Err(PlatformError { platform: name.clone(), kind: PlatformErrorKind::MissingIdGroup, diagnostics: Vec::new() });
    }
    Ok(PlatformMatchingRegexes { platform_url_matcher, playlist_url_matchers, id_from_video_url })
}

/// Compiles the patterns of every configured source, in order; the first
/// source with a problem is reported.
pub fn build_platform_matchers(config: &Config) -> (r: Result<PlatformsMatchers, PlatformError>)
    ensures
        r is Ok == forall|i: int| 0 <= i < config.platforms@.len() ==> (#[trigger] platform_problem(config.platforms@[i].1) is None),
        r matches Ok(ms) ==> {
            &&& ms@.len() == config.platforms@.len()
            &&& forall|i: int| 0 <= i < ms@.len() ==> #[trigger] ms@[i].0 == config.platforms@[i].0 && compiled_as(ms@[i].1, config.platforms@[i].1)
        },
        r matches Err(e) ==> exists|i: int| {
            &&& 0 <= i < config.platforms@.len()
            &&& forall|j: int| 0 <= j < i ==> (#[trigger] platform_problem(config.platforms@[j].1) is None)
            &&& Some(e.kind) == platform_problem(config.platforms@[i].1)
            &&& e.platform == config.platforms@[i].0
        },
{
    let mut ms: PlatformsMatchers = Vec::new();
    let mut i: usize = 0;
    while i < config.platforms.len()
        invariant
            i <= config.platforms@.len(),
            ms@.len() == i,
            forall|j: int| 0 <= j < i ==> (#[trigger] platform_problem(config.platforms@[j].1) is None),
            forall|j: int| 0 <= j < i ==> #[trigger] ms@[j].0 == config.platforms@[j].0 && compiled_as(ms@[j].1, config.platforms@[j].1),
        decreases config.platforms.len() - i,
    {
        let (name, pc) = (&config.platforms[i].0, &config.platforms[i].1);
        match compile_platform(name, pc) {
            Ok(m) => ms.push((name.clone(), m)),
            Err(e) => {
                assert(platform_problem(config.platforms@[i as int].1) is Some);
                return Err(e);
            },
        }
        i = i + 1;
    }
    Ok(ms)
}

/// The position of the first matchers registered under `name`.
pub open spec fn matchers_named(ms: Seq<(String, PlatformMatchingRegexes)>, name: Seq<char>) -> Option<int> {
    if exists|i: int| 0 <= i < ms.len() && ms[i].0@ == name {
        Some(choose|i: int| 0 <= i < ms.len() && ms[i].0@ == name && forall|j: int| 0 <= j < i ==> ms[j].0@ != name)
    } else {
        None
    }
}

fn find_matchers(ms: &PlatformsMatchers, name: &str) -> (r: Option<usize>)
    ensures
        r matches Some(i) ==> matchers_named(ms@, name@) == Some(i as int) && i < ms@.len(),
        r is None ==> matchers_named(ms@, name@) is None,
{
    let mut i: usize = 0;
    while i < ms.len()
        invariant
            i <= ms@.len(),
            forall|j: int| 0 <= j < i ==> ms@[j].0@ != name@,
        decreases ms.len() - i,
    {
        if str_eq(ms[i].0.as_str(), name) {
            let ghost s = ms@;
            assert forall|k: int| 0 <= k < s.len() && s[k].0@ == name@ && (forall|j: int| 0 <= j < k ==> s[j].0@ != name@) implies k == i by {
                if k > i {
                    assert(s[i as int].0@ == name@);
                }
            }
            return Some(i);
        }
        i = i + 1;
    }
    None
}

/// A source recognised for a URL.
#[derive(Debug)]
pub struct FoundPlatform {
    pub platform_name: String,
    /// Position of the source in the configuration.
    pub platform_index: usize,
    /// Position of its matchers in the registry.
    pub matchers_index: usize,
    /// Whether the URL is a list URL rather than an item URL.
    pub is_playlist: bool,
}

/// Why no source could be settled on for a URL.
#[derive(Debug)]
pub enum LookupError {
    /// A configured source has no compiled matchers.
    MissingMatchers { platform: String },
    /// The source recognises the URL but neither as an item nor as a list.
    UnrecognisedUrl { platform: String },
    /// No source recognises the URL.
    NoPlatform,
}

pub open spec fn any_match(ms: Seq<Matcher>, url: Seq<char>) -> bool {
    exists|j: int| 0 <= j < ms.len() && regex_is_match(#[trigger] ms[j]@, url)
}

/// Classifying `url` against the sources from the `i`-th on: the source,
/// its matchers and whether the URL is a list; or the source at fault and
/// whether its matchers are missing.
pub open spec fn find_from(
    url: Seq<char>,
    ps: Seq<(String, PlatformConfig)>,
    ms: Seq<(String, PlatformMatchingRegexes)>,
    i: int,
) -> Result<Option<(int, int, bool)>, (int, bool)>
    decreases ps.len() - i,
{
    if i < 0 || i >= ps.len() {
        Ok(None)
    } else {
        match matchers_named(ms, ps[i].0@) {
            None => Err((i, true)),
            Some(k) => {
                let m = ms[k].1;
                if regex_is_match(m.id_from_video_url@, url) {
                    Ok(Some((i, k, false)))
                } else if any_match(m.playlist_url_matchers@, url) {
                    Ok(Some((i, k, true)))
                } else if regex_is_match(m.platform_url_matcher@, url) {
                    Err((i, false))
                } else {
                    find_from(url, ps, ms, i + 1)
                }
            },
        }
    }
}

/// Finds the source of a URL. Sources are tried in configuration order; for
/// each, its item pattern first, then its list patterns, then its generic
/// pattern, which matching alone is an inconsistency.
pub fn try_find_platform(url: &str, config: &Config, matchers: &PlatformsMatchers) -> (r: Result<Option<FoundPlatform>, LookupError>)
    ensures
        match r {
            Ok(Some(f)) => {
                &&& find_from(url@, config.platforms@, matchers@, 0) == Ok::<_, (int, bool)>(Some((f.platform_index as int, f.matchers_index as int, f.is_playlist)))
                &&& f.platform_index < config.platforms@.len()
                &&& f.matchers_index < matchers@.len()
                &&& f.platform_name == config.platforms@[f.platform_index as int].0
            },
            Ok(None) => find_from(url@, config.platforms@, matchers@, 0) == Ok::<Option<(int, int, bool)>, (int, bool)>(None),
            Err(LookupError::MissingMatchers { platform }) => find_from(url@, config.platforms@, matchers@, 0) matches Err((i, true)) && 0 <= i < config.platforms@.len() && platform == config.platforms@[i].0,
            Err(LookupError::UnrecognisedUrl { platform }) => find_from(url@, config.platforms@, matchers@, 0) matches Err((i, false)) && 0 <= i < config.platforms@.len() && platform == config.platforms@[i].0,
            Err(LookupError::NoPlatform) => false,
        },
{
    let ghost ps = config.platforms@;
    let ghost ms = matchers@;
    let mut i: usize = 0;
    while i < config.platforms.len()
        invariant
            i <= ps.len(),
            ps == config.platforms@,
            ms == matchers@,
            find_from(url@, ps, ms, 0) == find_from(url@, ps, ms, i as int),
        decreases config.platforms.len() - i,
    {
        let name = &config.platforms[i].0;
        let k = match find_matchers(matchers, name.as_str()) {
            None => {
                assert(find_from(url@, ps, ms, i as int) == Err::<Option<(int, int, bool)>, _>((i as int, true)));
                return Err(LookupError::MissingMatchers { platform: name.clone() });
            },
            Some(k) => k,
        };
        let m = &matchers[k].1;
        assert(matchers_named(ms, ps[i as int].0@) == Some(k as int));
        if matcher_is_match(&m.id_from_video_url, url) {
            assert(find_from(url@, ps, ms, i as int) == Ok::<_, (int, bool)>(Some((i as int, k as int, false))));
            return Ok(Some(FoundPlatform { platform_name: name.clone(), platform_index: i, matchers_index: k, is_playlist: false }));
        }
        let mut j: usize = 0;
        while j < m.playlist_url_matchers.len()
            invariant
                j <= m.playlist_url_matchers@.len(),
                forall|l: int| 0 <= l < j ==> !regex_is_match(#[trigger] m.playlist_url_matchers@[l]@, url@),
                i < ps.len(),
                ps == config.platforms@,
                ms == matchers@,
                k < ms.len(),
                *m == ms[k as int].1,
                matchers_named(ms, ps[i as int].0@) == Some(k as int),
                !regex_is_match(m.id_from_video_url@, url@),
                find_from(url@, ps, ms, 0) == find_from(url@, ps, ms, i as int),
                *name == ps[i as int].0,
            decreases m.playlist_url_matchers.len() - j,
        {
            if matcher_is_match(&m.playlist_url_matchers[j], url) {
                assert(any_match(m.playlist_url_matchers@, url@));
                assert(find_from(url@, ps, ms, i as int) == Ok::<_, (int, bool)>(Some((i as int, k as int, true))));
                return Ok(Some(FoundPlatform { platform_name: name.clone(), platform_index: i, matchers_index: k, is_playlist: true }));
            }
            j = j + 1;
        }
        assert(!any_match(m.playlist_url_matchers@, url@));
        if matcher_is_match(&m.platform_url_matcher, url) {
            assert(find_from(url@, ps, ms, i as int) == Err::<Option<(int, int, bool)>, _>((i as int, false)));
            return Err(LookupError::UnrecognisedUrl { platform: name.clone() });
        }
        assert(find_from(url@, ps, ms, i as int) == find_from(url@, ps, ms, i + 1));
        i = i + 1;
    }
    Ok(None)
}

/// Like `try_find_platform`, with a URL that no source recognises an error.
pub fn find_platform(url: &str, config: &Config, matchers: &PlatformsMatchers) -> (r: Result<FoundPlatform, LookupError>)
    ensures
        match r {
            Ok(f) => {
                &&& find_from(url@, config.platforms@, matchers@, 0) == Ok::<_, (int, bool)>(Some((f.platform_index as int, f.matchers_index as int, f.is_playlist)))
                &&& f.platform_index < config.platforms@.len()
                &&& f.matchers_index < matchers@.len()
                &&& f.platform_name == config.platforms@[f.platform_index as int].0
            },
            Err(LookupError::NoPlatform) => find_from(url@, config.platforms@, matchers@, 0) == Ok::<Option<(int, int, bool)>, (int, bool)>(None),
            Err(LookupError::MissingMatchers { platform }) => find_from(url@, config.platforms@, matchers@, 0) matches Err((i, true)) && 0 <= i < config.platforms@.len() && platform == config.platforms@[i].0,
            Err(LookupError::UnrecognisedUrl { platform }) => find_from(url@, config.platforms@, matchers@, 0) matches Err((i, false)) && 0 <= i < config.platforms@.len() && platform == config.platforms@[i].0,
        },
{
    match try_find_platform(url, config, matchers) {
        Ok(Some(f)) => Ok(f),
        Ok(None) => Err(LookupError::NoPlatform),
        Err(e) => Err(e),
    }
}

/// Why an item's id could not be extracted.
#[derive(Clone, Copy, Debug, PartialEq, Eq, Structural)]
pub enum IdError {
    /// No matchers are registered under the item's source key.
    UnknownPlatform,
    /// The item URL does not match its source's item pattern.
    NoMatch,
    /// The pattern matched without its `id` group taking part.
    NoIdGroup,
}

/// The id an item's URL carries, by its source's item pattern.
pub open spec fn video_id_of(url: Seq<char>, ie_key: Seq<char>, ms: Seq<(String, PlatformMatchingRegexes)>) -> Result<Seq<char>, IdError> {
    match matchers_named(ms, ie_key) {
        None => Err(IdError::UnknownPlatform),
        Some(k) => {
            let p = ms[k].1.id_from_video_url@;
            if !regex_is_match(p, url) {
                Err(IdError::NoMatch)
            } else {
                match regex_group(p, url, ID_GROUP@) {
                    None => Err(IdError::NoIdGroup),
                    Some(id) => Ok(id),
                }
            }
        },
    }
}

/// Extracts an item's id from its URL.
pub fn determine_video_id(video: &RawVideoInfos, matchers: &PlatformsMatchers) -> (r: Result<String, IdError>)
    ensures
        match r {
            Ok(id) => video_id_of(video.url@, video.ie_key@, matchers@) == Ok::<_, IdError>(id@),
            Err(e) => video_id_of(video.url@, video.ie_key@, matchers@) == Err::<Seq<char>, _>(e),
        },
{
    match find_matchers(matchers, video.ie_key.as_str()) {
        None => Err(IdError::UnknownPlatform),
        Some(k) => match matcher_group(&matchers[k].1.id_from_video_url, video.url.as_str(), ID_GROUP) {
            None => Err(IdError::NoMatch),
            Some(None) => Err(IdError::NoIdGroup),
            Some(Some(id)) => Ok(id),
        },
    }
}

/// The id an item URL carries by a source's item pattern, if it matches
/// and its `id` group takes part.
pub fn video_id_from_url(m: &PlatformMatchingRegexes, url: &str) -> (r: Option<String>)
    ensures
        r matches Some(id) ==> regex_is_match(m.id_from_video_url@, url@) && regex_group(m.id_from_video_url@, url@, ID_GROUP@) == Some(id@),
        r is None ==> !regex_is_match(m.id_from_video_url@, url@) || regex_group(m.id_from_video_url@, url@, ID_GROUP@) is None,
{
    match matcher_group(&m.id_from_video_url, url, ID_GROUP) {
        Some(Some(id)) => Some(id),
        _ => None,
    }
}

} // verus!
