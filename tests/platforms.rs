use ytdl::config::{Config, PlatformConfig, PlatformDownloadOptions};
use ytdl::platforms::{build_platform_matchers, determine_video_id, find_platform, try_find_platform, IdError, LookupError, PlatformErrorKind};
use ytdl::ytdlp::RawVideoInfos;

fn options() -> PlatformDownloadOptions {
    PlatformDownloadOptions {
        bandwidth_limit: None,
        needs_checking: None,
        rate_limited: None,
        cookies: None,
        skip_repair_date: None,
        output_format: None,
        download_format: None,
        no_thumbnail: None,
        forward_ytdlp_args: None,
    }
}

fn platform(url: &str, videos: &str, lists: &[&str]) -> PlatformConfig {
    PlatformConfig {
        platform_url_matcher: url.to_string(),
        videos_url_regex: videos.to_string(),
        videos_url_prefix: "https://ex.com/v/".to_string(),
        playlist_url_matchers: Some(lists.iter().map(|s| s.to_string()).collect()),
        redirect_playlist_videos: None,
        dl_options: options(),
    }
}

fn config(platforms: Vec<(&str, PlatformConfig)>) -> Config {
    Config {
        yt_dlp_bin: "yt-dlp".to_string(),
        tmp_dir: "/tmp".to_string(),
        url_filename: "u".to_string(),
        cache_filename: "c".to_string(),
        auto_blacklist_filename: "a".to_string(),
        custom_blacklist_filename: "b".to_string(),
        default_bandwidth_limit: None,
        platforms: platforms.into_iter().map(|(n, p)| (n.to_string(), p)).collect(),
    }
}

fn ex() -> PlatformConfig {
    platform(
        "Start https www \"ex.com/\"",
        "Start https www \"ex.com/v/\" :id([word '-']+) End",
        &["Start https www \"ex.com/list/\" [word]+ End"],
    )
}

#[test]
fn header_definitions_are_usable() {
    let c = config(vec![("ex", ex())]);
    let m = build_platform_matchers(&c).unwrap();
    assert_eq!(m.len(), 1);
    assert_eq!(m[0].0, "ex");
    let f = find_platform("http://www.ex.com/v/abc", &c, &m).unwrap();
    assert_eq!(f.platform_name, "ex");
    assert!(!f.is_playlist);
}

#[test]
fn item_and_list_urls_are_classified() {
    let c = config(vec![("ex", ex())]);
    let m = build_platform_matchers(&c).unwrap();
    assert!(!find_platform("https://ex.com/v/abc-1", &c, &m).unwrap().is_playlist);
    assert!(find_platform("https://ex.com/list/PL1", &c, &m).unwrap().is_playlist);
}

#[test]
fn url_of_the_source_but_neither_item_nor_list_is_an_error() {
    let c = config(vec![("ex", ex())]);
    let m = build_platform_matchers(&c).unwrap();
    match try_find_platform("https://ex.com/about", &c, &m) {
        Err(LookupError::UnrecognisedUrl { platform }) => assert_eq!(platform, "ex"),
        other => panic!("unexpected: {other:?}"),
    }
}

#[test]
fn url_of_no_source() {
    let c = config(vec![("ex", ex())]);
    let m = build_platform_matchers(&c).unwrap();
    assert!(try_find_platform("https://elsewhere.org/v/1", &c, &m).unwrap().is_none());
    assert!(matches!(find_platform("https://elsewhere.org/v/1", &c, &m), Err(LookupError::NoPlatform)));
}

#[test]
fn missing_matchers_are_reported() {
    let c = config(vec![("ex", ex())]);
    let empty = Vec::new();
    assert!(matches!(try_find_platform("https://ex.com/v/a", &c, &empty), Err(LookupError::MissingMatchers { .. })));
}

#[test]
fn invalid_pattern_is_reported() {
    let c = config(vec![("bad", platform("Start (", "Start :id([word]+)", &[]))]);
    let e = build_platform_matchers(&c).unwrap_err();
    assert_eq!(e.platform, "bad");
    assert_eq!(e.kind, PlatformErrorKind::InvalidUrlMatcher);
    assert!(!e.diagnostics.is_empty());
}

#[test]
fn invalid_list_pattern_is_reported() {
    let c = config(vec![("bad", platform("\"x\"", "Start :id([word]+)", &["\"ok\"", "("]))]);
    let e = build_platform_matchers(&c).unwrap_err();
    assert_eq!(e.kind, PlatformErrorKind::InvalidPlaylistMatcher);
}

#[test]
fn item_pattern_without_id_group_is_reported() {
    let c = config(vec![("noid", platform("\"x\"", "Start \"x/\" [word]+", &[]))]);
    let e = build_platform_matchers(&c).unwrap_err();
    assert_eq!(e.platform, "noid");
    assert_eq!(e.kind, PlatformErrorKind::MissingIdGroup);
}

#[test]
fn video_id_is_the_id_group() {
    let c = config(vec![("ex", ex())]);
    let m = build_platform_matchers(&c).unwrap();
    let v = RawVideoInfos { ie_key: "ex".to_string(), title: "t".to_string(), url: "https://ex.com/v/dQw4w9WgXcQ".to_string() };
    assert_eq!(determine_video_id(&v, &m).unwrap(), "dQw4w9WgXcQ");
}

#[test]
fn video_id_errors() {
    let c = config(vec![("ex", ex())]);
    let m = build_platform_matchers(&c).unwrap();
    let unknown = RawVideoInfos { ie_key: "zz".to_string(), title: "t".to_string(), url: "https://ex.com/v/a".to_string() };
    assert_eq!(determine_video_id(&unknown, &m).unwrap_err(), IdError::UnknownPlatform);
    let nomatch = RawVideoInfos { ie_key: "ex".to_string(), title: "t".to_string(), url: "https://ex.com/x/a".to_string() };
    assert_eq!(determine_video_id(&nomatch, &m).unwrap_err(), IdError::NoMatch);
    let c2 = config(vec![("opt", platform("\"o\"", "\"o/\" (:id([word]+))? \"!\"", &[]))]);
    let m2 = build_platform_matchers(&c2).unwrap();
    let absent = RawVideoInfos { ie_key: "opt".to_string(), title: "t".to_string(), url: "o/!".to_string() };
    assert_eq!(determine_video_id(&absent, &m2).unwrap_err(), IdError::NoIdGroup);
}

#[test]
fn first_source_in_configuration_order_wins() {
    let c = config(vec![("ex", ex()), ("mirror", ex())]);
    let m = build_platform_matchers(&c).unwrap();
    assert_eq!(find_platform("https://ex.com/v/a", &c, &m).unwrap().platform_name, "ex");
}
