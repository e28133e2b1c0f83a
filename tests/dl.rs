use ytdl::config::{Config, PlatformConfig, PlatformDownloadOptions, UseCookiesFrom};
use ytdl::dl::{
    build_download_args, check_repair_date, classify_downloads, download_from_args, expand_playlist, output_filenaming, parse_cookies_arg,
    parse_date, schedule_items, DlArgs, DlError, DownloadPlan, InvalidDate, SingleDlArgs, UploadDate, DEFAULT_BEST_VIDEO_FORMAT,
};
use ytdl::platforms::{build_platform_matchers, find_platform};
use ytdl::ytdlp::{RawPlaylist, RawVideoInfos};

fn no_options() -> PlatformDownloadOptions {
    PlatformDownloadOptions {
        bandwidth_limit: None,
        needs_checking: None,
        rate_limited: None,
        cookies: None,
        skip_repair_date: None,
        output_format: None,
        download_format: None,
        no_thumbnail: None,
        forward_ytdlp_args: None,
    }
}

fn args() -> SingleDlArgs {
    SingleDlArgs {
        no_platform: false,
        format: None,
        custom_temp_dir: None,
        no_temp_dir: false,
        output_dir: None,
        filenaming: None,
        index_prefix: false,
        limit_bandwidth: None,
        cookies: None,
        skip_repair_date: false,
        no_thumbnail: false,
        rate_limited: false,
        forward_ytdlp_args: vec![],
        prefetched_title: None,
    }
}

fn platform(host: &str, rate_limited: bool, redirect: bool, cookies: Option<UseCookiesFrom>) -> PlatformConfig {
    let mut o = no_options();
    o.rate_limited = Some(rate_limited);
    o.cookies = cookies;
    PlatformConfig {
        platform_url_matcher: format!("Start \"https://{host}/\""),
        videos_url_regex: format!("Start \"https://{host}/v/\" :id([word]+) End"),
        videos_url_prefix: format!("https://{host}/v/"),
        playlist_url_matchers: Some(vec![format!("Start \"https://{host}/list/\" [word]+ End")]),
        redirect_playlist_videos: Some(redirect),
        dl_options: o,
    }
}

fn config(platforms: Vec<(&str, PlatformConfig)>) -> Config {
    Config {
        yt_dlp_bin: "yt-dlp".to_string(),
        tmp_dir: "/tmp".to_string(),
        url_filename: "u".to_string(),
        cache_filename: "c".to_string(),
        auto_blacklist_filename: "a".to_string(),
        custom_blacklist_filename: "b".to_string(),
        default_bandwidth_limit: Some("10M".to_string()),
        platforms: platforms.into_iter().map(|(n, p)| (n.to_string(), p)).collect(),
    }
}

#[test]
fn default_arguments() {
    let c = config(vec![]);
    let v = build_download_args("https://x/v/1", &no_options(), &args(), &c, "/tmp/dl/%(upload_date)s---%(title)s.%(ext)s");
    assert_eq!(
        v,
        vec![
            "--format",
            DEFAULT_BEST_VIDEO_FORMAT,
            "--add-metadata",
            "--abort-on-unavailable-fragment",
            "--compat-options",
            "abort-on-error",
            "--limit-rate",
            "10M",
            "--embed-thumbnail",
            "-o",
            "/tmp/dl/%(upload_date)s---%(title)s.%(ext)s",
            "https://x/v/1",
        ]
    );
}

#[test]
fn options_resolve_call_then_source_then_default() {
    let c = config(vec![]);
    let mut o = no_options();
    o.bandwidth_limit = Some("5M".to_string());
    o.download_format = Some("bestaudio".to_string());
    o.output_format = Some("mkv".to_string());
    o.cookies = Some(UseCookiesFrom::File("/c.txt".to_string()));
    o.rate_limited = Some(true);
    o.forward_ytdlp_args = Some(vec!["--no-mtime".to_string()]);
    let mut a = args();
    a.format = Some("worst".to_string());
    a.cookies = Some(UseCookiesFrom::Browser("firefox".to_string()));
    a.forward_ytdlp_args = vec!["-v".to_string()];
    let v = build_download_args("U", &o, &a, &c, "O");
    assert_eq!(
        v,
        vec![
            "--format", "worst", "--add-metadata", "--abort-on-unavailable-fragment", "--compat-options", "abort-on-error",
            "--limit-rate", "5M", "--embed-thumbnail", "--merge-output-format", "mkv", "--cookies-from-browser", "firefox",
            "--sleep-requests=3", "-o", "O", "U", "--no-mtime", "-v",
        ]
    );
}

#[test]
fn no_thumbnail_drops_the_merge_format() {
    let mut c = config(vec![]);
    c.default_bandwidth_limit = None;
    let mut o = no_options();
    o.output_format = Some("mkv".to_string());
    o.no_thumbnail = Some(true);
    let v = build_download_args("U", &o, &args(), &c, "O");
    assert!(!v.iter().any(|s| s == "--embed-thumbnail" || s == "--merge-output-format" || s == "--limit-rate"));
}

#[test]
fn cookies_argument() {
    match parse_cookies_arg("browser:firefox").unwrap() {
        UseCookiesFrom::Browser(b) => assert_eq!(b, "firefox"),
        other => panic!("unexpected: {other:?}"),
    }
    match parse_cookies_arg("file:/home/me/c.txt").unwrap() {
        UseCookiesFrom::File(f) => assert_eq!(f, "/home/me/c.txt"),
        other => panic!("unexpected: {other:?}"),
    }
    assert_eq!(parse_cookies_arg("chrome").unwrap_err(), "Invalid cookies source: chrome");
}

#[test]
fn upload_dates() {
    assert_eq!(parse_date("NA"), Ok(None));
    assert_eq!(parse_date("20240131"), Ok(Some(UploadDate { year: 2024, month: 1, day: 31 })));
    assert_eq!(parse_date("19990101"), Err(InvalidDate));
    assert_eq!(parse_date("2024013"), Err(InvalidDate));
    assert_eq!(parse_date("2024a131"), Err(InvalidDate));
}

#[test]
fn index_prefix_is_zero_padded() {
    let mut a = args();
    a.index_prefix = true;
    assert_eq!(output_filenaming(&a, Some((4, 12))).unwrap(), "05. %(title)s-%(id)s.%(ext)s");
    assert_eq!(output_filenaming(&a, Some((99, 100))).unwrap(), "100. %(title)s-%(id)s.%(ext)s");
    assert!(matches!(output_filenaming(&a, None), Err(DlError::IndexPrefixOutsidePlaylist)));
    a.index_prefix = false;
    a.filenaming = Some("%(id)s.%(ext)s".to_string());
    assert_eq!(output_filenaming(&a, None).unwrap(), "%(id)s.%(ext)s");
}

#[test]
fn repairing_dates_needs_a_temporary_directory() {
    let mut a = args();
    assert!(check_repair_date(&a, &no_options()).is_ok());
    a.no_temp_dir = true;
    assert!(matches!(check_repair_date(&a, &no_options()), Err(DlError::RepairDateWithoutTempDir)));
    a.skip_repair_date = true;
    assert!(check_repair_date(&a, &no_options()).is_ok());
}

#[test]
fn batch_of_items() {
    let c = config(vec![("ex", platform("ex.com", true, false, None))]);
    let m = build_platform_matchers(&c).unwrap();
    let items = download_from_args(DlArgs { urls: vec!["https://ex.com/v/a".to_string(), "https://nowhere/x".to_string()], dl_url: args() });
    assert_eq!(items.len(), 2);
    match classify_downloads(&items, &c, &m).unwrap() {
        DownloadPlan::Videos { platforms } => {
            assert_eq!(platforms.len(), 2);
            assert_eq!(platforms[0].as_ref().unwrap().platform_name, "ex");
            assert!(platforms[1].is_none());
            let sched = schedule_items(&items, &platforms, &c);
            assert_eq!(sched[0].rate_limited_source.as_deref(), Some("ex"));
            assert_eq!(sched[1].rate_limited_source, None);
        },
        other => panic!("unexpected: {other:?}"),
    }
}

#[test]
fn single_list_url_is_a_list_download() {
    let c = config(vec![("ex", platform("ex.com", false, false, None))]);
    let m = build_platform_matchers(&c).unwrap();
    let one = vec![("https://ex.com/list/PL".to_string(), args())];
    assert!(matches!(classify_downloads(&one, &c, &m), Ok(DownloadPlan::Playlist { .. })));
    let two = vec![("https://ex.com/v/a".to_string(), args()), ("https://ex.com/list/PL".to_string(), args())];
    assert!(matches!(classify_downloads(&two, &c, &m), Err(DlError::MixedPlaylist)));
}

#[test]
fn repairing_dates_needs_a_source() {
    let c = config(vec![]);
    let mut a = args();
    a.no_platform = true;
    let items = vec![("https://x".to_string(), a)];
    assert!(matches!(classify_downloads(&items, &c, &vec![]), Err(DlError::RepairDateWithoutPlatform)));
}

#[test]
fn list_items_of_other_sources_are_redirected_or_skipped() {
    let entry = |url: &str| RawVideoInfos { ie_key: "x".to_string(), title: "t".to_string(), url: url.to_string() };
    let playlist = RawPlaylist { entries: vec![entry("https://music.ex/v/a"), entry("https://ex.com/v/b")] };
    let music_cookies = Some(UseCookiesFrom::Browser("chrome".to_string()));
    for redirect in [true, false] {
        let c = config(vec![("music", platform("music.ex", false, redirect, music_cookies.as_ref().map(|c| c.duplicate()))), ("ex", platform("ex.com", false, false, None))]);
        let m = build_platform_matchers(&c).unwrap();
        let list = find_platform("https://music.ex/list/PL", &c, &m).unwrap();
        let (items, skipped) = expand_playlist(&list, &args(), &playlist, &c, &m).unwrap();
        let urls: Vec<&str> = items.iter().map(|(u, _)| u.as_str()).collect();
        if redirect {
            assert_eq!(urls, vec!["https://music.ex/v/a", "https://music.ex/v/b"]);
            assert!(skipped.is_empty());
        } else {
            assert_eq!(urls, vec!["https://music.ex/v/a"]);
            assert_eq!(skipped, vec!["https://ex.com/v/b"]);
        }
        assert!(matches!(&items[0].1.cookies, Some(UseCookiesFrom::Browser(b)) if b == "chrome"));
    }
}

use ytdl::dl::VideoQuality;

#[test]
fn quality_presets_fall_back_to_lower_heights() {
    assert_eq!(VideoQuality::AbsoluteBest.to_yt_dlp_format(), "bestvideo*[height>=4320]+bestaudio/best[height>=4320]");
    let f = VideoQuality::Best1080p.to_yt_dlp_format();
    assert!(f.starts_with("bestvideo*[height>1080][height<1440]+bestaudio/best[height>1080][height<1440]/bestvideo*[height=1080]+bestaudio/best[height=1080]/bestvideo*[height>720][height<1080]"));
    assert!(f.ends_with("/bestvideo*[height=144]+bestaudio/best[height=144]/bestvideo*+bestaudio/bestvideo+bestaudio/best"));
    assert!(!f.contains("2160"));
    assert!(VideoQuality::Best2160p.to_yt_dlp_format().ends_with(VideoQuality::Best1440p.to_yt_dlp_format()));
    assert_eq!(VideoQuality::Best144p.to_yt_dlp_format(), "bestvideo*[height>144][height<240]+bestaudio/best[height>144][height<240]/bestvideo*[height=144]+bestaudio/best[height=144]/bestvideo*+bestaudio/bestvideo+bestaudio/best");
}
