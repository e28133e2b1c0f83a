use ytdl::cache::{Cache, CacheEntry};
use ytdl::config::{Config, PlatformConfig, PlatformDownloadOptions};
use ytdl::sync::{blacklist_request, distinct, setup_action, sync_downloads, SetupAction, SyncError};

fn config() -> Config {
    Config {
        yt_dlp_bin: "yt-dlp".to_string(),
        tmp_dir: "/tmp".to_string(),
        url_filename: "u".to_string(),
        cache_filename: "c".to_string(),
        auto_blacklist_filename: "a".to_string(),
        custom_blacklist_filename: "b".to_string(),
        default_bandwidth_limit: None,
        platforms: vec![(
            "ex".to_string(),
            PlatformConfig {
                platform_url_matcher: "\"ex\"".to_string(),
                videos_url_regex: "\"ex/\" :id([word]+)".to_string(),
                videos_url_prefix: "ex/".to_string(),
                playlist_url_matchers: None,
                redirect_playlist_videos: None,
                dl_options: PlatformDownloadOptions {
                    bandwidth_limit: None,
                    needs_checking: None,
                    rate_limited: None,
                    cookies: None,
                    skip_repair_date: None,
                    output_format: None,
                    download_format: None,
                    no_thumbnail: None,
                    forward_ytdlp_args: None,
                },
            },
        )],
    }
}

fn entry(ie_key: &str, id: &str, dir: &str) -> CacheEntry {
    CacheEntry { ie_key: ie_key.to_string(), id: id.to_string(), title: format!("T{id}"), url: format!("ex/{id}"), index: 0, sync_dir: dir.to_string() }
}

#[test]
fn setup_decisions() {
    assert_eq!(setup_action(None, "https://a"), SetupAction::Create);
    assert_eq!(setup_action(Some("https://a"), "https://a"), SetupAction::AlreadySet);
    assert_eq!(setup_action(Some("https://b"), "https://a"), SetupAction::Conflict);
}

#[test]
fn blacklist_request_needs_a_known_source() {
    let c = config();
    let e = blacklist_request(&c, "ex".to_string(), "abc".to_string()).unwrap();
    assert_eq!(e.encode(), "ex/abc");
    assert!(matches!(blacklist_request(&c, "zz".to_string(), "abc".to_string()), Err(SyncError::UnknownPlatform { .. })));
}

#[test]
fn cache_entries_become_downloads_into_their_directory() {
    let c = config();
    let cache = Cache { entries: vec![entry("ex", "a", "."), entry("ex", "b", "sub/dir")], max_index: 5 };
    let items = sync_downloads(&cache, &c).unwrap();
    assert_eq!(items.len(), 2);
    assert_eq!(items[0].0, "ex/a");
    assert_eq!(items[1].1.output_dir.as_deref(), Some("sub/dir"));
    assert!(!items[1].1.rate_limited);
}

#[test]
fn unregistered_cache_entry_is_refused() {
    let c = config();
    let cache = Cache { entries: vec![entry("ex", "a", "."), entry("gone", "b", ".")], max_index: 2 };
    match sync_downloads(&cache, &c) {
        Err(SyncError::UnregisteredEntry { ie_key, title }) => {
            assert_eq!(ie_key, "gone");
            assert_eq!(title, "Tb");
        },
        other => panic!("unexpected: {other:?}"),
    }
}

#[test]
fn distinct_keeps_first_occurrences() {
    let names: Vec<String> = ["a", "B", "a", "c", "B"].iter().map(|s| s.to_string()).collect();
    assert_eq!(distinct(&names), vec!["a", "B", "c"]);
    assert!(distinct(&vec![]).is_empty());
}
