use ytdl::blacklist::{load_optional_blacklists, Blacklist, BlacklistEntry, EntryError};

fn pairs(b: &Blacklist) -> Vec<(String, String)> {
    b.0.iter().map(|e| (e.ie_key.clone(), e.video_id.clone())).collect()
}

#[test]
fn decode_skips_comments_and_blank_lines() {
    let b = Blacklist::decode("# kept by hand\n\nyoutube/abc\r\nvimeo/123\n").unwrap();
    assert_eq!(
        pairs(&b),
        vec![("youtube".to_string(), "abc".to_string()), ("vimeo".to_string(), "123".to_string())]
    );
}

#[test]
fn decode_empty_content() {
    assert!(Blacklist::decode("").unwrap().0.is_empty());
    assert!(Blacklist::decode(" \n\t\n").unwrap().0.is_empty());
}

#[test]
fn decode_reports_missing_id_with_line_number() {
    let e = Blacklist::decode("a/b\nbad\nc/d").unwrap_err();
    assert_eq!(e.line, 2);
    assert_eq!(e.cause, EntryError::MissingVideoId);
}

#[test]
fn decode_reports_too_many_segments() {
    let e = Blacklist::decode("a/b/c").unwrap_err();
    assert_eq!(e.line, 1);
    assert_eq!(e.cause, EntryError::TooManySegments);
}

#[test]
fn decode_numbers_lines_of_trimmed_content() {
    let e = Blacklist::decode("\n\n  x\n").unwrap_err();
    assert_eq!(e.line, 1);
}

#[test]
fn entry_decode_splits_on_the_slash() {
    let e = BlacklistEntry::decode("src/id-1").unwrap();
    assert_eq!(e.ie_key, "src");
    assert_eq!(e.video_id, "id-1");
    let e = BlacklistEntry::decode("/only-id").unwrap();
    assert_eq!(e.ie_key, "");
    assert_eq!(e.video_id, "only-id");
}

#[test]
fn is_blacklisted_matches_both_fields() {
    let b = Blacklist::decode("youtube/abc\nvimeo/123").unwrap();
    assert!(b.is_blacklisted("youtube", "abc"));
    assert!(b.is_blacklisted("vimeo", "123"));
    assert!(!b.is_blacklisted("youtube", "123"));
    assert!(!b.is_blacklisted("vimeo", "abc"));
    assert!(!Blacklist::empty().is_blacklisted("youtube", "abc"));
}

#[test]
fn encode_then_decode_gives_the_entry() {
    let e = BlacklistEntry::new("youtube".to_string(), "dQw4w9WgXcQ".to_string());
    let line = e.encode();
    assert_eq!(line, "youtube/dQw4w9WgXcQ");
    let back = BlacklistEntry::decode(&line).unwrap();
    assert_eq!(back.ie_key, "youtube");
    assert_eq!(back.video_id, "dQw4w9WgXcQ");
}

#[test]
fn appended_entry_is_listed() {
    let before = "# auto\nvimeo/1\n";
    let e = BlacklistEntry::new("youtube".to_string(), "x-y".to_string());
    let after = format!("{before}{}\n", e.encode());
    let b = Blacklist::decode(&after).unwrap();
    assert!(b.is_blacklisted("youtube", "x-y"));
    assert!(b.is_blacklisted("vimeo", "1"));
}

#[test]
fn load_optional_blacklists_merges_in_order() {
    let files = vec![None, Some("a/1\nb/2".to_string()), Some("c/3".to_string())];
    let b = load_optional_blacklists(&files).unwrap();
    assert_eq!(
        pairs(&b),
        vec![
            ("a".to_string(), "1".to_string()),
            ("b".to_string(), "2".to_string()),
            ("c".to_string(), "3".to_string())
        ]
    );
    assert!(load_optional_blacklists(&vec![None, None]).unwrap().0.is_empty());
}

#[test]
fn load_optional_blacklists_names_the_failing_file() {
    let files = vec![Some("a/1".to_string()), Some("ok/1\nbroken".to_string())];
    let e = load_optional_blacklists(&files).unwrap_err();
    assert_eq!(e.file, 1);
    assert_eq!(e.error.line, 2);
    assert_eq!(e.error.cause, EntryError::MissingVideoId);
}
