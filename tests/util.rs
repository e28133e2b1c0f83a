use ytdl::util::sanitize_filename;

#[test]
fn sanitize_replaces_quotes_colons_and_slashes() {
    assert_eq!(sanitize_filename("A: B \"c\"/d"), "A - B 'c'_d");
}

#[test]
fn sanitize_keeps_letters_digits_and_allowed_punctuation() {
    assert_eq!(sanitize_filename("Été 2024 (live) [HD] #1 & co’s 90°!"), "Été 2024 (live) [HD] #1 & co’s 90°!");
    assert_eq!(sanitize_filename("a|b*c?"), "a_b_c_");
    assert_eq!(sanitize_filename(""), "");
}

#[test]
fn sanitize_colon_without_space_is_replaced() {
    assert_eq!(sanitize_filename("12:30"), "12_30");
}

use ytdl::util::{ansi_strip, split_upload_date};

#[test]
fn upload_date_is_split_from_the_file_name() {
    assert_eq!(
        split_upload_date("20240131---Title-abc.mkv"),
        Some(("20240131".to_string(), "Title-abc.mkv".to_string()))
    );
    assert_eq!(split_upload_date("NA---x.mp3"), Some(("NA".to_string(), "x.mp3".to_string())));
    assert_eq!(split_upload_date("---x.mp3"), None);
    assert_eq!(split_upload_date("2024---"), None);
    assert_eq!(split_upload_date("2024--x"), None);
    assert_eq!(split_upload_date("2024---a\nb"), None);
}

#[test]
fn ansi_strip_counts_columns_not_escapes() {
    assert_eq!(ansi_strip("hello world", 5), Some("hello"));
    assert_eq!(ansi_strip("\u{1b}[31mred\u{1b}[0m", 2), Some("\u{1b}[31mre"));
    assert_eq!(ansi_strip("\u{1b}[31mred\u{1b}[0m", 10), Some("\u{1b}[31mred\u{1b}[0m"));
    assert_eq!(ansi_strip("日本語", 5), Some("日本"));
    assert_eq!(ansi_strip("abc", 0), Some(""));
    assert_eq!(ansi_strip("ab\u{1b}[3", 10), None);
}
