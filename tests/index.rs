use ytdl::index::{build_approximate_index, id_candidates, video_id_of_filename};

#[test]
fn filename_id_after_the_last_title_hyphen_run() {
    assert_eq!(video_id_of_filename("My Video-abc123.mp4").as_deref(), Some("abc123"));
    assert_eq!(video_id_of_filename("A song-x_Y-9.flac").as_deref(), Some("x_Y-9"));
    assert_eq!(
        video_id_of_filename("Title-with-dash-XyZ_9.webm").as_deref(),
        Some("with-dash-XyZ_9")
    );
}

#[test]
fn filename_without_the_indexed_shape() {
    assert_eq!(video_id_of_filename("notes-abc.txt"), None);
    assert_eq!(video_id_of_filename("noid.mp4"), None);
    assert_eq!(video_id_of_filename("empty-.mp4"), None);
    assert_eq!(video_id_of_filename("upper-abc.MP4"), None);
    assert_eq!(video_id_of_filename("space-a b.mkv"), None);
    assert_eq!(video_id_of_filename(""), None);
}

#[test]
fn candidates_are_the_hyphen_suffixes() {
    assert_eq!(id_candidates("a-b-c"), vec!["a-b-c", "b-c", "c"]);
    assert_eq!(id_candidates("plain"), vec!["plain"]);
    assert_eq!(id_candidates("a--b"), vec!["a--b", "-b", "b"]);
}

#[test]
fn candidate_count_is_the_segment_count() {
    let id = "one-two-three-four";
    let c = id_candidates(id);
    assert_eq!(c.len(), id.split('-').count());
    assert!(c.iter().any(|x| x == id));
}

#[test]
fn index_holds_the_true_id_whatever_the_title() {
    let names = vec!["Some-Title-dQw4w9-WgXcQ.mkv".to_string(), "cover.jpg".to_string()];
    let index = build_approximate_index(&names);
    assert!(index.contains("dQw4w9-WgXcQ"));
    assert!(index.contains("WgXcQ"));
    assert!(index.contains("Title-dQw4w9-WgXcQ"));
    assert!(!index.contains("Some"));
    assert!(!index.contains("cover"));
}

#[test]
fn empty_directory_indexes_nothing() {
    let index = build_approximate_index(&vec![]);
    assert!(index.ids.is_empty());
    assert!(!index.contains(""));
}
