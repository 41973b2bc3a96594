use media_organizer::classify::filter_video_files;
use media_organizer::classify::find_files_with_same_prefix;
use media_organizer::classify::get_video_file_entry;
use media_organizer::classify::delete_excluded_files;
use media_organizer::classify::FsEntry;
use media_organizer::subtitles::get_subtitle_entry;
use media_organizer::subtitles::subtitle_copy_needed;
use media_organizer::subtitles::normalize_url;
use media_organizer::subtitles::DirTree;
use media_organizer::urls::url_encode;
use media_organizer::urls::extract_title_id;

fn file(name: &str, size: u64) -> FsEntry {
    FsEntry {
        name: name.to_string(),
        size,
    }
}

fn dir(name: &str, files: Vec<FsEntry>, subdirs: Vec<DirTree>) -> DirTree {
    DirTree {
        name: name.to_string(),
        files,
        subdirs,
    }
}

#[test]
fn subtitle_ranking_prefers_english() {
    let d = dir(
        "Movie",
        vec![
            file("movie.fr.srt", 1),
            file("movie.english.srt", 1),
            file("movie.en.srt", 1),
        ],
        vec![],
    );
    let found = get_subtitle_entry(&d, 8).unwrap();
    assert_eq!(found, vec!["movie.english.srt".to_string()]);
}

#[test]
fn subtitle_ranking_falls_back_to_en_then_lexicographic() {
    let d = dir(
        "Movie",
        vec![file("zz.srt", 1), file("movie.en.srt", 1), file("aa.srt", 1)],
        vec![],
    );
    let found = get_subtitle_entry(&d, 8).unwrap();
    assert_eq!(found, vec!["movie.en.srt".to_string()]);

    let d2 = dir("Movie", vec![file("zz.srt", 1), file("aa.srt", 1)], vec![]);
    let found2 = get_subtitle_entry(&d2, 8).unwrap();
    assert_eq!(found2, vec!["aa.srt".to_string()]);
}

#[test]
fn nested_subtitle_is_found_depth_first() {
    let d = dir(
        "Movie",
        vec![file("movie.mkv", 10)],
        vec![
            dir("Extras", vec![], vec![]),
            dir("Subs", vec![file("movie.en.srt", 1)], vec![]),
        ],
    );
    let found = get_subtitle_entry(&d, 8).unwrap();
    assert_eq!(found, vec!["Subs".to_string(), "movie.en.srt".to_string()]);
    assert!(subtitle_copy_needed(&d, &found));
}

#[test]
fn root_subtitle_needs_no_copy() {
    let d = dir("Movie", vec![file("movie.en.srt", 1)], vec![]);
    let found = get_subtitle_entry(&d, 8).unwrap();
    assert_eq!(found, vec!["movie.en.srt".to_string()]);
    assert!(!subtitle_copy_needed(&d, &found));
}

#[test]
fn depth_limit_stops_the_search() {
    let d = dir(
        "Movie",
        vec![],
        vec![dir("Subs", vec![file("movie.en.srt", 1)], vec![])],
    );
    assert!(get_subtitle_entry(&d, 0).is_none());
    assert!(get_subtitle_entry(&d, 1).is_some());
}

#[test]
fn video_files_are_classified_by_extension() {
    let names = vec![
        "a.mkv".to_string(),
        "b.txt".to_string(),
        "c.MP4".to_string(),
        "d.srt".to_string(),
        "e.mov".to_string(),
        "f.avi".to_string(),
    ];
    let videos = filter_video_files(&names);
    assert_eq!(
        videos,
        vec![
            "a.mkv".to_string(),
            "c.MP4".to_string(),
            "e.mov".to_string(),
            "f.avi".to_string(),
        ]
    );
}

#[test]
fn largest_video_wins_and_first_breaks_ties() {
    let entries = vec![
        file("small.mkv", 5),
        file("first.mkv", 9),
        file("second.mkv", 9),
        file("notes.txt", 100),
    ];
    assert_eq!(get_video_file_entry(&entries), Some(1));
    let none: Vec<FsEntry> = vec![file("notes.txt", 100)];
    assert_eq!(get_video_file_entry(&none), None);
}

#[test]
fn related_files_share_the_stem_prefix() {
    let names = vec![
        "movie.en.srt".to_string(),
        "movie2.mkv".to_string(),
        "other.txt".to_string(),
        "movie.mkv".to_string(),
    ];
    let related = find_files_with_same_prefix(&names, "movie.mkv");
    assert_eq!(
        related,
        vec!["movie.en.srt".to_string(), "movie2.mkv".to_string()]
    );
}

#[test]
fn excluded_files_are_everything_not_included() {
    let all = vec!["a".to_string(), "b".to_string(), "c".to_string()];
    let included = vec!["b".to_string()];
    assert_eq!(
        delete_excluded_files(&all, &included),
        vec!["a".to_string(), "c".to_string()]
    );
}

#[test]
fn url_encoding_is_rfc3986() {
    assert_eq!(url_encode("The Matrix"), "The%20Matrix");
    assert_eq!(url_encode("a-b.c_d~e"), "a-b.c_d~e");
    assert_eq!(url_encode("50%"), "50%25");
    assert_eq!(url_encode("a+b"), "a%2Bb");
}

#[test]
fn relative_urls_gain_the_host() {
    assert_eq!(
        normalize_url("/en/subtitles/123"),
        "https://www.opensubtitles.org/en/subtitles/123"
    );
    assert_eq!(normalize_url("https://example.org/x"), "https://example.org/x");
}

#[test]
fn title_id_is_cut_from_the_link() {
    assert_eq!(
        extract_title_id("/title/tt0133093/?ref_=fn_ft"),
        Some("tt0133093".to_string())
    );
    assert_eq!(
        extract_title_id("https://www.imdb.com/title/tt0133093"),
        Some("tt0133093".to_string())
    );
    assert_eq!(extract_title_id("/name/nm0000206/"), None);
}
