use media_organizer::classify::FsEntry;
use media_organizer::models::ImdbResult;
use media_organizer::models::MediaEncodingFormat;
use media_organizer::parse::parse_to_movie_metadata;
use media_organizer::reconcile::enrich_metadata;
use media_organizer::reconcile::merge_base_with_file;
use media_organizer::reconcile::needs_processing;
use media_organizer::reconcile::plan_directory;
use media_organizer::reconcile::ReconcileOutcome;
use media_organizer::subtitles::DirTree;

fn file(name: &str, size: u64) -> FsEntry {
    FsEntry {
        name: name.to_string(),
        size,
    }
}

fn dir(name: &str, files: Vec<FsEntry>, subdirs: Vec<DirTree>) -> DirTree {
    DirTree {
        name: name.to_string(),
        files,
        subdirs,
    }
}

#[test]
fn idempotency_rule_skips_only_small_marked_directories() {
    assert!(!needs_processing(true, 0));
    assert!(!needs_processing(true, 1));
    assert!(needs_processing(true, 2));
    assert!(needs_processing(false, 0));
    assert!(needs_processing(false, 5));
}

#[test]
fn reconciled_directory_is_skipped_again() {
    let d = dir(
        "The Matrix (1999) [1080p]",
        vec![file("The Matrix (1999) [1080p].mkv", 700)],
        vec![],
    );
    match plan_directory(&d, true, 8) {
        ReconcileOutcome::Skip => {}
        other => panic!("expected Skip, got {:?}", other),
    }
}

#[test]
fn full_plan_for_a_release_directory() {
    let d = dir(
        "The.Matrix.1999.1080p.x264-GROUP",
        vec![file("thematrix.mkv", 700), file("sample.txt", 1)],
        vec![dir(
            "Subs",
            vec![file("The.Matrix.English.srt", 5)],
            vec![],
        )],
    );
    let plan = match plan_directory(&d, false, 8) {
        ReconcileOutcome::Proceed(plan) => plan,
        other => panic!("expected Proceed, got {:?}", other),
    };

    let copy = plan.subtitle_copy.expect("nested subtitle must be copied up");
    assert_eq!(
        copy.from_components,
        vec!["Subs".to_string(), "The.Matrix.English.srt".to_string()]
    );
    assert_eq!(copy.to_name, "The.Matrix.English.srt");

    assert_eq!(plan.video_name, "thematrix.mkv");
    assert_eq!(plan.subtitle_name, Some("The.Matrix.English.srt".to_string()));

    let deletions: Vec<(String, bool)> = plan
        .deletions
        .iter()
        .map(|d| (d.name.clone(), d.is_dir))
        .collect();
    assert_eq!(
        deletions,
        vec![
            ("sample.txt".to_string(), false),
            ("Subs".to_string(), true),
        ]
    );

    assert_eq!(plan.composed_name, "The Matrix (1999) [1080p]");
    assert_eq!(plan.video_rename_to, "The Matrix (1999) [1080p].mkv");
    assert_eq!(
        plan.subtitle_rename_to,
        Some("The Matrix (1999) [1080p].en.srt".to_string())
    );
    assert!(!plan.needs_lookup);

    assert_eq!(plan.metadata.media_name, "The Matrix");
    assert_eq!(plan.metadata.release_year, Some(1999));
    assert_eq!(plan.metadata.resolution, Some(1080));
    assert_eq!(
        plan.metadata.encoding_format,
        Some(MediaEncodingFormat::X264)
    );
    assert_eq!(plan.metadata.file_extension, "mkv");
    assert!(plan.metadata.imdb_id.is_none());
}

#[test]
fn missing_subtitle_asks_for_the_lookup() {
    let d = dir(
        "Some.Movie.2005.720p",
        vec![file("some.movie.2005.720p.mkv", 700)],
        vec![],
    );
    let plan = match plan_directory(&d, false, 8) {
        ReconcileOutcome::Proceed(plan) => plan,
        other => panic!("expected Proceed, got {:?}", other),
    };
    assert_eq!(plan.subtitle_name, None);
    assert_eq!(plan.subtitle_rename_to, None);
    assert!(plan.needs_lookup);
    assert_eq!(plan.composed_name, "Some Movie (2005) [720p]");
}

#[test]
fn directory_without_video_is_left_alone() {
    let d = dir("Random", vec![file("notes.txt", 3)], vec![]);
    match plan_directory(&d, false, 8) {
        ReconcileOutcome::NoVideo { subtitle_copy } => assert!(subtitle_copy.is_none()),
        other => panic!("expected NoVideo, got {:?}", other),
    }
}

#[test]
fn reserved_composed_name_is_rejected() {
    let d = dir("CON", vec![file("CON.mkv", 9)], vec![]);
    match plan_directory(&d, false, 8) {
        ReconcileOutcome::InvalidName { .. } => {}
        other => panic!("expected InvalidName, got {:?}", other),
    }
}

#[test]
fn enrichment_overwrites_name_and_id() {
    let mut m = parse_to_movie_metadata("Some.Movie.mkv");
    let composed = enrich_metadata(
        &mut m,
        ImdbResult {
            title: "Actual Title".to_string(),
            id: "tt0000001".to_string(),
        },
    );
    assert_eq!(composed, Some("Actual Title".to_string()));
    assert_eq!(m.media_name, "Actual Title");
    assert_eq!(m.imdb_id, Some("tt0000001".to_string()));
}

#[test]
fn enrichment_with_unusable_title_changes_nothing() {
    let mut m = parse_to_movie_metadata("Some.Movie.mkv");
    let composed = enrich_metadata(
        &mut m,
        ImdbResult {
            title: "CON".to_string(),
            id: "tt0000002".to_string(),
        },
    );
    assert_eq!(composed, None);
    assert_eq!(m.media_name, "Some Movie");
    assert!(m.imdb_id.is_none());
}

#[test]
fn paths_join_with_a_single_separator() {
    assert_eq!(merge_base_with_file("/a/b", "c.mkv"), "/a/b/c.mkv");
    assert_eq!(merge_base_with_file("/a/", "c.mkv"), "/a/c.mkv");
    assert_eq!(merge_base_with_file("", "c.mkv"), "c.mkv");
}

#[test]
fn folder_name_wins_when_longer() {
    let d = dir(
        "A.Very.Long.Folder.Name.2001.720p",
        vec![file("x.mkv", 10)],
        vec![],
    );
    let plan = match plan_directory(&d, false, 8) {
        ReconcileOutcome::Proceed(plan) => plan,
        other => panic!("expected Proceed, got {:?}", other),
    };
    assert_eq!(plan.metadata.media_name, "A Very Long Folder Name");
    assert_eq!(plan.metadata.release_year, Some(2001));
    assert_eq!(plan.metadata.file_extension, "mkv");
}
