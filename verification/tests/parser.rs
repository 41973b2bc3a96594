use media_organizer::models::MediaEncodingFormat;
use media_organizer::models::OrganizerMode;
use media_organizer::parse::get_raw_file_name_and_extension;
use media_organizer::parse::parse_to_movie_metadata;
use media_organizer::parse::to_title_case;
use media_organizer::sanitize::clean_filename;
use media_organizer::sanitize::compose_media_name_checked;
use media_organizer::sanitize::compose_media_name_from_metadata;

#[test]
fn parse_full_release_name() {
    let m = parse_to_movie_metadata("The.Matrix.1999.1080p.x264-GROUP.mkv");
    assert_eq!(m.media_name, "The Matrix");
    assert_eq!(m.release_year, Some(1999));
    assert_eq!(m.resolution, Some(1080));
    assert_eq!(m.encoding_format, Some(MediaEncodingFormat::X264));
    assert_eq!(m.file_extension, "mkv");
    assert_eq!(m.original_file_name, "The.Matrix.1999.1080p.x264-GROUP");
    assert!(m.additional_data.is_empty());
    assert!(m.imdb_id.is_none());
}

#[test]
fn parse_degrades_to_title_only() {
    let m = parse_to_movie_metadata("Just.A.Name.mkv");
    assert_eq!(m.media_name, "Just A Name");
    assert_eq!(m.release_year, None);
    assert_eq!(m.resolution, None);
    assert_eq!(m.encoding_format, None);
    assert!(m.additional_data.is_empty());
}

#[test]
fn release_year_standalone_token() {
    assert_eq!(
        parse_to_movie_metadata("Movie.1999.mkv").release_year,
        Some(1999)
    );
    assert_eq!(
        parse_to_movie_metadata("Movie.2100.mkv").release_year,
        None
    );
    assert_eq!(parse_to_movie_metadata("Movie.1899.mkv").release_year, None);
}

#[test]
fn embedded_year_is_not_captured() {
    assert_eq!(parse_to_movie_metadata("Movie.1999x.mkv").release_year, None);
    assert_eq!(
        parse_to_movie_metadata("Movie.x1999.mkv").release_year,
        None
    );
    assert_eq!(
        parse_to_movie_metadata("Movie.19991.mkv").release_year,
        None
    );
}

#[test]
fn later_year_token_wins() {
    let m = parse_to_movie_metadata("Movie.1999.2005.mkv");
    assert_eq!(m.release_year, Some(2005));
}

#[test]
fn resolution_tokens_normalize() {
    assert_eq!(parse_to_movie_metadata("A.4K.mkv").resolution, Some(2160));
    assert_eq!(
        parse_to_movie_metadata("A.2160p.mkv").resolution,
        Some(2160)
    );
    assert_eq!(
        parse_to_movie_metadata("A.1080p.mkv").resolution,
        Some(1080)
    );
    assert_eq!(parse_to_movie_metadata("A.720p.mkv").resolution, Some(720));
    assert_eq!(parse_to_movie_metadata("A.1080P.mkv").resolution, None);
}

#[test]
fn encoding_format_from_exact_names() {
    assert_eq!(
        MediaEncodingFormat::from("x264"),
        Some(MediaEncodingFormat::X264)
    );
    assert_eq!(
        MediaEncodingFormat::from("X.264"),
        Some(MediaEncodingFormat::X264)
    );
    assert_eq!(
        MediaEncodingFormat::from("h265"),
        Some(MediaEncodingFormat::H265)
    );
    assert_eq!(
        MediaEncodingFormat::from("H.264"),
        Some(MediaEncodingFormat::H264)
    );
    assert_eq!(MediaEncodingFormat::from("x264-GROUP"), None);
    assert_eq!(MediaEncodingFormat::from("divx"), None);
}

#[test]
fn encoding_inside_token_is_found() {
    let m = parse_to_movie_metadata("A.2005.tag-x265-rip.mkv");
    assert_eq!(m.encoding_format, Some(MediaEncodingFormat::X265));
}

#[test]
fn metadata_phase_splits_title_and_extras() {
    let m = parse_to_movie_metadata("One.Two.1999.Extra.Tag.mkv");
    assert_eq!(m.media_name, "One Two");
    assert_eq!(m.additional_data, vec!["Extra".to_string(), "Tag".to_string()]);
}

#[test]
fn title_case_words() {
    assert_eq!(to_title_case("hello WORLD foo"), "Hello World Foo");
    assert_eq!(to_title_case("123 abc"), "123 Abc");
    assert_eq!(to_title_case(""), "");
}

#[test]
fn stem_and_extension_split() {
    let (stem, ext) = get_raw_file_name_and_extension("a.b.c");
    assert_eq!(stem, "a.b");
    assert_eq!(ext, "c");
    let (stem2, ext2) = get_raw_file_name_and_extension("noext");
    assert_eq!(stem2, "noext");
    assert_eq!(ext2, "");
}

#[test]
fn extension_is_stored_lower_cased() {
    let m = parse_to_movie_metadata("Movie.MKV");
    assert_eq!(m.file_extension, "mkv");
}

#[test]
fn parse_compose_round_trip_keeps_media_name() {
    let first = parse_to_movie_metadata("the.matrix.mkv");
    let composed = compose_media_name_from_metadata(&first);
    assert_eq!(composed, "The Matrix");
    let second = parse_to_movie_metadata(&composed);
    assert_eq!(second.media_name, first.media_name);
}

#[test]
fn composed_name_includes_year_and_resolution() {
    let m = parse_to_movie_metadata("X.2005.720p.mkv");
    assert_eq!(compose_media_name_checked(&m), Some("X (2005) [720p]".to_string()));
}

#[test]
fn reserved_device_names_are_rejected() {
    assert_eq!(clean_filename("CON"), None);
    assert_eq!(clean_filename("con"), None);
    assert_eq!(clean_filename("  AUX  "), None);
    assert_eq!(clean_filename("COM5"), None);
    assert_eq!(clean_filename("LPT9"), None);
    assert_eq!(clean_filename("COM0"), Some("COM0".to_string()));
    assert_eq!(clean_filename(""), None);
    assert_eq!(clean_filename("   "), None);
}

#[test]
fn invalid_characters_are_stripped() {
    assert_eq!(clean_filename("a<b>c:d"), Some("abcd".to_string()));
    assert_eq!(clean_filename("x/y\\z|w?v*u\"t"), Some("xyzwvut".to_string()));
}

#[test]
fn long_names_are_truncated() {
    let long = "a".repeat(300);
    let cleaned = clean_filename(&long).unwrap();
    assert_eq!(cleaned.len(), 255);
}

#[test]
fn organizer_mode_from_word() {
    assert_eq!(OrganizerMode::from("movies"), Some(OrganizerMode::Movies));
    assert_eq!(OrganizerMode::from("Movies"), Some(OrganizerMode::Movies));
    assert_eq!(OrganizerMode::from("TVSHOWS"), Some(OrganizerMode::TvShows));
    assert_eq!(OrganizerMode::from("albums"), None);
}

#[test]
fn empty_and_bare_names_degrade() {
    let m = parse_to_movie_metadata("");
    assert_eq!(m.media_name, "");
    assert_eq!(m.file_extension, "");
    assert_eq!(m.release_year, None);
    assert_eq!(compose_media_name_checked(&m), None);

    let bare = parse_to_movie_metadata("movie");
    assert_eq!(bare.media_name, "Movie");
    assert_eq!(bare.file_extension, "");
}

#[test]
fn composed_name_with_top_resolution() {
    let m = parse_to_movie_metadata("Dune.2021.4K.mkv");
    assert_eq!(compose_media_name_checked(&m), Some("Dune (2021) [2160p]".to_string()));
}
