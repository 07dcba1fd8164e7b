use index_media_server::classifier::{classify_path, MediaType};
use index_media_server::dates::days_since_epoch;

#[test]
fn test_extra_folder_detection() {
    let result = classify_path("Movies/Avatar/Behind The Scenes/Making Of.mkv");
    assert_eq!(result.media_type, MediaType::Extra);
    assert!(result.extra.is_some());
}

#[test]
fn test_extra_filename_suffix() {
    let result = classify_path("Movies/Avatar-trailer.mkv");
    assert_eq!(result.media_type, MediaType::Extra);
    assert!(result.extra.is_some());
}

#[test]
fn test_tv_sxxeyy() {
    let result = classify_path("TV/Some Show/Season 1/Some.Show.S01E01.mkv");
    assert_eq!(result.media_type, MediaType::TvEpisode);
    let tv = result.tv_episode.unwrap();
    assert_eq!(tv.season, 1);
    assert_eq!(tv.episode, 1);
    assert_eq!(tv.show_name, "Some Show");
}

#[test]
fn test_tv_season_folder_ey() {
    let result = classify_path("TV/Some Show/Season 2/E05.mkv");
    assert_eq!(result.media_type, MediaType::TvEpisode);
    let tv = result.tv_episode.unwrap();
    assert_eq!(tv.season, 2);
    assert_eq!(tv.episode, 5);
    assert_eq!(tv.show_name, "Some Show");
}

#[test]
fn test_tv_specials() {
    let result = classify_path("TV/Some Show/Specials/E01.mkv");
    assert_eq!(result.media_type, MediaType::TvEpisode);
    let tv = result.tv_episode.unwrap();
    assert_eq!(tv.season, 0);
    assert_eq!(tv.episode, 1);
}

#[test]
fn test_tv_date_based() {
    let result = classify_path("TV/News Show/2024-10-15.mkv");
    assert_eq!(result.media_type, MediaType::TvEpisode);
    let tv = result.tv_episode.unwrap();
    assert_eq!(tv.air_date, Some("2024-10-15".to_string()));
    assert_eq!(tv.season, 2024);
}

#[test]
fn test_movie_year_parens() {
    let result = classify_path("Movies/Avatar (2009).mkv");
    assert_eq!(result.media_type, MediaType::Movie);
    let movie = result.movie.unwrap();
    assert_eq!(movie.title, "Avatar");
    assert_eq!(movie.year, Some(2009));
}

#[test]
fn test_movie_year_dots() {
    let result = classify_path("Movies/Avatar.2009.mkv");
    assert_eq!(result.media_type, MediaType::Movie);
    let movie = result.movie.unwrap();
    assert_eq!(movie.title, "Avatar");
    assert_eq!(movie.year, Some(2009));
}

#[test]
fn test_movie_with_version() {
    let result = classify_path("Movies/Avatar (2009) - Directors Cut.mkv");
    assert_eq!(result.media_type, MediaType::Movie);
    let movie = result.movie.unwrap();
    assert_eq!(movie.title, "Avatar");
    assert_eq!(movie.year, Some(2009));
    assert_eq!(movie.version, Some("Directors Cut".to_string()));
}

#[test]
fn test_movie_with_part() {
    let result = classify_path("Movies/Avatar (2009) - part1.mkv");
    assert_eq!(result.media_type, MediaType::Movie);
    let movie = result.movie.unwrap();
    assert_eq!(movie.title, "Avatar");
    assert_eq!(movie.year, Some(2009));
    assert_eq!(movie.part, Some(1));
}

#[test]
fn test_generic() {
    let result = classify_path("Videos/GoPro Mountain Run.mp4");
    assert_eq!(result.media_type, MediaType::Generic);
    let generic = result.generic.unwrap();
    assert_eq!(generic.title, "GoPro Mountain Run.mp4");
}

#[test]
fn test_epoch_days_calculation() {
    assert_eq!(days_since_epoch(1970, 1, 1), 0);
    assert_eq!(days_since_epoch(1970, 1, 2), 1);
    assert_eq!(days_since_epoch(1969, 12, 31), -1);
    assert_eq!(days_since_epoch(2024, 10, 15), 20011);
}

#[test]
fn test_episode_range_parsed() {
    let result = classify_path("TV/Some Show/Season 1/Some.Show.S01E01-E02.mkv");
    assert_eq!(result.media_type, MediaType::TvEpisode);
    let tv = result.tv_episode.unwrap();
    assert_eq!(tv.season, 1);
    assert_eq!(tv.episode, 1);
    assert_eq!(tv.ep_end, Some(2));
}

#[test]
fn test_invalid_date_falls_through() {
    let result = classify_path("Movies/News.2024-13-40.mkv");
    assert_eq!(result.media_type, MediaType::Movie);
    let movie = result.movie.unwrap();
    assert_eq!(movie.title, "News");
    assert_eq!(movie.year, Some(2024));
}

#[test]
fn test_episode_title_and_edition_labels() {
    let result = classify_path("/media/TV/Example/Season 1/Example.S01E03 - Pilot - Directors Cut.mkv");
    assert_eq!(result.media_type, MediaType::TvEpisode);
    let tv = result.tv_episode.unwrap();
    assert_eq!(tv.title, Some("Pilot".to_string()));
    assert_eq!(tv.version, Some("Directors Cut".to_string()));
    assert_eq!(tv.source_path, "/media/TV/Example");
}

#[test]
fn test_classifier_is_deterministic() {
    let a = classify_path("TV/Some Show/Season 2/E05.mkv");
    let b = classify_path("TV/Some Show/Season 2/E05.mkv");
    assert_eq!(a.media_type, b.media_type);
    let ta = a.tv_episode.unwrap();
    let tb = b.tv_episode.unwrap();
    assert_eq!(ta.season, tb.season);
    assert_eq!(ta.episode, tb.episode);
    assert_eq!(ta.show_name, tb.show_name);
    assert_eq!(ta.source_path, tb.source_path);
}

#[test]
fn test_pre_epoch_air_date_is_negative() {
    let result = classify_path("TV/Old News/1965-03-01.mkv");
    assert_eq!(result.media_type, MediaType::TvEpisode);
    let tv = result.tv_episode.unwrap();
    assert!(tv.episode < 0);
    assert_eq!(tv.episode as i64, days_since_epoch(1965, 3, 1));
    assert_eq!(tv.air_date, Some("1965-03-01".to_string()));
}

#[test]
fn test_braced_edition_label() {
    let result = classify_path("Movies/Avatar (2009) {edition-Extended}.mkv");
    assert_eq!(result.media_type, MediaType::Movie);
    let movie = result.movie.unwrap();
    assert_eq!(movie.version, Some("Extended".to_string()));
}

#[test]
fn test_external_id_hint() {
    let result = classify_path("Movies/Avatar (2009) [imdbid-tt0499549].mkv");
    assert_eq!(result.media_type, MediaType::Movie);
    let movie = result.movie.unwrap();
    assert_eq!(movie.external_ids.len(), 1);
    assert_eq!(movie.external_ids[0].0, "imdb");
    assert_eq!(movie.external_ids[0].1, "tt0499549");
}

#[test]
fn test_backslash_separators() {
    let result = classify_path("TV\\Some Show\\Season 2\\E05.mkv");
    assert_eq!(result.media_type, MediaType::TvEpisode);
    let tv = result.tv_episode.unwrap();
    assert_eq!(tv.season, 2);
    assert_eq!(tv.show_name, "Some Show");
}
