use cosmic_comic::library::{
    app_data_dir, cache_dir, chapter_cover_path, config_dir, db_path, entry_to_row, get_progress,
    path_hash, pending_migrations, row_to_entry, save_progress, search_pattern, series_cover_dir,
    touch_opened, update_metadata, upsert_series, Migration, SeriesEntry, SCHEMA_VERSION,
};
use cosmic_comic::metadata::SeriesMetadata;

fn entry() -> SeriesEntry {
    upsert_series(None, "/c/Saga", "Saga", 24, true, 1000)
}

#[test]
fn directories_follow_the_environment() {
    assert_eq!(app_data_dir(Some("/data"), Some("/home/me")), "/data/cosmic-comic");
    assert_eq!(app_data_dir(None, Some("/home/me")), "/home/me/.local/share/cosmic-comic");
    assert_eq!(app_data_dir(None, None), "./.local/share/cosmic-comic");
    assert_eq!(config_dir(None, Some("/home/me")), "/home/me/.config/cosmic-comic");
    assert_eq!(config_dir(Some("/conf/"), None), "/conf/cosmic-comic");
    assert_eq!(cache_dir(None, Some("/home/me")), "/home/me/.cache/cosmic-comic");
    assert_eq!(db_path("/data/cosmic-comic"), "/data/cosmic-comic/library.db");
}

#[test]
fn hashes_are_stable_and_sixteen_digits_long() {
    assert_eq!(path_hash(""), "0000000000000000");
    assert_eq!(path_hash("a"), "0000000000000061");
    assert_eq!(path_hash("ab"), format!("{:016x}", 97u64 + 98 * 31));
    let long = "x".repeat(100);
    let mut sum = 0u64;
    for (i, b) in long.bytes().enumerate() {
        sum = sum.wrapping_add((b as u64).wrapping_mul(31u64.wrapping_pow(i as u32 & 0x1f)));
    }
    assert_eq!(path_hash(&long), format!("{sum:016x}"));
    assert_eq!(path_hash("é").len(), 16);
    assert_ne!(path_hash("/a/b"), path_hash("/a/c"));
}

#[test]
fn covers_live_in_the_cache() {
    let dir = series_cover_dir("/cache", "a");
    assert_eq!(dir, "/cache/covers/0000000000000061");
    assert_eq!(chapter_cover_path("/cache", "a", 7), "/cache/covers/0000000000000061/ch0007.png");
    assert_eq!(
        chapter_cover_path("/cache", "a", 12345),
        "/cache/covers/0000000000000061/ch12345.png"
    );
    assert_ne!(chapter_cover_path("/cache", "a", 1), chapter_cover_path("/cache", "a", 10));
}

#[test]
fn a_database_is_brought_up_to_date_step_by_step() {
    let all = vec![Migration::CreateSeries, Migration::AddIsSeries, Migration::CreateLibraryDirs];
    assert_eq!(pending_migrations(0), all);
    assert_eq!(pending_migrations(-1), all);
    let mut version = 0;
    while version < SCHEMA_VERSION {
        let pending = pending_migrations(version);
        assert_eq!(pending[0], all[version as usize]);
        assert_eq!(pending[1..].to_vec(), pending_migrations(version + 1));
        version += 1;
    }
    assert_eq!(pending_migrations(SCHEMA_VERSION), vec![]);
    assert_eq!(pending_migrations(SCHEMA_VERSION + 5), vec![]);
}

#[test]
fn a_new_series_starts_at_its_beginning() {
    let e = entry();
    assert_eq!((e.path.as_str(), e.title.as_str(), e.total_pages), ("/c/Saga", "Saga", 24));
    assert_eq!((e.date_added, e.last_opened, e.is_series), (1000, 1000, true));
    assert_eq!(get_progress(Some(&e)), Some((0, 0)));
    assert_eq!(get_progress(None), None);
}

#[test]
fn a_known_series_keeps_what_it_had() {
    let mut e = save_progress(entry(), 12, 3);
    e.id = 9;
    let again = upsert_series(Some(e), "/c/Saga", "", 30, false, 2000);
    assert_eq!(again.id, 9);
    assert_eq!(again.title, "Saga");
    assert_eq!((again.total_pages, again.last_opened, again.date_added), (30, 2000, 1000));
    assert!(!again.is_series);
    assert_eq!(get_progress(Some(&again)), Some((12, 3)));
    let renamed = upsert_series(Some(again), "/c/Saga", "Saga!", 30, true, 3000);
    assert_eq!(renamed.title, "Saga!");
    assert_eq!(touch_opened(renamed, 4000).last_opened, 4000);
}

#[test]
fn metadata_is_taken_over() {
    let meta = SeriesMetadata {
        title: "T".to_string(),
        description: "D".to_string(),
        status: "S".to_string(),
        genres: vec!["A".to_string(), "B".to_string()],
        chapter_count: Some(3),
        score: Some(80),
        url: None,
    };
    let e = update_metadata(entry(), &meta);
    assert_eq!(
        (e.title.as_str(), e.description.as_str(), e.status.as_str(), e.genres.as_str()),
        ("T", "D", "S", "A, B")
    );
    assert_eq!((e.chapter_count, e.anilist_score, e.total_pages), (Some(3), Some(80), 24));
}

#[test]
fn an_entry_reads_back_from_its_row() {
    let mut e = save_progress(entry(), 12, 3);
    e.chapter_count = Some(u32::MAX);
    e.total_pages = usize::MAX;
    let row = entry_to_row(e.clone());
    assert_eq!((row.last_read_page, row.last_read_ch, row.is_series), (12, 3, 1));
    let back = row_to_entry(row);
    assert_eq!(format!("{back:?}"), format!("{e:?}"));
    assert_eq!(get_progress(Some(&back)), Some((12, 3)));
}

#[test]
fn searches_ignore_case() {
    assert_eq!(search_pattern("Batman"), "%batman%");
    assert_eq!(search_pattern("ÉTÉ"), "%été%");
    assert_eq!(search_pattern(""), "%%");
}

#[test]
fn a_saved_place_survives_what_else_is_written() {
    let e = save_progress(entry(), 12, 3);
    let e = upsert_series(Some(e), "/c/Saga", "", 30, true, 2000);
    let e = touch_opened(e, 3000);
    assert_eq!((e.title.as_str(), e.last_opened), ("Saga", 3000));
    let back = row_to_entry(entry_to_row(e));
    assert_eq!(get_progress(Some(&back)), Some((12, 3)));
    assert_eq!(get_progress(None), None);
}
