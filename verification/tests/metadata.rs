use cosmic_comic::metadata::{
    extract_title, is_id_token, parse_filename, series_from_media, strip_html, AniListMedia,
};

fn chars(s: &str) -> Vec<char> {
    s.chars().collect()
}

fn media() -> AniListMedia {
    AniListMedia {
        romaji: Some("Shingeki no Kyojin".to_string()),
        english: Some("Attack on Titan".to_string()),
        description: Some("Big <b>titans</b> &amp; walls".to_string()),
        status: Some("FINISHED".to_string()),
        chapters: Some(141),
        genres: Some(vec!["Action".to_string(), "Drama".to_string()]),
        average_score: Some(84),
        site_url: Some("https://anilist.co/manga/53390".to_string()),
    }
}

#[test]
fn a_file_name_is_broken_down() {
    let p = parse_filename("Civil War 001 (2006) (Digital) (Zone-Empire).cbr");
    assert_eq!(p.series, "Civil War");
    assert_eq!(p.issue, Some(1));
    assert_eq!(p.year, Some(2006));
}

#[test]
fn a_file_name_without_parts_is_the_series() {
    let p = parse_filename("Watchmen.cbz");
    assert_eq!((p.series.as_str(), p.issue, p.year), ("Watchmen", None, None));
    let p = parse_filename("007.cbz");
    assert_eq!((p.series.as_str(), p.issue, p.year), ("007", Some(7), None));
    let p = parse_filename("(1999).cbz");
    assert_eq!((p.series.as_str(), p.issue, p.year), ("(1999)", None, Some(1999)));
}

#[test]
fn only_plausible_years_count() {
    assert_eq!(parse_filename("A (1899).cbz").year, None);
    assert_eq!(parse_filename("A (1900).cbz").year, Some(1900));
    assert_eq!(parse_filename("A (2100).cbz").year, Some(2100));
    assert_eq!(parse_filename("A (2101).cbz").year, None);
    assert_eq!(parse_filename("A [ 2006 ].cbz").year, Some(2006));
    let p = parse_filename("A (2006) B 9999.cbz");
    assert_eq!((p.series.as_str(), p.issue, p.year), ("A B", Some(9999), Some(2006)));
    assert_eq!(parse_filename("A (x) (2006) (2007).cbz").year, Some(2006));
}

#[test]
fn long_numbers_are_no_issues() {
    let p = parse_filename("Series 12345.cbz");
    assert_eq!((p.series.as_str(), p.issue), ("Series 12345", None));
    let p = parse_filename("Series 1234.cbz");
    assert_eq!((p.series.as_str(), p.issue), ("Series", Some(1234)));
}

#[test]
fn identifiers_are_dropped_from_titles() {
    assert_eq!(extract_title("My Series 01ARZ3NDEKTSV4RRFFQ69G5FAV"), "My Series");
    assert_eq!(extract_title("My Series 123e4567-e89b-12d3-a456-426614174000"), "My Series");
    assert_eq!(extract_title("My Series.cbz"), "My Series");
    assert!(is_id_token(&chars("01ARZ3NDEKTSV4RRFFQ69G5FAV")));
    assert!(!is_id_token(&chars("01arz3ndektsv4rrffq69g5fav")));
    assert!(!is_id_token(&chars("Series")));
    assert!(is_id_token(&chars("123e4567-e89b-12d3-a456-426614174000")));
    assert!(!is_id_token(&chars("1234567-12345-1234-1234-123456789abc")));
    assert!(!is_id_token(&chars("123e4567-e89b-12d3-a456-42661417400g")));
}

#[test]
fn markup_is_stripped() {
    assert_eq!(strip_html("a <i>b</i>\n\n c &amp; &lt;d&gt; &quot;e&quot; &#39;f&#39;"), "a b c & <d> \"e\" 'f'");
    assert_eq!(strip_html(""), "");
    assert_eq!(strip_html("<br>"), "");
}

#[test]
fn anilist_prefers_the_english_title() {
    let m = series_from_media(Some(media()), "query").unwrap();
    assert_eq!(m.title, "Attack on Titan");
    assert_eq!(m.description, "Big titans & walls");
    assert_eq!(m.status, "FINISHED");
    assert_eq!(m.genres, vec!["Action", "Drama"]);
    assert_eq!(m.chapter_count, Some(141));
    assert_eq!(m.score, Some(84));
    assert_eq!(m.url.as_deref(), Some("https://anilist.co/manga/53390"));
}

#[test]
fn anilist_falls_back() {
    let mut other = media();
    other.english = None;
    assert_eq!(series_from_media(Some(other), "query").unwrap().title, "Shingeki no Kyojin");
    let blank = AniListMedia {
        romaji: None,
        english: None,
        description: None,
        status: None,
        chapters: None,
        genres: None,
        average_score: None,
        site_url: None,
    };
    let m = series_from_media(Some(blank), "query").unwrap();
    assert_eq!(m.title, "query");
    assert_eq!(m.description, "");
    assert_eq!(m.status, "");
    assert_eq!(m.genres, Vec::<String>::new());
    assert_eq!(
        series_from_media(None, "query").err().unwrap(),
        "no AniList results for 'query'"
    );
}
