use cosmic_comic::comicvine::{
    api_key, choose_volume, issue_params, match_from_response, require_key, search_params,
    volume_params, volumes_from_response, SearchResponse, SearchResult, VolumeResult,
};

fn result() -> SearchResult {
    SearchResult {
        name: None,
        issue_number: Some("1".to_string()),
        cover_date: Some("2006-07-01".to_string()),
        description: Some("<p>Heroes &amp; law</p>".to_string()),
        site_detail_url: Some("https://comicvine/1".to_string()),
        volume_name: Some("Civil War".to_string()),
        cover_url: Some("https://comicvine/cover".to_string()),
    }
}

fn volume(id: u64, year: Option<&str>) -> VolumeResult {
    VolumeResult { id, start_year: year.map(|y| y.to_string()) }
}

#[test]
fn the_key_of_the_environment_goes_first() {
    assert_eq!(api_key(Some(" k1 \n"), Some("k2")), Some("k1".to_string()));
    assert_eq!(api_key(Some("  "), Some(" k2\n")), Some("k2".to_string()));
    assert_eq!(api_key(None, Some("")), None);
    assert_eq!(api_key(None, None), None);
    assert_eq!(require_key(Some("k".to_string())), Ok("k".to_string()));
    assert_eq!(
        require_key(None),
        Err("no ComicVine API key set — set COMICVINE_API_KEY or write one to \
             ~/.local/share/cosmic-comic/comicvine_api_key.txt"
            .to_string())
    );
}

#[test]
fn the_series_of_the_year_is_chosen() {
    let list = vec![volume(1, Some("1999")), volume(2, Some("2006")), volume(3, Some("2006"))];
    assert_eq!(choose_volume(&list, Some(2006)), Some(1));
    assert_eq!(choose_volume(&list, Some(1950)), Some(0));
    assert_eq!(choose_volume(&list, None), Some(0));
    assert_eq!(choose_volume(&vec![], Some(2006)), None);
    assert_eq!(choose_volume(&vec![volume(1, None)], Some(2006)), Some(0));
}

#[test]
fn requests_carry_their_parameters() {
    let get = |list: &Vec<(String, String)>, name: &str| {
        list.iter().find(|(n, _)| n == name).map(|(_, v)| v.clone())
    };
    let p = search_params("key", "Civil War #1");
    assert_eq!(get(&p, "api_key").as_deref(), Some("key"));
    assert_eq!(get(&p, "format").as_deref(), Some("json"));
    assert_eq!(get(&p, "resources").as_deref(), Some("issue"));
    assert_eq!(get(&p, "query").as_deref(), Some("Civil War #1"));
    assert_eq!(get(&p, "limit").as_deref(), Some("1"));
    let p = volume_params("key", "Civil War");
    assert_eq!(get(&p, "resources").as_deref(), Some("volume"));
    assert_eq!(get(&p, "query").as_deref(), Some("Civil War"));
    let p = issue_params("key", 42, Some("1"));
    assert_eq!(get(&p, "filter").as_deref(), Some("volume:42,issue_number:1"));
    let p = issue_params("key", 42, None);
    assert_eq!(get(&p, "filter").as_deref(), Some("volume:42"));
}

#[test]
fn a_reply_gives_its_first_result() {
    let resp = SearchResponse { error: "OK".to_string(), results: vec![result()] };
    let m = match_from_response(resp, "q").unwrap();
    assert_eq!(m.name, "");
    assert_eq!(m.volume.as_deref(), Some("Civil War"));
    assert_eq!(m.issue_number.as_deref(), Some("1"));
    assert_eq!(m.cover_date.as_deref(), Some("2006-07-01"));
    assert_eq!(m.description.as_deref(), Some("Heroes & law"));
    assert_eq!(m.site_url.as_deref(), Some("https://comicvine/1"));
    assert_eq!(m.cover_url.as_deref(), Some("https://comicvine/cover"));
}

#[test]
fn a_bad_or_empty_reply_is_an_error() {
    let bad = SearchResponse { error: "Invalid API Key".to_string(), results: vec![result()] };
    assert_eq!(match_from_response(bad, "q").err().unwrap(), "ComicVine error: Invalid API Key");
    let bad = volumes_from_response("Invalid API Key", vec![volume(1, None)]);
    assert_eq!(bad.err().unwrap(), "ComicVine error: Invalid API Key");
    assert_eq!(volumes_from_response("OK", vec![volume(7, None)]).ok().unwrap()[0].id, 7);
    let none = SearchResponse { error: "OK".to_string(), results: vec![] };
    assert_eq!(match_from_response(none, "q").err().unwrap(), "no ComicVine results for 'q'");
}
