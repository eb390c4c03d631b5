//! ComicVine, the catalogue of Western comics: what is asked of it, and what
//! its replies mean. It fills the gap that AniList leaves.
use crate::metadata::{plain_text, strip_html};
use crate::number::{decimal, decimal_text};
use crate::library::borrowed;
use crate::text::{chars_of, concat3, opt_text, same_text, string_of, text_copy, trim, trimmed};
use crate::xml::pairs;
use vstd::prelude::*;

verus! {

/// A single issue match from ComicVine.
#[derive(Clone, Debug)]
pub struct ComicVineMatch {
    pub name: String,
    pub volume: Option<String>,
    pub issue_number: Option<String>,
    pub cover_date: Option<String>,
    pub description: Option<String>,
    pub site_url: Option<String>,
    pub cover_url: Option<String>,
}

/// One issue of a reply.
pub struct SearchResult {
    pub name: Option<String>,
    pub issue_number: Option<String>,
    pub cover_date: Option<String>,
    pub description: Option<String>,
    pub site_detail_url: Option<String>,
    pub volume_name: Option<String>,
    pub cover_url: Option<String>,
}

/// A reply to a search for issues. The error of a good reply is "OK".
pub struct SearchResponse {
    pub error: String,
    pub results: Vec<SearchResult>,
}

/// One series of a reply to a search for series.
pub struct VolumeResult {
    pub id: u64,
    pub start_year: Option<String>,
}

// ── The key ──────────────────────────────────────────────────────────────────

/// A key, if the text holds one.
pub open spec fn key_in(text: Option<Seq<char>>) -> Option<Seq<char>> {
    match text {
        Some(t) => if trim(t).len() > 0 {
            Some(trim(t))
        } else {
            None
        },
        None => None,
    }
}

/// A key, if the text holds one.
fn key_from(text: Option<&str>) -> (r: Option<String>)
    ensures
        opt_text(r) == key_in(borrowed(text)),
{
    match text {
        Some(t) => {
            let v = chars_of(t);
            let k = trimmed(v.as_slice());
            if k.len() > 0 {
                Some(string_of(k))
            } else {
                None
            }
        },
        None => None,
    }
}

/// The API key: the one in the environment, or else the one in the key file.
pub fn api_key(environment: Option<&str>, file: Option<&str>) -> (r: Option<String>)
    ensures
        opt_text(r) == (match key_in(borrowed(environment)) {
            Some(k) => Some(k),
            None => key_in(borrowed(file)),
        }),
{
    match key_from(environment) {
        Some(k) => Some(k),
        None => key_from(file),
    }
}

// ── Queries ──────────────────────────────────────────────────────────────────

/// The place of the first series that began in the given year, at or after
/// `from`.
pub open spec fn begun_in(volumes: Seq<VolumeResult>, year: Seq<char>, from: int) -> Option<int>
    decreases volumes.len() - from,
{
    if from < 0 || from >= volumes.len() {
        None
    } else if volumes[from].start_year matches Some(y) && y@ == year {
        Some(from)
    } else {
        begun_in(volumes, year, from + 1)
    }
}

/// The series of a reply that a comic belongs to: the first that began in the
/// comic's year, or else the first.
pub open spec fn chosen_volume(volumes: Seq<VolumeResult>, year: Option<u32>) -> Option<int> {
    let by_year = match year {
        Some(y) => begun_in(volumes, decimal(y as nat), 0),
        None => None,
    };
    if by_year is Some {
        by_year
    } else if volumes.len() > 0 {
        Some(0)
    } else {
        None
    }
}

/// The series of a reply that a comic belongs to.
pub fn choose_volume(volumes: &Vec<VolumeResult>, year: Option<u32>) -> (r: Option<usize>)
    ensures
        match r {
            Some(i) => i < volumes@.len() && chosen_volume(volumes@, year) == Some(i as int),
            None => chosen_volume(volumes@, year) is None,
        },
{
    if let Some(y) = year {
        let wanted = decimal_text(y as u128);
        let mut i: usize = 0;
        while i < volumes.len()
            invariant
                i <= volumes@.len(),
                wanted@ == decimal(y as nat),
                year == Some(y),
                begun_in(volumes@, wanted@, i as int) == begun_in(volumes@, wanted@, 0),
            decreases volumes@.len() - i,
        {
            if let Some(s) = &volumes[i].start_year {
                if same_text(s.as_str(), wanted.as_str()) {
                    return Some(i);
                }
            }
            i = i + 1;
        }
    }
    if volumes.len() > 0 {
        Some(0)
    } else {
        None
    }
}

/// The parameters of a request: the key, the format, and more.
pub open spec fn request(key: Seq<char>, more: Seq<(Seq<char>, Seq<char>)>) -> Seq<
    (Seq<char>, Seq<char>),
> {
    seq![("api_key"@, key), ("format"@, "json"@)] + more
}

/// The fields that are asked for of an issue.
pub open spec fn issue_fields() -> Seq<char> {
    "name,issue_number,cover_date,description,site_detail_url,volume,image"@
}

/// Adds a parameter.
fn with_param(list: &mut Vec<(String, String)>, name: &str, value: &str)
    ensures
        pairs(final(list)@) == pairs(old(list)@).push((name@, value@)),
{
    let ghost was = pairs(list@);
    list.push((text_copy(name), text_copy(value)));
    assert(pairs(list@) =~= was.push((name@, value@)));
}

/// The key and the format.
fn start_params(key: &str) -> (r: Vec<(String, String)>)
    ensures
        pairs(r@) == request(key@, Seq::empty()),
{
    let mut r: Vec<(String, String)> = Vec::new();
    with_param(&mut r, "api_key", key);
    with_param(&mut r, "format", "json");
    assert(pairs(r@) =~= request(key@, Seq::empty()));
    r
}

/// The parameters of a search for an issue.
pub fn search_params(key: &str, query: &str) -> (r: Vec<(String, String)>)
    ensures
        pairs(r@) == request(
            key@,
            seq![
                ("resources"@, "issue"@),
                ("query"@, query@),
                ("limit"@, "1"@),
                ("field_list"@, issue_fields()),
            ],
        ),
{
    let mut r = start_params(key);
    with_param(&mut r, "resources", "issue");
    with_param(&mut r, "query", query);
    with_param(&mut r, "limit", "1");
    with_param(
        &mut r,
        "field_list",
        "name,issue_number,cover_date,description,site_detail_url,volume,image",
    );
    assert(pairs(r@) =~= request(
        key@,
        seq![
            ("resources"@, "issue"@),
            ("query"@, query@),
            ("limit"@, "1"@),
            ("field_list"@, issue_fields()),
        ],
    ));
    r
}

/// The parameters of a search for a series.
pub fn volume_params(key: &str, series: &str) -> (r: Vec<(String, String)>)
    ensures
        pairs(r@) == request(
            key@,
            seq![
                ("resources"@, "volume"@),
                ("query"@, series@),
                ("limit"@, "10"@),
                ("field_list"@, "id,start_year"@),
            ],
        ),
{
    let mut r = start_params(key);
    with_param(&mut r, "resources", "volume");
    with_param(&mut r, "query", series);
    with_param(&mut r, "limit", "10");
    with_param(&mut r, "field_list", "id,start_year");
    assert(pairs(r@) =~= request(
        key@,
        seq![
            ("resources"@, "volume"@),
            ("query"@, series@),
            ("limit"@, "10"@),
            ("field_list"@, "id,start_year"@),
        ],
    ));
    r
}

/// The filter that asks for the issues of a series, or for one of them.
pub open spec fn filter_text(volume_id: u64, issue: Option<Seq<char>>) -> Seq<char> {
    match issue {
        Some(n) => "volume:"@ + decimal(volume_id as nat) + ",issue_number:"@ + n,
        None => "volume:"@ + decimal(volume_id as nat),
    }
}

/// The filter that asks for the issues of a series, or for one of them.
fn issue_filter(volume_id: u64, issue: Option<&str>) -> (r: String)
    ensures
        r@ == filter_text(volume_id, borrowed(issue)),
{
    let id = decimal_text(volume_id as u128);
    match issue {
        Some(n) => {
            let mut s = concat3("volume:", id.as_str(), ",issue_number:");
            s.append(n);
            s
        },
        None => {
            let mut s = "volume:".to_owned();
            s.append(id.as_str());
            s
        },
    }
}

/// The parameters of a request for an issue of a series.
pub fn issue_params(key: &str, volume_id: u64, issue: Option<&str>) -> (r: Vec<(String, String)>)
    ensures
        pairs(r@) == request(
            key@,
            seq![
                ("filter"@, filter_text(volume_id, borrowed(issue))),
                ("limit"@, "1"@),
                ("field_list"@, issue_fields()),
            ],
        ),
{
    let filter = issue_filter(volume_id, issue);
    let mut r = start_params(key);
    with_param(&mut r, "filter", filter.as_str());
    with_param(&mut r, "limit", "1");
    with_param(
        &mut r,
        "field_list",
        "name,issue_number,cover_date,description,site_detail_url,volume,image",
    );
    assert(pairs(r@) =~= request(
        key@,
        seq![
            ("filter"@, filter_text(volume_id, borrowed(issue))),
            ("limit"@, "1"@),
            ("field_list"@, issue_fields()),
        ],
    ));
    r
}

/// The key, or what the user is told without one.
pub fn require_key(key: Option<String>) -> (r: Result<String, String>)
    ensures
        match key {
            Some(k) => r == Ok::<String, String>(k),
            None => r matches Err(e) && e@
                == "no ComicVine API key set — set COMICVINE_API_KEY or write one to ~/.local/share/cosmic-comic/comicvine_api_key.txt"@,
        },
{
    match key {
        Some(k) => Ok(k),
        None => Err(
            "no ComicVine API key set — set COMICVINE_API_KEY or write one to ~/.local/share/cosmic-comic/comicvine_api_key.txt".to_owned(),
        ),
    }
}

// ── Replies ──────────────────────────────────────────────────────────────────

/// Whether a match tells what a result tells.
pub open spec fn tells(m: ComicVineMatch, r: SearchResult) -> bool {
    &&& m.name@ == crate::metadata::text_or(r.name, Seq::empty())
    &&& m.volume == r.volume_name
    &&& m.issue_number == r.issue_number
    &&& m.cover_date == r.cover_date
    &&& match r.description {
        Some(d) => m.description matches Some(t) && t@ == plain_text(d@),
        None => m.description is None,
    }
    &&& m.site_url == r.site_detail_url
    &&& m.cover_url == r.cover_url
}

/// The series in a reply to a search for series.
pub fn volumes_from_response(error: &str, volumes: Vec<VolumeResult>) -> (r: Result<
    Vec<VolumeResult>,
    String,
>)
    ensures
        if error@ != "OK"@ {
            r matches Err(e) && e@ == "ComicVine error: "@ + error@
        } else {
            r == Ok::<Vec<VolumeResult>, String>(volumes)
        },
{
    if !same_text(error, "OK") {
        let mut e = "ComicVine error: ".to_owned();
        e.append(error);
        return Err(e);
    }
    Ok(volumes)
}

/// The match in a reply to the search for `query`: its first result.
pub fn match_from_response(resp: SearchResponse, query: &str) -> (r: Result<ComicVineMatch, String>)
    ensures
        if resp.error@ != "OK"@ {
            r matches Err(e) && e@ == "ComicVine error: "@ + resp.error@
        } else if resp.results@.len() == 0 {
            r matches Err(e) && e@ == "no ComicVine results for '"@ + query@ + "'"@
        } else {
            r matches Ok(m) && tells(m, resp.results@[0])
        },
{
    if !same_text(resp.error.as_str(), "OK") {
        let mut e = "ComicVine error: ".to_owned();
        e.append(resp.error.as_str());
        return Err(e);
    }
    let mut results = resp.results;
    if results.len() == 0 {
        return Err(concat3("no ComicVine results for '", query, "'"));
    }
    let first = results.remove(0);
    let name = match first.name {
        Some(n) => n,
        None => String::new(),
    };
    let description = match first.description {
        Some(d) => Some(strip_html(d.as_str())),
        None => None,
    };
    Ok(
        ComicVineMatch {
            name,
            volume: first.volume_name,
            issue_number: first.issue_number,
            cover_date: first.cover_date,
            description,
            site_url: first.site_detail_url,
            cover_url: first.cover_url,
        },
    )
}

// ── Laws ─────────────────────────────────────────────────────────────────────

/// Of the series in a reply, the first that began in the comic's year is chosen; if
/// none did, or the year is not known, the first of all; and one is chosen whenever
/// there is one.
pub proof fn the_year_decides_between_series(volumes: Seq<VolumeResult>, year: u32, k: int)
    ensures
        0 <= k < volumes.len() && (volumes[k].start_year matches Some(y) && y@ == decimal(
            year as nat,
        )) && (forall|j: int|
            0 <= j < k ==> !((#[trigger] volumes[j]).start_year matches Some(y) && y@ == decimal(
                year as nat,
            ))) ==> chosen_volume(volumes, Some(year)) == Some(k),
        volumes.len() > 0 && (forall|j: int|
            0 <= j < volumes.len() ==> !((#[trigger] volumes[j]).start_year matches Some(y) && y@
                == decimal(year as nat))) ==> chosen_volume(volumes, Some(year)) == Some(0int),
        volumes.len() > 0 ==> chosen_volume(volumes, None) == Some(0int),
        volumes.len() == 0 ==> chosen_volume(volumes, Some(year)) is None && chosen_volume(
            volumes,
            None,
        ) is None,
{
    first_begun(volumes, decimal(year as nat), 0, k);
}

/// The first series that began in a year.
proof fn first_begun(volumes: Seq<VolumeResult>, year: Seq<char>, from: int, k: int)
    requires
        0 <= from,
    ensures
        from <= k < volumes.len() && (volumes[k].start_year matches Some(y) && y@ == year) && (
        forall|j: int|
            from <= j < k ==> !((#[trigger] volumes[j]).start_year matches Some(y) && y@ == year))
            ==> begun_in(volumes, year, from) == Some(k),
        (forall|j: int|
            from <= j < volumes.len() ==> !((#[trigger] volumes[j]).start_year matches Some(y) && y@
                == year)) ==> begun_in(volumes, year, from) is None,
    decreases volumes.len() - from,
{
    if from < volumes.len() {
        first_begun(volumes, year, from + 1, k);
    }
}

/// A key counts without the whitespace around it, and not at all if nothing else is
/// there.
pub proof fn keys_are_trimmed(before: Seq<char>, key: Seq<char>, behind: Seq<char>)
    requires
        crate::text::all_space(before),
        crate::text::all_space(behind),
        crate::text::bare(key),
    ensures
        key_in(Some(before + key + behind)) == (if key.len() > 0 {
            Some(key)
        } else {
            None
        }),
        key_in(None) is None,
{
    crate::text::trim_takes_the_space_around(before, key, behind);
}

/// The filter for one issue is the filter for its series with the issue's number behind
/// it, and the filters of different series differ.
pub proof fn filters_name_series_and_issue(a: u64, b: u64, n: Seq<char>)
    ensures
        filter_text(a, Some(n)) == filter_text(a, None) + ",issue_number:"@ + n,
        a != b ==> filter_text(a, None) != filter_text(b, None),
{
    let x = filter_text(a, None);
    let y = filter_text(b, None);
    let k = "volume:"@.len() as int;
    assert(x.skip(k) =~= decimal(a as nat));
    assert(y.skip(k) =~= decimal(b as nat));
    crate::number::decimal_reads_back(a as nat);
    crate::number::decimal_reads_back(b as nat);
}

/// Every request names the key and asks for JSON, and then what else was asked for.
pub proof fn requests_name_the_key(key: Seq<char>, more: Seq<(Seq<char>, Seq<char>)>)
    ensures
        request(key, more).len() == more.len() + 2,
        request(key, more).contains(("api_key"@, key)),
        request(key, more).contains(("format"@, "json"@)),
        request(key, more).skip(2) == more,
{
    let r = request(key, more);
    assert(r[0] == ("api_key"@, key));
    assert(r[1] == ("format"@, "json"@));
    assert(r.skip(2) =~= more);
}

} // verus!
