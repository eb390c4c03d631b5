//! The decisions around background work: what is opened and how, what a library
//! folder holds, what a scan found, and how covers are made.
use crate::app::{Action, ActionModel, ScanOutcome};
use crate::comic::{copy_page, file_name_text, ChapterInfo, Page, PageSource};
use crate::comicinfo::{ComicInfo, InfoView};
use crate::epub::{is_epub_name, EpubBook};
use crate::imaging::{decode_rgba, decoded, scale_rgba, scaled};
use crate::metadata::{extract_title, opt_nat, title_of, ParsedFilename, ParsedView};
use crate::number::{decimal, decimal_text};
use crate::paths::{file_name, name_of};
use crate::text::{
    ascii_lower, begins_with, chars_of, concat3, ends_with, finishes_with, lossy_text, lower_chars, opt_text, rows, same_text,
    split_chars, split_on, starts_with, string_of, text_copy, text_from_bytes, texts, trim, trimmed,
};
use crate::weburl::{parse_url, url_of};
use vstd::prelude::*;

verus! {

/// The width of a cover.
pub const THUMB_W: u32 = 120;

/// The height of a cover.
pub const THUMB_H: u32 = 170;

// ── Opening ──────────────────────────────────────────────────────────────────

/// Whether a file of this name is taken for a book.
pub open spec fn epub_name(name: Seq<char>) -> bool {
    ends_with(ascii_lower(name), ".epub"@)
}

/// Whether the file at a path is taken for a book.
pub open spec fn is_epub_at(path: Seq<char>) -> bool {
    name_of(path) is Some && epub_name(name_of(path)->0)
}

/// How a path is opened: as a book, if its name says so, else as a comic.
pub open spec fn opening_of(path: Seq<char>) -> ActionModel {
    if is_epub_at(path) {
        ActionModel::OpenEpub(path)
    } else {
        ActionModel::OpenComic(path)
    }
}

/// Whether the file at a path is taken for a book.
pub fn is_epub_path(path: &str) -> (r: bool)
    ensures
        r == is_epub_at(path@),
{
    match file_name(path) {
        Some(n) => is_epub_name(n.as_str()),
        None => false,
    }
}

/// How a path is opened.
pub fn open_any(path: String) -> (r: Action)
    ensures
        r@ == opening_of(path@),
{
    if is_epub_path(path.as_str()) {
        Action::OpenEpub(path)
    } else {
        Action::OpenComic(path)
    }
}

/// A typed path with a leading `~` standing for the home directory, as in a
/// shell.
pub open spec fn expanded(path: Seq<char>, home: Option<Seq<char>>) -> Seq<char> {
    if path == "~"@ {
        match home {
            Some(h) => h,
            None => Seq::empty(),
        }
    } else if starts_with(path, "~/"@) && home is Some {
        home->0 + "/"@ + path.skip(2)
    } else {
        path
    }
}

/// A typed path with a leading `~` standing for the home directory.
pub fn shellexpand_home(path: &str, home: Option<&str>) -> (r: String)
    ensures
        r@ == expanded(path@, crate::library::borrowed(home)),
{
    if same_text(path, "~") {
        return match home {
            Some(h) => text_copy(h),
            None => String::new(),
        };
    }
    let v = chars_of(path);
    proof {
        reveal_strlit("~/");
    }
    if begins_with(v.as_slice(), "~/") {
        if let Some(h) = home {
            let rest = string_of(vstd::slice::slice_subrange(v.as_slice(), 2, v.len()));
            assert(rest@ =~= path@.skip(2));
            return concat3(h, "/", rest.as_str());
        }
    }
    text_copy(path)
}

/// The local path that a line of a `text/uri-list` names, if it is the `file:`
/// address of one. White space around the line does not count, and a line that
/// begins with `#` is a comment.
pub open spec fn local_entry(line: Seq<char>) -> Option<Seq<char>> {
    let entry = trim(line);
    if entry.len() == 0 || entry[0] == '#' {
        None
    } else {
        match url_of(entry) {
            Some(u) => if u.scheme == "file"@ {
                u.file_path
            } else {
                None
            },
            None => None,
        }
    }
}

/// The first local path that the lines name.
pub open spec fn first_local(lines: Seq<Seq<char>>) -> Option<Seq<char>>
    decreases lines.len(),
{
    if lines.len() == 0 {
        None
    } else if local_entry(lines[0]) is Some {
        local_entry(lines[0])
    } else {
        first_local(lines.drop_first())
    }
}

/// The first local path that a `text/uri-list` names.
pub open spec fn first_path(data: Seq<u8>) -> Option<Seq<char>> {
    first_local(split_on(lossy_text(data), '\n'))
}

/// The local path that a line of a `text/uri-list` names, if it names one.
fn entry_path(line: &[char]) -> (r: Option<String>)
    ensures
        opt_text(r) == local_entry(line@),
{
    let entry = trimmed(line);
    if entry.len() == 0 || entry[0] == '#' {
        return None;
    }
    let text = string_of(entry);
    match parse_url(text.as_str()) {
        Some(u) => if same_text(u.scheme.as_str(), "file") {
            u.file_path
        } else {
            None
        },
        None => None,
    }
}

/// The first local path that a `text/uri-list` names, as drag and drop delivers
/// it.
pub fn first_path_from_uri_list(data: &[u8]) -> (r: Option<String>)
    ensures
        opt_text(r) == first_path(data@),
{
    let text = text_from_bytes(data);
    let v = chars_of(text.as_str());
    let lines = split_chars(v.as_slice(), '\n');
    let ghost all = rows(lines@);
    assert(all.skip(0) =~= all);
    for i in 0..lines.len()
        invariant
            all == rows(lines@),
            all == split_on(lossy_text(data@), '\n'),
            first_local(all) == first_local(all.skip(i as int)),
    {
        assert(all.skip(i as int)[0] == lines@[i as int]@);
        assert(all.skip(i as int).drop_first() =~= all.skip(i + 1));
        let path = entry_path(lines[i].as_slice());
        if path.is_some() {
            return path;
        }
    }
    assert(all.skip(all.len() as int).len() == 0);
    None
}

// ── Library folders ──────────────────────────────────────────────────────────

/// Something in a library folder.
pub struct DirItem {
    pub path: String,
    pub is_dir: bool,
}

/// Whether a file of this name is taken for a comic archive.
pub open spec fn comic_archive_name(name: Seq<char>) -> bool {
    let lower = ascii_lower(name);
    ends_with(lower, ".cbz"@) || ends_with(lower, ".cbr"@)
}

/// Whether something in a library folder looks as if it could be opened: a
/// folder, a comic archive or a book.
pub open spec fn openable(item: DirItem) -> bool {
    item.is_dir || (name_of(item.path@) is Some && {
        let name = name_of(item.path@)->0;
        comic_archive_name(name) || epub_name(name)
    })
}

/// Whether a file of this name is taken for a comic archive.
fn is_comic_archive_name(name: &str) -> (r: bool)
    ensures
        r == comic_archive_name(name@),
{
    let lower = lower_chars(name);
    finishes_with(lower.as_slice(), ".cbz") || finishes_with(lower.as_slice(), ".cbr")
}

/// The paths of what looks as if it could be opened.
pub open spec fn openable_paths(items: Seq<DirItem>) -> Seq<Seq<char>>
    decreases items.len(),
{
    if items.len() == 0 {
        Seq::empty()
    } else if openable(items.last()) {
        openable_paths(items.drop_last()).push(items.last().path@)
    } else {
        openable_paths(items.drop_last())
    }
}

/// What in a library folder looks as if it could be opened: folders (each may
/// hold one chapter or many), loose `.cbz` and `.cbr` archives and `.epub` books.
pub fn discover_library_entries(items: &Vec<DirItem>) -> (r: Vec<String>)
    ensures
        texts(r@) == openable_paths(items@),
{
    let mut out: Vec<String> = Vec::new();
    assert(texts(out@) =~= Seq::empty());
    for i in 0..items.len()
        invariant
            texts(out@) == openable_paths(items@.take(i as int)),
    {
        assert(items@.take(i + 1).drop_last() =~= items@.take(i as int));
        let item = &items[i];
        let keep = item.is_dir || match file_name(item.path.as_str()) {
            Some(name) => is_comic_archive_name(name.as_str()) || is_epub_name(name.as_str()),
            None => false,
        };
        if keep {
            let ghost was = texts(out@);
            out.push(item.path.clone());
            assert(texts(out@) =~= was.push(item.path@));
        }
    }
    assert(items@.take(items@.len() as int) =~= items@);
    out
}

/// What the scan of a book found.
pub fn scan_epub(path: String, book: Result<EpubBook, String>) -> (r: Result<ScanOutcome, String>)
    ensures
        match book {
            Err(e) => r == Err::<ScanOutcome, String>(e),
            Ok(b) => r matches Ok(o) && o == (ScanOutcome {
                path,
                title: b.title,
                count: o.count,
                is_series: false,
                first_page: None,
                epub_cover: b.cover,
            }) && o.count == b.chapters@.len(),
        },
{
    match book {
        Err(e) => Err(e),
        Ok(b) => {
            let count: usize = b.chapters.len();
            Ok(
                ScanOutcome {
                    path,
                    title: b.title,
                    count,
                    is_series: false,
                    first_page: None,
                    epub_cover: b.cover,
                },
            )
        },
    }
}

/// What the scan of a comic found.
pub fn scan_comic(
    path: String,
    is_series: bool,
    listed: Result<(Vec<PageSource>, Vec<ChapterInfo>), String>,
) -> (r: Result<ScanOutcome, String>)
    ensures
        match listed {
            Err(e) => r == Err::<ScanOutcome, String>(e),
            Ok((sources, chapters)) => r matches Ok(o) && {
                &&& o.path == path
                &&& o.title@ == title_of(file_name_text(path@))
                &&& o.count == sources@.len()
                &&& o.is_series == is_series
                &&& o.first_page == (if sources@.len() > 0 {
                    Some(sources@[0])
                } else {
                    None
                })
                &&& o.epub_cover is None
            },
        },
{
    match listed {
        Err(e) => Err(e),
        Ok((sources, chapters)) => {
            let name = match file_name(path.as_str()) {
                Some(n) => n,
                None => String::new(),
            };
            assert(name@ =~= file_name_text(path@));
            let title = extract_title(name.as_str());
            let count: usize = sources.len();
            let first_page: Option<PageSource> = if count > 0 {
                Some(copy_page(&sources[0]))
            } else {
                None
            };
            Ok(ScanOutcome { path, title, count, is_series, first_page, epub_cover: None })
        },
    }
}

// ── Covers ───────────────────────────────────────────────────────────────────

/// Whether a page of this size can be scaled down to a cover within what one
/// allocation may hold.
pub open spec fn fits_thumb(width: u32, height: u32) -> bool {
    16 * width * THUMB_H <= isize::MAX && 16 * height <= isize::MAX
}

/// Whether a page of this size can be scaled down to a cover within what one
/// allocation may hold.
pub fn can_thumb(width: u32, height: u32) -> (r: bool)
    ensures
        r == fits_thumb(width, height),
{
    let room: i128 = isize::MAX as i128;
    width as i128 * 2720 <= room && height as i128 * 16 <= room
}

/// Makes a cover of a page. A page whose pixels do not fill it makes none.
pub fn thumbnail(page: Page) -> (r: Result<Vec<u8>, String>)
    requires
        fits_thumb(page.width, page.height),
    ensures
        if page.rgba@.len() >= 4 * page.width * page.height {
            r matches Ok(out) && out@ == scaled(
                page.width,
                page.height,
                page.rgba@,
                THUMB_W,
                THUMB_H,
            ) && out@.len() == 4 * THUMB_W * THUMB_H
        } else {
            r matches Err(e) && e@ == "bad rgba"@
        },
{
    match scale_rgba(page.width, page.height, page.rgba, THUMB_W, THUMB_H) {
        Some(out) => Ok(out),
        None => Err("bad rgba".to_owned()),
    }
}

/// Decodes the cover of a book.
pub fn decode_cover(data: &[u8]) -> (r: Result<Page, String>)
    ensures
        match decoded(data@) {
            Ok((width, height, rgba)) => r matches Ok(p) && p.width == width && p.height == height
                && p.rgba@ == rgba && rgba.len() == 4 * width * height,
            Err(e) => r matches Err(t) && t@ == "decode cover: "@ + e,
        },
{
    match decode_rgba(data) {
        Ok((width, height, rgba)) => Ok(Page { width, height, rgba }),
        Err(e) => {
            let mut t = "decode cover: ".to_owned();
            t.append(e.as_str());
            Err(t)
        },
    }
}

/// How many pages are decoded at a time on a machine with this many cores: half
/// of the cores, but no less than two. A page on screen is not to wait for
/// pages that nobody has got to yet.
pub fn decode_permits(cores: usize) -> (r: usize)
    ensures
        r == (if cores / 2 < 2 {
            2
        } else {
            cores / 2
        }),
{
    let half: usize = cores / 2;
    if half < 2 {
        2
    } else {
        half
    }
}

// ── ComicVine ────────────────────────────────────────────────────────────────

/// What ComicVine is asked for.
pub struct ComicVineQuery {
    pub series: Seq<char>,
    pub issue: Option<Seq<char>>,
    pub year: Option<u32>,
}

/// A number as text, where there is one.
pub open spec fn number_text(n: Option<nat>) -> Option<Seq<char>> {
    match n {
        Some(v) => Some(decimal(v)),
        None => None,
    }
}

/// What ComicVine is asked for about a comic: its own description goes first,
/// where it names a series; what the file name says fills the gaps.
pub open spec fn comicvine_query(
    info: Option<InfoView>,
    parsed: ParsedView,
) -> ComicVineQuery {
    let parsed_year = match parsed.year {
        Some(y) => Some(y as u32),
        None => None,
    };
    match info {
        Some(InfoView { series: Some(series), number, year, .. }) => ComicVineQuery {
            series,
            issue: match number {
                Some(n) => Some(n),
                None => number_text(parsed.issue),
            },
            year: match year {
                Some(y) => Some(#[verifier::truncate] (y as u32)),
                None => parsed_year,
            },
        },
        _ => ComicVineQuery {
            series: parsed.series,
            issue: number_text(parsed.issue),
            year: parsed_year,
        },
    }
}

/// The model of a comic's own description, where there is one.
pub open spec fn info_view(info: Option<ComicInfo>) -> Option<InfoView> {
    match info {
        Some(i) => Some(i@),
        None => None,
    }
}

/// A number as text, where there is one.
fn text_of_number(n: Option<u32>) -> (r: Option<String>)
    ensures
        opt_text(r) == number_text(opt_nat(n)),
{
    match n {
        Some(v) => Some(decimal_text(v as u128)),
        None => None,
    }
}

/// What ComicVine is asked for about a comic.
pub fn ask_comicvine(info: &Option<ComicInfo>, parsed: &ParsedFilename) -> (r: Action)
    ensures
        ({
            let q = comicvine_query(info_view(*info), parsed@);
            r@ == (ActionModel::FetchComicVine { series: q.series, issue: q.issue, year: q.year })
        }),
{
    if let Some(i) = info {
        if let Some(series) = &i.series {
            let issue = match &i.number {
                Some(n) => Some(n.clone()),
                None => text_of_number(parsed.issue),
            };
            let year: Option<u32> = match i.year {
                Some(y) => Some(#[verifier::truncate] (y as u32)),
                None => parsed.year,
            };
            return Action::FetchComicVine { series: series.clone(), issue, year };
        }
    }
    Action::FetchComicVine {
        series: parsed.series.clone(),
        issue: text_of_number(parsed.issue),
        year: parsed.year,
    }
}

// ── Laws ─────────────────────────────────────────────────────────────────────

/// A file is opened as a book exactly if its name ends in `.epub`, in whichever case;
/// everything else is opened as a comic, and always the path itself.
pub proof fn books_are_told_by_their_names(dir: Seq<char>, name: Seq<char>)
    requires
        dir.len() > 0,
        crate::paths::proper_name(name),
    ensures
        opening_of(dir + seq!['/'] + name) == (if crate::text::ends_in(
            name,
            seq!['.', 'e', 'p', 'u', 'b'],
        ) {
            ActionModel::OpenEpub(dir + seq!['/'] + name)
        } else {
            ActionModel::OpenComic(dir + seq!['/'] + name)
        }),
{
    reveal_strlit(".epub");
    assert(".epub"@ =~= seq!['.', 'e', 'p', 'u', 'b']);
    crate::paths::a_file_in_a_directory(dir, name);
    crate::text::endings_ignore_case(name, ".epub"@);
}

/// `~` alone is the home directory and `~/` ahead of a path leads from it; without a
/// home directory such a path stays as it is, and so does every other path.
pub proof fn a_tilde_is_the_home_directory(home: Seq<char>, path: Seq<char>)
    ensures
        expanded(seq!['~'], Some(home)) == home,
        expanded(seq!['~', '/'] + path, Some(home)) == home + seq!['/'] + path,
        expanded(seq!['~', '/'] + path, None) == seq!['~', '/'] + path,
        expanded(seq!['~'], None).len() == 0,
        path.len() == 0 || path[0] != '~' ==> expanded(path, Some(home)) == path && expanded(
            path,
            None,
        ) == path,
        path.len() > 1 && path[1] != '/' ==> expanded(path, Some(home)) == path,
{
    reveal_strlit("~");
    reveal_strlit("~/");
    reveal_strlit("/");
    assert("~"@ =~= seq!['~']);
    assert("~/"@ =~= seq!['~', '/']);
    assert("/"@ =~= seq!['/']);
    let long = seq!['~', '/'] + path;
    assert(long.subrange(0, 2) =~= seq!['~', '/']);
    assert(long.skip(2) =~= path);
    assert(long.len() != seq!['~'].len());
    if starts_with(path, "~/"@) {
        assert(path.subrange(0, 2)[0] == path[0] && path.subrange(0, 2)[1] == path[1]);
    }
    if path == "~"@ {
        assert(path[0] == '~');
    }
}

/// The first line of a list that names a local file decides; whitespace around a line
/// does not matter, and comments, empty lines and addresses of other kinds are passed
/// over.
pub proof fn the_first_local_file_counts(
    before: Seq<Seq<char>>,
    line: Seq<char>,
    behind: Seq<Seq<char>>,
)
    requires
        forall|i: int|
            0 <= i < before.len() ==> passed_over(#[trigger] before[i]),
    ensures
        first_local(before + seq![line] + behind) == (if passed_over(line) {
            first_local(behind)
        } else {
            url_of(trim(line))->0.file_path
        }),
        first_local(before) is None,
    decreases before.len(),
{
    let all = before + seq![line] + behind;
    if before.len() == 0 {
        assert(all[0] == line);
        assert(all.drop_first() =~= behind);
    } else {
        let rest = before.drop_first();
        assert(passed_over(before[0]));
        assert(all[0] == before[0]);
        assert(all.drop_first() =~= rest + seq![line] + behind);
        assert forall|i: int| 0 <= i < rest.len() implies passed_over(#[trigger] rest[i]) by {
            assert(rest[i] == before[i + 1]);
        }
        the_first_local_file_counts(rest, line, behind);
    }
}

/// Whether a line of a list names no local file: it is empty, a comment, no address, or
/// the address of something else.
pub open spec fn passed_over(line: Seq<char>) -> bool {
    ||| trim(line).len() == 0
    ||| trim(line)[0] == '#'
    ||| url_of(trim(line)) is None
    ||| url_of(trim(line))->0.scheme != "file"@
    ||| url_of(trim(line))->0.file_path is None
}

/// What a library folder offers are its folders, and the files whose names end in
/// `.cbz`, `.cbr` or `.epub`, in whichever case; all of them, in their order, and
/// nothing else.
pub proof fn library_folders_offer_what_can_be_opened(items: Seq<DirItem>)
    ensures
        openable_paths(items) == items.filter(
            |d: DirItem|
                d.is_dir || (name_of(d.path@) matches Some(n) && crate::comic::ends_in_one(
                    n,
                    seq![".cbz"@, ".cbr"@, ".epub"@],
                )),
        ).map_values(|d: DirItem| d.path@),
    decreases items.len(),
{
    reveal(Seq::filter);
    let p = |d: DirItem|
        d.is_dir || (name_of(d.path@) matches Some(n) && crate::comic::ends_in_one(
            n,
            seq![".cbz"@, ".cbr"@, ".epub"@],
        ));
    let f = |d: DirItem| d.path@;
    if items.len() == 0 {
        assert(openable_paths(items) =~= items.filter(p).map_values(f));
    } else {
        let d = items.last();
        library_folders_offer_what_can_be_opened(items.drop_last());
        if let Some(n) = name_of(d.path@) {
            let endings = seq![".cbz"@, ".cbr"@, ".epub"@];
            crate::text::endings_ignore_case(n, ".cbz"@);
            crate::text::endings_ignore_case(n, ".cbr"@);
            crate::text::endings_ignore_case(n, ".epub"@);
            assert(endings[0] == ".cbz"@ && endings[1] == ".cbr"@ && endings[2] == ".epub"@);
            assert(crate::comic::ends_in_one(n, endings) <==> comic_archive_name(n) || epub_name(n));
        }
        assert(openable(d) == p(d));
        assert(openable_paths(items) =~= items.filter(p).map_values(f));
    }
}

/// A description that names a series is asked about under that name; its number and its
/// year count where it gives them, and the file name's fill the gaps. A description
/// without a series does not matter at all.
pub proof fn descriptions_go_first(
    info: InfoView,
    parsed: ParsedView,
)
    ensures
        info.series is None ==> comicvine_query(Some(info), parsed) == comicvine_query(
            None,
            parsed,
        ),
        info.series matches Some(s) ==> comicvine_query(Some(info), parsed).series == s,
        info.series is Some && info.number is Some ==> comicvine_query(
            Some(info),
            parsed,
        ).issue == Some(info.number->0),
        info.series is Some && info.number is None ==> comicvine_query(Some(info), parsed).issue
            == comicvine_query(None, parsed).issue,
        info.series is Some && info.year is None ==> comicvine_query(Some(info), parsed).year
            == comicvine_query(None, parsed).year,
        info.series is Some && info.year is Some && 0 <= info.year->0 <= 0x7fff_ffff
            ==> comicvine_query(Some(info), parsed).year == Some(info.year->0 as u32),
        comicvine_query(None, parsed).series == parsed.series,
        parsed.issue matches Some(n) ==> (comicvine_query(None, parsed).issue matches Some(t)
            && crate::number::all_digits(t) && crate::number::decimal_value(t) == parsed.issue->0),
        parsed.issue is None ==> comicvine_query(None, parsed).issue is None,
        parsed.year is None ==> comicvine_query(None, parsed).year is None,
        parsed.year is Some && parsed.year->0 <= u32::MAX ==> comicvine_query(None, parsed).year == Some(
            parsed.year->0 as u32,
        ),
{
    if let Some(n) = parsed.issue {
        crate::number::decimal_reads_back(n);
    }
}

} // verus!
