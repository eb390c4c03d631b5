//! The library: what is kept of each series, where it is kept, and how what is
//! kept changes.
//!
//! The library database lives in the data directory, preferences in the
//! configuration directory, and everything that can be made again (covers,
//! extracted archives) in the cache directory.
use crate::metadata::SeriesMetadata;
use crate::number::{decimal, digits, padded_numerals_differ, padded_text, zero_padded};
use crate::paths::{join_path, joined, names_lie_apart};
use crate::text::{
    chars_of, concat3, join, join_texts, text_copy, texts, unicode_lower, unicode_lowercase,
};
use vstd::arithmetic::div_mod::{lemma_add_mod_noop, lemma_mod_twice, lemma_mul_mod_noop, lemma_small_mod};
use vstd::arithmetic::power::pow;
use vstd::prelude::*;
use vstd::utf8::encode_utf8;

verus! {

/// What the library knows of a series.
#[derive(Clone, Debug)]
pub struct SeriesEntry {
    pub id: i64,
    pub path: String,
    pub title: String,
    pub description: String,
    pub status: String,
    pub genres: String,
    pub chapter_count: Option<u32>,
    pub anilist_score: Option<u32>,
    pub last_read_page: usize,
    pub last_read_chapter: usize,
    pub total_pages: usize,
    pub date_added: i64,
    pub last_opened: i64,
    /// Whether this is a folder of chapters rather than a single file.
    pub is_series: bool,
}

// ── Directories ──────────────────────────────────────────────────────────────

/// The application's directory below a base directory: the one that the
/// environment names, or else a directory below the home directory (or below
/// the current one, if there is no home).
pub open spec fn app_dir(base: Option<Seq<char>>, home: Option<Seq<char>>, below: Seq<char>) -> Seq<
    char,
> {
    let base_dir = match base {
        Some(b) => b,
        None => joined(
            match home {
                Some(h) => h,
                None => "."@,
            },
            below,
        ),
    };
    joined(base_dir, "cosmic-comic"@)
}

/// The text that is borrowed, if any.
pub open spec fn borrowed(o: Option<&str>) -> Option<Seq<char>> {
    match o {
        Some(s) => Some(s@),
        None => None,
    }
}

/// The application's directory below a base directory.
fn dir_below(base: Option<&str>, home: Option<&str>, below: &str) -> (r: String)
    ensures
        r@ == app_dir(borrowed(base), borrowed(home), below@),
{
    let base_dir = match base {
        Some(b) => text_copy(b),
        None => match home {
            Some(h) => join_path(h, below),
            None => join_path(".", below),
        },
    };
    join_path(base_dir.as_str(), "cosmic-comic")
}

/// The directory of the library database, given the environment's
/// `XDG_DATA_HOME` and `HOME`.
pub fn app_data_dir(xdg_data_home: Option<&str>, home: Option<&str>) -> (r: String)
    ensures
        r@ == app_dir(borrowed(xdg_data_home), borrowed(home), ".local/share"@),
{
    dir_below(xdg_data_home, home, ".local/share")
}

/// The directory of the preferences, given the environment's
/// `XDG_CONFIG_HOME` and `HOME`.
pub fn config_dir(xdg_config_home: Option<&str>, home: Option<&str>) -> (r: String)
    ensures
        r@ == app_dir(borrowed(xdg_config_home), borrowed(home), ".config"@),
{
    dir_below(xdg_config_home, home, ".config")
}

/// The directory of everything that can be made again, given the environment's
/// `XDG_CACHE_HOME` and `HOME`.
pub fn cache_dir(xdg_cache_home: Option<&str>, home: Option<&str>) -> (r: String)
    ensures
        r@ == app_dir(borrowed(xdg_cache_home), borrowed(home), ".cache"@),
{
    dir_below(xdg_cache_home, home, ".cache")
}

/// Where the library database is, below the data directory.
pub fn db_path(data_dir: &str) -> (r: String)
    ensures
        r@ == joined(data_dir@, "library.db"@),
{
    join_path(data_dir, "library.db")
}

// ── Hashes and covers ────────────────────────────────────────────────────────

/// The number of values of a 64-bit hash.
pub open spec fn hash_range() -> int {
    0x1_0000_0000_0000_0000
}

/// The bytes summed up, each weighted by a power of 31 that begins anew every
/// 32 bytes.
pub open spec fn weighted_sum(bytes: Seq<u8>) -> int
    decreases bytes.len(),
{
    if bytes.len() == 0 {
        0
    } else {
        let i = bytes.len() - 1;
        weighted_sum(bytes.drop_last()) + bytes.last() as int * pow(31, (i % 32) as nat)
    }
}

/// The hash of a text: the weighted sum of its bytes, in sixteen hexadecimal
/// digits.
pub open spec fn hash_text(s: Seq<char>) -> Seq<char> {
    zero_padded(digits((weighted_sum(encode_utf8(s)) % hash_range()) as nat, 16), 16)
}

/// One more byte in the hash.
proof fn hash_step(sum: int, b: int, weight: int, acc: int, w: int)
    requires
        acc == sum % hash_range(),
        w == weight % hash_range(),
    ensures
        (acc + (b * w) % hash_range()) % hash_range() == (sum + b * weight) % hash_range(),
        (w * 31) % hash_range() == (31 * weight) % hash_range(),
{
    let m = hash_range();
    lemma_mul_mod_noop(b, weight, m);
    lemma_mul_mod_noop(b, w, m);
    lemma_mod_twice(weight, m);
    assert((b * w) % m == (b * weight) % m);
    lemma_add_mod_noop(sum, b * weight, m);
    lemma_add_mod_noop(acc, (b * w) % m, m);
    lemma_mod_twice(sum, m);
    lemma_mod_twice(b * w, m);
    lemma_mul_mod_noop(w, 31, m);
    lemma_mul_mod_noop(weight, 31, m);
    assert(31 * weight == weight * 31);
}

/// A stable hash of a path or another text. It names cache directories, so it
/// does not change from run to run.
pub fn path_hash(s: &str) -> (r: String)
    ensures
        r@ == hash_text(s@),
{
    let bytes = s.as_bytes();
    let mut hash: u64 = 0;
    let mut weight: u64 = 1;
    proof {
        lemma_small_mod(0, hash_range() as nat);
    }
    for i in 0..bytes.len()
        invariant
            hash == weighted_sum(bytes@.take(i as int)) % hash_range(),
            i % 32 != 0 ==> weight == pow(31, (i % 32) as nat) % hash_range(),
    {
        if i % 32 == 0 {
            weight = 1;
            proof {
                vstd::arithmetic::power::lemma_pow0(31);
                lemma_small_mod(1, hash_range() as nat);
            }
        }
        proof {
            let t = bytes@.take(i + 1);
            assert(t.drop_last() == bytes@.take(i as int));
            assert(t.last() == bytes@[i as int]);
            hash_step(
                weighted_sum(bytes@.take(i as int)),
                bytes@[i as int] as int,
                pow(31, (i % 32) as nat),
                hash as int,
                weight as int,
            );
            if i % 32 != 31 {
                assert((i + 1) % 32 == i % 32 + 1);
                reveal(pow);
            } else {
                assert((i + 1) % 32 == 0);
            }
        }
        let term: u64 = (bytes[i] as u64).wrapping_mul(weight);
        assert(term == (bytes@[i as int] as int * weight as int) % hash_range());
        hash = hash.wrapping_add(term);
        weight = weight.wrapping_mul(31);
    }
    assert(bytes@.take(bytes@.len() as int) == bytes@);
    padded_text(hash as u128, 16, 16)
}

/// The directory of a series' covers.
pub open spec fn cover_dir(cache_dir: Seq<char>, series_path: Seq<char>) -> Seq<char> {
    joined(joined(cache_dir, "covers"@), hash_text(series_path))
}

/// The place of a chapter's cover.
pub open spec fn cover_path(cache_dir: Seq<char>, series_path: Seq<char>, chapter: nat) -> Seq<
    char,
> {
    joined(
        cover_dir(cache_dir, series_path),
        "ch"@ + zero_padded(digits(chapter, 10), 4) + ".png"@,
    )
}

/// The directory below the cache directory where the chapter covers of a
/// series are kept.
pub fn series_cover_dir(cache_dir: &str, series_path: &str) -> (r: String)
    ensures
        r@ == cover_dir(cache_dir@, series_path@),
{
    let covers = join_path(cache_dir, "covers");
    let hash = path_hash(series_path);
    join_path(covers.as_str(), hash.as_str())
}

/// Where the cover of a chapter is kept, below the cache directory.
pub fn chapter_cover_path(cache_dir: &str, series_path: &str, chapter_idx: usize) -> (r: String)
    ensures
        r@ == cover_path(cache_dir@, series_path@, chapter_idx as nat),
{
    let dir = series_cover_dir(cache_dir, series_path);
    let number = padded_text(chapter_idx as u128, 10, 4);
    let name = concat3("ch", number.as_str(), ".png");
    join_path(dir.as_str(), name.as_str())
}

/// The covers of different chapters are kept in different files.
pub proof fn covers_lie_apart(cache_dir: Seq<char>, series_path: Seq<char>, i: nat, j: nat)
    requires
        i != j,
    ensures
        cover_path(cache_dir, series_path, i) != cover_path(cache_dir, series_path, j),
{
    let a = zero_padded(decimal(i), 4);
    let b = zero_padded(decimal(j), 4);
    let x = "ch"@ + a + ".png"@;
    let y = "ch"@ + b + ".png"@;
    reveal_strlit("ch");
    reveal_strlit(".png");
    padded_numerals_differ(i, j, 4);
    assert(x.subrange(2, x.len() - 4) =~= a);
    assert(y.subrange(2, y.len() - 4) =~= b);
    names_lie_apart(cover_dir(cache_dir, series_path), x, y);
}

// ── Schema ───────────────────────────────────────────────────────────────────

/// A change of the database's schema.
#[derive(Clone, Copy, Debug, PartialEq, Eq, Structural)]
pub enum Migration {
    /// Make the table of series.
    CreateSeries,
    /// Tell folders of chapters from single files.
    AddIsSeries,
    /// Make the table of library folders.
    CreateLibraryDirs,
}

/// The version that a database of the newest schema is marked with.
pub const SCHEMA_VERSION: i64 = 3;

/// All changes of the schema, in order: each takes a database from its place in
/// the list to the next version.
pub open spec fn all_migrations() -> Seq<Migration> {
    seq![Migration::CreateSeries, Migration::AddIsSeries, Migration::CreateLibraryDirs]
}

/// The changes that a database of the given version lacks.
pub open spec fn pending(version: int) -> Seq<Migration> {
    if version <= 0 {
        all_migrations()
    } else if version >= SCHEMA_VERSION {
        Seq::empty()
    } else {
        all_migrations().skip(version)
    }
}

/// The changes that a database of the given version lacks, in the order in
/// which they are made. An older database is brought up to date where it
/// stands; a newer one is left alone.
pub fn pending_migrations(version: i64) -> (r: Vec<Migration>)
    ensures
        r@ == pending(version as int),
{
    let mut r: Vec<Migration> = Vec::new();
    if version < 1 {
        r.push(Migration::CreateSeries);
    }
    if version < 2 {
        r.push(Migration::AddIsSeries);
    }
    if version < 3 {
        r.push(Migration::CreateLibraryDirs);
    }
    assert(r@ =~= pending(version as int));
    r
}

/// The schema is brought up to date step by step: what a database lacks is the
/// next change, and then what one version later is lacking; a database of the
/// newest version lacks nothing.
pub proof fn migrations_step_up(version: int)
    requires
        0 <= version,
    ensures
        version < SCHEMA_VERSION ==> pending(version) == seq![all_migrations()[version]] + pending(
            version + 1,
        ),
        version >= SCHEMA_VERSION ==> pending(version).len() == 0,
{
    if version < SCHEMA_VERSION {
        assert(pending(version) =~= seq![all_migrations()[version]] + pending(version + 1));
    }
}

// ── Changes of an entry ──────────────────────────────────────────────────────

/// The page and the chapter at which a series was left, if the library knows
/// the series.
pub open spec fn place_in(entry: Option<SeriesEntry>) -> Option<(usize, usize)> {
    match entry {
        Some(e) => Some((e.last_read_page, e.last_read_chapter)),
        None => None,
    }
}

/// The entry of a series that was left at the given page and chapter.
pub open spec fn left_at(entry: SeriesEntry, page: usize, chapter: usize) -> SeriesEntry {
    SeriesEntry { last_read_page: page, last_read_chapter: chapter, ..entry }
}

/// What the library keeps of a series once it was seen: a new series gets an
/// entry of its own; of a known one the title (unless the new one is empty),
/// the number of pages and the time are brought up to date, and everything else
/// is kept.
pub fn upsert_series(
    existing: Option<SeriesEntry>,
    path: &str,
    title: &str,
    total_pages: usize,
    is_series: bool,
    now: i64,
) -> (r: SeriesEntry)
    ensures
        r.total_pages == total_pages,
        r.last_opened == now,
        r.is_series == is_series,
        existing is Some ==> place_in(Some(r)) == place_in(existing),
        match existing {
            Some(e) => r == (SeriesEntry {
                title: r.title,
                total_pages,
                last_opened: now,
                is_series,
                ..e
            }) && r.title@ == (if title@.len() > 0 {
                title@
            } else {
                e.title@
            }),
            None => {
                &&& r.id == 0
                &&& r.path@ == path@
                &&& r.title@ == title@
                &&& r.description@ == Seq::<char>::empty()
                &&& r.status@ == Seq::<char>::empty()
                &&& r.genres@ == Seq::<char>::empty()
                &&& r.chapter_count is None
                &&& r.anilist_score is None
                &&& r.last_read_page == 0
                &&& r.last_read_chapter == 0
                &&& r.date_added == now
            },
        },
{
    match existing {
        Some(e) => {
            let mut r = e;
            let t = chars_of(title);
            if t.len() > 0 {
                r.title = text_copy(title);
            }
            r.total_pages = total_pages;
            r.last_opened = now;
            r.is_series = is_series;
            r
        },
        None => SeriesEntry {
            id: 0,
            path: text_copy(path),
            title: text_copy(title),
            description: String::new(),
            status: String::new(),
            genres: String::new(),
            chapter_count: None,
            anilist_score: None,
            last_read_page: 0,
            last_read_chapter: 0,
            total_pages,
            date_added: now,
            last_opened: now,
            is_series,
        },
    }
}

/// The entry of a series that was opened at the given time.
pub fn touch_opened(entry: SeriesEntry, now: i64) -> (r: SeriesEntry)
    ensures
        r == (SeriesEntry { last_opened: now, ..entry }),
        place_in(Some(r)) == place_in(Some(entry)),
{
    SeriesEntry { last_opened: now, ..entry }
}

/// The entry of a series with what was found out about it: the genres are
/// listed with commas between them.
pub fn update_metadata(entry: SeriesEntry, meta: &SeriesMetadata) -> (r: SeriesEntry)
    ensures
        r == (SeriesEntry {
            title: meta.title,
            description: meta.description,
            status: meta.status,
            genres: r.genres,
            chapter_count: meta.chapter_count,
            anilist_score: meta.score,
            ..entry
        }),
        r.genres@ == join(texts(meta.genres@), ", "@),
        place_in(Some(r)) == place_in(Some(entry)),
{
    let genres = join_texts(&meta.genres, ", ");
    SeriesEntry {
        title: meta.title.clone(),
        description: meta.description.clone(),
        status: meta.status.clone(),
        genres,
        chapter_count: meta.chapter_count,
        anilist_score: meta.score,
        ..entry
    }
}

/// The entry of a series that was left at the given page and chapter.
pub fn save_progress(entry: SeriesEntry, page: usize, chapter: usize) -> (r: SeriesEntry)
    ensures
        r == left_at(entry, page, chapter),
{
    SeriesEntry { last_read_page: page, last_read_chapter: chapter, ..entry }
}

/// The page and the chapter at which a series was left, if the library knows
/// the series.
pub fn get_progress(entry: Option<&SeriesEntry>) -> (r: Option<(usize, usize)>)
    ensures
        r == place_in(
            match entry {
                Some(e) => Some(*e),
                None => None,
            },
        ),
{
    match entry {
        Some(e) => Some((e.last_read_page, e.last_read_chapter)),
        None => None,
    }
}

// ── Rows ─────────────────────────────────────────────────────────────────────

/// A row of the table of series: numbers are signed 64-bit integers there.
#[derive(Clone, Debug)]
pub struct SeriesRow {
    pub id: i64,
    pub path: String,
    pub title: String,
    pub description: String,
    pub status: String,
    pub genres: String,
    pub chapter_count: Option<i64>,
    pub anilist_score: Option<i64>,
    pub last_read_page: i64,
    pub last_read_ch: i64,
    pub total_pages: i64,
    pub date_added: i64,
    pub last_opened: i64,
    pub is_series: i64,
}

/// A number of a row, where there is one, as the entry holds it.
pub open spec fn read_count(o: Option<i64>) -> Option<u32> {
    match o {
        Some(v) => Some(#[verifier::truncate] (v as u32)),
        None => None,
    }
}

/// A number of an entry, where there is one, as the row holds it.
pub open spec fn written_count(o: Option<u32>) -> Option<i64> {
    match o {
        Some(v) => Some(v as i64),
        None => None,
    }
}

/// The entry that a row holds.
pub open spec fn entry_of(row: SeriesRow) -> SeriesEntry {
    SeriesEntry {
        id: row.id,
        path: row.path,
        title: row.title,
        description: row.description,
        status: row.status,
        genres: row.genres,
        chapter_count: read_count(row.chapter_count),
        anilist_score: read_count(row.anilist_score),
        last_read_page: #[verifier::truncate] (row.last_read_page as usize),
        last_read_chapter: #[verifier::truncate] (row.last_read_ch as usize),
        total_pages: #[verifier::truncate] (row.total_pages as usize),
        date_added: row.date_added,
        last_opened: row.last_opened,
        is_series: row.is_series != 0,
    }
}

/// The row that holds an entry.
pub open spec fn row_of(entry: SeriesEntry) -> SeriesRow {
    SeriesRow {
        id: entry.id,
        path: entry.path,
        title: entry.title,
        description: entry.description,
        status: entry.status,
        genres: entry.genres,
        chapter_count: written_count(entry.chapter_count),
        anilist_score: written_count(entry.anilist_score),
        last_read_page: #[verifier::truncate] (entry.last_read_page as i64),
        last_read_ch: #[verifier::truncate] (entry.last_read_chapter as i64),
        total_pages: #[verifier::truncate] (entry.total_pages as i64),
        date_added: entry.date_added,
        last_opened: entry.last_opened,
        is_series: if entry.is_series {
            1
        } else {
            0
        },
    }
}

/// The entry that a row holds.
pub fn row_to_entry(row: SeriesRow) -> (r: SeriesEntry)
    ensures
        r == entry_of(row),
{
    let chapter_count: Option<u32> = match row.chapter_count {
        Some(v) => Some(#[verifier::truncate] (v as u32)),
        None => None,
    };
    let anilist_score: Option<u32> = match row.anilist_score {
        Some(v) => Some(#[verifier::truncate] (v as u32)),
        None => None,
    };
    SeriesEntry {
        id: row.id,
        path: row.path,
        title: row.title,
        description: row.description,
        status: row.status,
        genres: row.genres,
        chapter_count,
        anilist_score,
        last_read_page: #[verifier::truncate] (row.last_read_page as usize),
        last_read_chapter: #[verifier::truncate] (row.last_read_ch as usize),
        total_pages: #[verifier::truncate] (row.total_pages as usize),
        date_added: row.date_added,
        last_opened: row.last_opened,
        is_series: row.is_series != 0,
    }
}

/// The row that holds an entry.
pub fn entry_to_row(entry: SeriesEntry) -> (r: SeriesRow)
    ensures
        r == row_of(entry),
{
    let chapter_count: Option<i64> = match entry.chapter_count {
        Some(v) => Some(v as i64),
        None => None,
    };
    let anilist_score: Option<i64> = match entry.anilist_score {
        Some(v) => Some(v as i64),
        None => None,
    };
    SeriesRow {
        id: entry.id,
        path: entry.path,
        title: entry.title,
        description: entry.description,
        status: entry.status,
        genres: entry.genres,
        chapter_count,
        anilist_score,
        last_read_page: #[verifier::truncate] (entry.last_read_page as i64),
        last_read_ch: #[verifier::truncate] (entry.last_read_chapter as i64),
        total_pages: #[verifier::truncate] (entry.total_pages as i64),
        date_added: entry.date_added,
        last_opened: entry.last_opened,
        is_series: if entry.is_series {
            1
        } else {
            0
        },
    }
}

/// What is written is read back: the row of an entry holds just that entry, its
/// reading progress included.
pub proof fn entry_reads_back(entry: SeriesEntry)
    ensures
        entry_of(row_of(entry)) == entry,
{
    let p = entry.last_read_page;
    let c = entry.last_read_chapter;
    let t = entry.total_pages;
    assert(#[verifier::truncate] ((#[verifier::truncate] (p as i64)) as usize) == p)
        by (bit_vector);
    assert(#[verifier::truncate] ((#[verifier::truncate] (c as i64)) as usize) == c)
        by (bit_vector);
    assert(#[verifier::truncate] ((#[verifier::truncate] (t as i64)) as usize) == t)
        by (bit_vector);
}

/// The place at which a series was left is the place that is read back from its
/// row.
pub proof fn saved_place_is_read_back(entry: SeriesEntry, page: usize, chapter: usize)
    ensures
        place_in(Some(entry_of(row_of(left_at(entry, page, chapter))))) == Some((page, chapter)),
{
    entry_reads_back(left_at(entry, page, chapter));
}

// ── Search ───────────────────────────────────────────────────────────────────

/// The pattern under which a search looks for titles, descriptions and genres:
/// the lower-cased query, anywhere.
pub fn search_pattern(query: &str) -> (r: String)
    ensures
        r@ == "%"@ + unicode_lowercase(query@) + "%"@,
{
    let lower = unicode_lower(query);
    concat3("%", lower.as_str(), "%")
}

// ── Laws ─────────────────────────────────────────────────────────────────────

/// A directory that the environment names counts alone; without one it is as if the
/// environment had named the one below the home directory, or below the current one.
pub proof fn the_environment_names_the_directory(
    base: Seq<char>,
    home: Option<Seq<char>>,
    other: Option<Seq<char>>,
    below: Seq<char>,
    also: Seq<char>,
    h: Seq<char>,
)
    ensures
        app_dir(Some(base), home, below) == app_dir(Some(base), other, also),
        app_dir(None, Some(h), below) == app_dir(Some(joined(h, below)), other, also),
        app_dir(None, None, below) == app_dir(None, Some(seq!['.']), below),
        base.len() > 0 && base.last() != '/' ==> app_dir(Some(base), home, below) == base + seq![
            '/',
        ] + "cosmic-comic"@,
{
    reveal_strlit(".");
    reveal_strlit("cosmic-comic");
    assert("."@ =~= seq!['.']);
    assert("cosmic-comic"@[0] == 'c');
    crate::paths::paths_are_joined_by_one_slash(base, "cosmic-comic"@);
}

/// A change of one byte changes the weighted sum by the difference times the power of 31
/// that belongs to its place within its block of 32; zeros add nothing; and a longer
/// text's sum goes on from that of its front.
pub proof fn bytes_count_by_their_places(bytes: Seq<u8>, i: int, x: u8)
    requires
        0 <= i < bytes.len(),
    ensures
        weighted_sum(bytes.update(i, x)) == weighted_sum(bytes) + (x - bytes[i]) * pow(
            31,
            (i % 32) as nat,
        ),
        (forall|j: int| 0 <= j < bytes.len() ==> (#[trigger] bytes[j]) == 0) ==> weighted_sum(bytes)
            == 0,
    decreases bytes.len(),
{
    let n = bytes.len() - 1;
    let rest = bytes.drop_last();
    let w = pow(31, (n % 32) as nat);
    if forall|j: int| 0 <= j < bytes.len() ==> (#[trigger] bytes[j]) == 0 {
        no_weight(bytes);
    }
    if i < n {
        bytes_count_by_their_places(rest, i, x);
        assert(bytes.update(i, x).drop_last() =~= rest.update(i, x));
        assert(bytes.update(i, x).last() == bytes.last());
    } else {
        assert(bytes.update(i, x).drop_last() =~= rest);
        let old = bytes[i] as int;
        let new = x as int;
        assert(new * w == old * w + (new - old) * w) by (nonlinear_arith);
    }
}

/// Zeros add nothing.
proof fn no_weight(bytes: Seq<u8>)
    requires
        forall|j: int| 0 <= j < bytes.len() ==> (#[trigger] bytes[j]) == 0,
    ensures
        weighted_sum(bytes) == 0,
    decreases bytes.len(),
{
    if bytes.len() > 0 {
        let rest = bytes.drop_last();
        assert forall|j: int| 0 <= j < rest.len() implies (#[trigger] rest[j]) == 0 by {
            assert(rest[j] == bytes[j]);
        }
        no_weight(rest);
        assert(bytes[bytes.len() - 1] == 0);
        let w = pow(31, ((bytes.len() - 1) % 32) as nat);
        assert(0 * w == 0) by (nonlinear_arith);
    }
}

/// Numbers below a power of sixteen have no more hexadecimal digits than the power says,
/// and each is a digit or a small letter.
proof fn hexadecimal_digits(n: nat, k: nat)
    requires
        k > 0,
        n < pow(16, k),
    ensures
        1 <= digits(n, 16).len() <= k,
        forall|i: int|
            0 <= i < digits(n, 16).len() ==> ('0' <= #[trigger] digits(n, 16)[i] && digits(
                n,
                16,
            )[i] <= '9') || ('a' <= digits(n, 16)[i] && digits(n, 16)[i] <= 'f'),
    decreases k,
{
    if n >= 16 {
        reveal(pow);
        if k == 1 {
            assert(pow(16, 0) == 1);
            assert(pow(16, 1) == 16 * pow(16, 0));
        }
        let p = pow(16, (k - 1) as nat);
        assert(pow(16, k) == 16 * p);
        assert(n / 16 < p) by (nonlinear_arith)
            requires
                n < 16 * p,
        ;
        hexadecimal_digits(n / 16, (k - 1) as nat);
        let rest = digits(n / 16, 16);
        let d = crate::number::digit(n % 16);
        assert(digits(n, 16) == rest.push(d));
        assert(('0' <= d && d <= '9') || ('a' <= d && d <= 'f'));
    } else {
        let d = crate::number::digit(n);
        assert(digits(n, 16) =~= seq![d]);
        assert(('0' <= d && d <= '9') || ('a' <= d && d <= 'f'));
    }
}

/// A hash is always sixteen hexadecimal digits, with small letters; so it can be a
/// file's name.
pub proof fn a_hash_has_sixteen_digits(s: Seq<char>)
    ensures
        hash_text(s).len() == 16,
        forall|i: int|
            0 <= i < 16 ==> ('0' <= #[trigger] hash_text(s)[i] && hash_text(s)[i] <= '9') || ('a'
                <= hash_text(s)[i] && hash_text(s)[i] <= 'f'),
{
    let n = (weighted_sum(encode_utf8(s)) % hash_range()) as nat;
    assert(pow(16, 16) == hash_range()) by {
        sixteen_to_the_sixteenth();
    }
    hexadecimal_digits(n, 16);
}

/// Sixteen to the sixteenth.
proof fn sixteen_to_the_sixteenth()
    ensures
        pow(16, 16) == hash_range(),
{
    reveal_with_fuel(pow, 17);
}

/// A database lacks each change exactly if it is older than the version that the change
/// leads to, and the changes are made in the order of their versions.
pub proof fn older_databases_lack_more(version: int)
    ensures
        pending(version).contains(Migration::CreateSeries) <==> version < 1,
        pending(version).contains(Migration::AddIsSeries) <==> version < 2,
        pending(version).contains(Migration::CreateLibraryDirs) <==> version < 3,
        pending(version).len() == (if version < 0 {
            3
        } else if version > 3 {
            0
        } else {
            3 - version
        }),
        forall|i: int|
            0 <= i < pending(version).len() ==> (#[trigger] pending(version)[pending(version).len()
                - 1 - i]) == (if i == 0 {
                Migration::CreateLibraryDirs
            } else if i == 1 {
                Migration::AddIsSeries
            } else {
                Migration::CreateSeries
            }),
{
    let p = pending(version);
    if version < 1 {
        assert(p[0] == Migration::CreateSeries);
        assert(p[1] == Migration::AddIsSeries);
        assert(p[2] == Migration::CreateLibraryDirs);
    } else if version < 2 {
        assert(p[0] == Migration::AddIsSeries);
        assert(p[1] == Migration::CreateLibraryDirs);
    } else if version < 3 {
        assert(p[0] == Migration::CreateLibraryDirs);
    }
}

/// Numbers that fit are read from a row as they stand there and written into it as they
/// are; a flag is set exactly if the row's number is not zero.
pub proof fn rows_hold_numbers_as_they_are(row: SeriesRow, entry: SeriesEntry)
    ensures
        0 <= row.last_read_page <= 0xffff_ffff ==> entry_of(row).last_read_page
            == row.last_read_page,
        0 <= row.last_read_ch <= 0xffff_ffff ==> entry_of(row).last_read_chapter
            == row.last_read_ch,
        0 <= row.total_pages <= 0xffff_ffff ==> entry_of(row).total_pages == row.total_pages,
        entry_of(row).is_series <==> row.is_series != 0,
        entry_of(row).id == row.id && entry_of(row).path == row.path && entry_of(row).title
            == row.title && entry_of(row).date_added == row.date_added && entry_of(row).last_opened
            == row.last_opened,
        entry.last_read_page <= i64::MAX ==> row_of(entry).last_read_page == entry.last_read_page,
        entry.last_read_chapter <= i64::MAX ==> row_of(entry).last_read_ch
            == entry.last_read_chapter,
        entry.total_pages <= i64::MAX ==> row_of(entry).total_pages == entry.total_pages,
        row_of(entry).is_series == 1 || row_of(entry).is_series == 0,
        entry.is_series <==> row_of(entry).is_series == 1,
{
}

/// The chapter covers of a series are PNG files in the series' own directory, numbered
/// with four digits at least.
pub proof fn covers_are_numbered_files(cache_dir: Seq<char>, series_path: Seq<char>, chapter: nat)
    requires
        cache_dir.len() > 0,
        cache_dir.last() != '/',
    ensures
        cover_path(cache_dir, series_path, chapter) == cache_dir + "/covers/"@ + hash_text(
            series_path,
        ) + "/ch"@ + zero_padded(decimal(chapter), 4) + ".png"@,
{
    reveal_strlit("covers");
    reveal_strlit("/covers/");
    reveal_strlit("ch");
    reveal_strlit("/ch");
    reveal_strlit(".png");
    let h = hash_text(series_path);
    a_hash_has_sixteen_digits(series_path);
    assert(h[0] != '/' && h[15] != '/');
    let covers = joined(cache_dir, "covers"@);
    assert(covers == cache_dir + seq!['/'] + "covers"@);
    assert(covers.last() == 's');
    let dir = joined(covers, h);
    assert(dir == covers + seq!['/'] + h);
    assert(dir.last() == h[15]);
    assert(cover_path(cache_dir, series_path, chapter) =~= cache_dir + "/covers/"@ + h + "/ch"@
        + zero_padded(decimal(chapter), 4) + ".png"@);
}

} // verus!
