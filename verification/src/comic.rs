//! Comics: archives and folders of images, their pages and their chapters.
use crate::imaging::{decode_rgba, decoded};
use crate::library::{hash_text, path_hash};
use crate::number::{
    decimal, padded_numerals_differ, padded_starts_with_a_digit, padded_text, zero_padded,
};
use crate::order::{name_lt, named, natural_sorted, natural_sorted_same_items, natural_sorted_map, sort_by_name};
use crate::paths::{file_name, file_stem, join_path, joined, name_of, names_lie_apart, stem_of, stem_or_all, without_extension};
use crate::text::{ascii_lower, chars_of, concat3, copy_texts, ends_in, ends_with, endings_ignore_case, finishes_with, lower_chars, same_chars, same_letter, text_copy,
    texts};
use vstd::prelude::*;

verus! {

/// A single decoded page.
#[derive(Debug)]
pub struct Page {
    pub width: u32,
    pub height: u32,
    pub rgba: Vec<u8>,
}

/// Where to find a page's bytes.
#[derive(Clone, Debug)]
pub enum PageSource {
    File(String),
    Zip { archive: String, entry: String },
}

/// The model of a page source.
pub enum PageView {
    File(Seq<char>),
    Zip { archive: Seq<char>, entry: Seq<char> },
}

impl View for PageSource {
    type V = PageView;

    open spec fn view(&self) -> PageView {
        match self {
            PageSource::File(path) => PageView::File(path@),
            PageSource::Zip { archive, entry } => PageView::Zip {
                archive: archive@,
                entry: entry@,
            },
        }
    }
}

/// A copy of a page source.
pub fn copy_page(p: &PageSource) -> (r: PageSource)
    ensures
        r == *p,
{
    match p {
        PageSource::File(path) => PageSource::File(path.clone()),
        PageSource::Zip { archive, entry } => PageSource::Zip {
            archive: archive.clone(),
            entry: entry.clone(),
        },
    }
}

/// The models of page sources.
pub open spec fn page_views(v: Seq<PageSource>) -> Seq<PageView> {
    v.map_values(|p: PageSource| p@)
}

/// The range of pages that one chapter occupies in the list of all pages.
#[derive(Clone, Debug)]
pub struct ChapterInfo {
    pub name: String,
    pub start: usize,
    pub page_count: usize,
}

/// The model of a chapter.
pub struct ChapterView {
    pub name: Seq<char>,
    pub start: nat,
    pub page_count: nat,
}

impl View for ChapterInfo {
    type V = ChapterView;

    open spec fn view(&self) -> ChapterView {
        ChapterView {
            name: self.name@,
            start: self.start as nat,
            page_count: self.page_count as nat,
        }
    }
}

/// The models of chapters.
pub open spec fn chapter_views(v: Seq<ChapterInfo>) -> Seq<ChapterView> {
    v.map_values(|c: ChapterInfo| c@)
}

// ── Names ────────────────────────────────────────────────────────────────────

/// Whether a file of this name is taken for an image.
pub open spec fn image_name(name: Seq<char>) -> bool {
    let lower = ascii_lower(name);
    ||| ends_with(lower, ".png"@)
    ||| ends_with(lower, ".jpg"@)
    ||| ends_with(lower, ".jpeg"@)
    ||| ends_with(lower, ".gif"@)
    ||| ends_with(lower, ".webp"@)
    ||| ends_with(lower, ".bmp"@)
}

/// Whether a file of this name is taken for a zip archive.
pub open spec fn zip_name(name: Seq<char>) -> bool {
    let lower = ascii_lower(name);
    ends_with(lower, ".cbz"@) || ends_with(lower, ".zip"@)
}

/// Whether a file of this name is taken for a rar archive.
pub open spec fn rar_name(name: Seq<char>) -> bool {
    let lower = ascii_lower(name);
    ends_with(lower, ".cbr"@) || ends_with(lower, ".rar"@)
}

/// Whether an archive's entry of this name holds the comic's own description: it
/// stands at the top level, in whichever case.
pub open spec fn comic_info_name(name: Seq<char>) -> bool {
    ascii_lower(name) == "comicinfo.xml"@
}

/// Whether a file of this name is taken for an image.
pub fn is_image_name(name: &str) -> (r: bool)
    ensures
        r == image_name(name@),
{
    let lower = lower_chars(name);
    let v = lower.as_slice();
    finishes_with(v, ".png") || finishes_with(v, ".jpg") || finishes_with(v, ".jpeg")
        || finishes_with(v, ".gif") || finishes_with(v, ".webp") || finishes_with(v, ".bmp")
}

/// Whether a file of this name is taken for a zip archive.
pub fn is_zip_name(name: &str) -> (r: bool)
    ensures
        r == zip_name(name@),
{
    let lower = lower_chars(name);
    finishes_with(lower.as_slice(), ".cbz") || finishes_with(lower.as_slice(), ".zip")
}

/// Whether a file of this name is taken for a rar archive.
pub fn is_rar_name(name: &str) -> (r: bool)
    ensures
        r == rar_name(name@),
{
    let lower = lower_chars(name);
    finishes_with(lower.as_slice(), ".cbr") || finishes_with(lower.as_slice(), ".rar")
}

/// Whether a file of this name is taken for an archive.
pub fn is_archive_name(name: &str) -> (r: bool)
    ensures
        r == (zip_name(name@) || rar_name(name@)),
{
    is_zip_name(name) || is_rar_name(name)
}

/// Whether an archive's entry of this name holds the comic's own description.
fn is_comic_info_name(name: &str) -> (r: bool)
    ensures
        r == comic_info_name(name@),
{
    let lower = lower_chars(name);
    let wanted = chars_of("comicinfo.xml");
    same_chars(lower.as_slice(), wanted.as_slice())
}

/// Whether an archive's entry of this name is a page.
pub open spec fn page_entry(name: Seq<char>) -> bool {
    image_name(name) && !ends_with(name, "/"@)
}

/// Whether an archive's entry of this name is a page.
fn is_page_entry(name: &str) -> (r: bool)
    ensures
        r == page_entry(name@),
{
    let v = chars_of(name);
    is_image_name(name) && !finishes_with(v.as_slice(), "/")
}

/// The endings by which images are known.
pub open spec fn image_endings() -> Seq<Seq<char>> {
    seq![".png"@, ".jpg"@, ".jpeg"@, ".gif"@, ".webp"@, ".bmp"@]
}

/// Whether a name ends in one of these endings, in whichever case.
pub open spec fn ends_in_one(name: Seq<char>, endings: Seq<Seq<char>>) -> bool {
    exists|k: int| 0 <= k < endings.len() && ends_in(name, #[trigger] endings[k])
}

/// Whether a file or an entry is an image, a zip archive or a rar archive is told
/// by the ending of its name alone, in whichever case: whatever stands ahead of the
/// ending, folders among it, does not matter.
pub proof fn files_are_known_by_their_endings(name: Seq<char>)
    ensures
        image_name(name) <==> ends_in_one(name, image_endings()),
        page_entry(name) <==> ends_in_one(name, image_endings()),
        zip_name(name) <==> ends_in_one(name, seq![".cbz"@, ".zip"@]),
        rar_name(name) <==> ends_in_one(name, seq![".cbr"@, ".rar"@]),
        forall|front: Seq<char>| page_entry(name) ==> #[trigger] page_entry(front + name),
        !(zip_name(name) && rar_name(name)),
{
    known_by_endings(name);
    assert forall|front: Seq<char>| page_entry(name) implies #[trigger] page_entry(
        front + name,
    ) by {
        let k = choose|k: int| 0 <= k < 6 && ends_in(name, #[trigger] image_endings()[k]);
        endings_ignore_case(name, image_endings()[k]);
        assert(ends_in(front + name, image_endings()[k]));
        known_by_endings(front + name);
    }
}

/// What a name is known by.
proof fn known_by_endings(name: Seq<char>)
    ensures
        image_name(name) <==> ends_in_one(name, image_endings()),
        page_entry(name) <==> ends_in_one(name, image_endings()),
        zip_name(name) <==> ends_in_one(name, seq![".cbz"@, ".zip"@]),
        rar_name(name) <==> ends_in_one(name, seq![".cbr"@, ".rar"@]),
        !(zip_name(name) && rar_name(name)),
{
    reveal_strlit(".png");
    reveal_strlit(".jpg");
    reveal_strlit(".jpeg");
    reveal_strlit(".gif");
    reveal_strlit(".webp");
    reveal_strlit(".bmp");
    reveal_strlit(".cbz");
    reveal_strlit(".zip");
    reveal_strlit(".cbr");
    reveal_strlit(".rar");
    reveal_strlit("/");
    let lower = ascii_lower(name);
    endings_ignore_case(name, ".png"@);
    endings_ignore_case(name, ".jpg"@);
    endings_ignore_case(name, ".jpeg"@);
    endings_ignore_case(name, ".gif"@);
    endings_ignore_case(name, ".webp"@);
    endings_ignore_case(name, ".bmp"@);
    endings_ignore_case(name, ".cbz"@);
    endings_ignore_case(name, ".zip"@);
    endings_ignore_case(name, ".cbr"@);
    endings_ignore_case(name, ".rar"@);
    let images = image_endings();
    assert(images[0] == ".png"@ && images[1] == ".jpg"@ && images[2] == ".jpeg"@);
    assert(images[3] == ".gif"@ && images[4] == ".webp"@ && images[5] == ".bmp"@);
    assert(image_name(name) <==> ends_in_one(name, images));
    let zips = seq![".cbz"@, ".zip"@];
    assert(zips[0] == ".cbz"@ && zips[1] == ".zip"@);
    assert(zip_name(name) <==> ends_in_one(name, zips));
    let rars = seq![".cbr"@, ".rar"@];
    assert(rars[0] == ".cbr"@ && rars[1] == ".rar"@);
    assert(rar_name(name) <==> ends_in_one(name, rars));
    if zip_name(name) {
        let last = name.last();
        assert(ends_in(name, zips[0]) || ends_in(name, zips[1]));
        assert(zips[0][3] == 'z' && zips[1][3] == 'p');
        assert(same_letter(last, 'z') || same_letter(last, 'p'));
        if rar_name(name) {
            assert(ends_in(name, rars[0]) || ends_in(name, rars[1]));
            assert(rars[0][3] == 'r' && rars[1][3] == 'r');
            assert(same_letter(last, 'r'));
        }
    }
    if image_name(name) && ends_with(name, "/"@) {
        let k = choose|k: int| 0 <= k < 6 && ends_in(name, #[trigger] images[k]);
        let e = images[k];
        let n = e.len() - 1;
        assert(same_letter(name.last(), e[n]));
        assert(name.subrange(name.len() - 1, name.len() as int)[0] == '/');
    }
}

// ── Sources ──────────────────────────────────────────────────────────────────

/// What holds the pages of a chapter.
#[derive(Clone, Copy, Debug, PartialEq, Eq, Structural)]
pub enum SourceKind {
    Zip,
    Rar,
    ImageDir,
}

/// What holds the pages of a chapter, where it is, and what it lists: the names
/// of a zip archive's entries, of the images that a rar archive was unpacked
/// to, or of a directory's files, in the order in which they stand there; or
/// the reason why it cannot be listed.
pub struct Source {
    pub kind: SourceKind,
    pub path: String,
    pub listing: Result<Vec<String>, String>,
}

/// The model of a source.
pub struct SourceView {
    pub kind: SourceKind,
    pub path: Seq<char>,
    pub listing: Result<Seq<Seq<char>>, Seq<char>>,
}

/// The model of what a source lists.
pub open spec fn listing_view(l: Result<Vec<String>, String>) -> Result<Seq<Seq<char>>, Seq<char>> {
    match l {
        Ok(names) => Ok(texts(names@)),
        Err(e) => Err(e@),
    }
}

impl View for Source {
    type V = SourceView;

    open spec fn view(&self) -> SourceView {
        SourceView {
            kind: self.kind,
            path: self.path@,
            listing: listing_view(self.listing),
        }
    }
}

/// The directory below the cache directory that a rar archive is unpacked to.
pub open spec fn rar_dir(cache_dir: Seq<char>, archive: Seq<char>) -> Seq<char> {
    joined(joined(cache_dir, "rar-cache"@), hash_text(archive))
}

/// The place of the image with the given number in a directory that a rar
/// archive was unpacked to.
pub open spec fn unpacked_path(dir: Seq<char>, i: nat) -> Seq<char> {
    joined(dir, zero_padded(decimal(i), 5))
}

/// The directory below the cache directory that a rar archive is unpacked to.
pub fn rar_cache_dir(cache_dir: &str, archive: &str) -> (r: String)
    ensures
        r@ == rar_dir(cache_dir@, archive@),
{
    let all = join_path(cache_dir, "rar-cache");
    let hash = path_hash(archive);
    join_path(all.as_str(), hash.as_str())
}

/// The place of the image with the given number in a directory that a rar
/// archive was unpacked to.
pub fn extracted_path(dir: &str, i: usize) -> (r: String)
    ensures
        r@ == unpacked_path(dir@, i as nat),
{
    let name = padded_text(i as u128, 10, 5);
    join_path(dir, name.as_str())
}

/// Whether a source has a page under this name.
pub open spec fn has_page(kind: SourceKind, name: Seq<char>) -> bool {
    match kind {
        SourceKind::Zip => page_entry(name),
        SourceKind::Rar => true,
        SourceKind::ImageDir => image_name(name),
    }
}

/// Where the page is that stands at place `i` of a source's list under this
/// name.
pub open spec fn page_place(
    kind: SourceKind,
    path: Seq<char>,
    cache_dir: Seq<char>,
    name: Seq<char>,
    i: nat,
) -> PageView {
    match kind {
        SourceKind::Zip => PageView::Zip { archive: path, entry: name },
        SourceKind::Rar => PageView::File(unpacked_path(rar_dir(cache_dir, path), i)),
        SourceKind::ImageDir => PageView::File(joined(path, name)),
    }
}

/// The pages of a source, each with its name, in the order of the list.
pub open spec fn listed_pages(
    kind: SourceKind,
    path: Seq<char>,
    cache_dir: Seq<char>,
    names: Seq<Seq<char>>,
) -> Seq<(Seq<char>, PageView)>
    decreases names.len(),
{
    if names.len() == 0 {
        Seq::empty()
    } else {
        let rest = listed_pages(kind, path, cache_dir, names.drop_last());
        if has_page(kind, names.last()) {
            rest.push(
                (
                    names.last(),
                    page_place(kind, path, cache_dir, names.last(), (names.len() - 1) as nat),
                ),
            )
        } else {
            rest
        }
    }
}

/// The pages of a source, in natural order of their names; or the reason why
/// the source cannot be listed.
pub open spec fn source_pages(s: SourceView, cache_dir: Seq<char>) -> Result<
    Seq<PageView>,
    Seq<char>,
> {
    match s.listing {
        Ok(names) => Ok(
            natural_sorted(listed_pages(s.kind, s.path, cache_dir, names)).map_values(
                |x: (Seq<char>, PageView)| x.1,
            ),
        ),
        Err(e) => Err(e),
    }
}

/// Whether a page is that of an image at place `i` of a source's list.
pub open spec fn page_at(s: SourceView, cache_dir: Seq<char>, names: Seq<Seq<char>>, i: int, p:
    PageView) -> bool {
    &&& 0 <= i < names.len()
    &&& has_page(s.kind, names[i])
    &&& p == page_place(s.kind, s.path, cache_dir, names[i], i as nat)
}

proof fn listed_pages_hold(
    s: SourceView,
    cache_dir: Seq<char>,
    names: Seq<Seq<char>>,
    n: Seq<char>,
    p: PageView,
)
    ensures
        listed_pages(s.kind, s.path, cache_dir, names).contains((n, p)) <==> exists|i: int|
            #[trigger] page_at(s, cache_dir, names, i, p) && names[i] == n,
    decreases names.len(),
{
    if names.len() > 0 {
        let rest = names.drop_last();
        let before = listed_pages(s.kind, s.path, cache_dir, rest);
        let all = listed_pages(s.kind, s.path, cache_dir, names);
        let last = names.len() - 1;
        listed_pages_hold(s, cache_dir, rest, n, p);
        if all.contains((n, p)) {
            let k = choose|k: int| 0 <= k < all.len() && all[k] == (n, p);
            if k < before.len() {
                assert(before[k] == (n, p));
                let i = choose|i: int| #[trigger] page_at(s, cache_dir, rest, i, p) && rest[i] == n;
                assert(page_at(s, cache_dir, names, i, p));
            } else {
                assert(page_at(s, cache_dir, names, last, p));
            }
        }
        if exists|i: int| #[trigger] page_at(s, cache_dir, names, i, p) && names[i] == n {
            let i = choose|i: int| #[trigger] page_at(s, cache_dir, names, i, p) && names[i] == n;
            if i < last {
                assert(page_at(s, cache_dir, rest, i, p) && rest[i] == n);
                let k = choose|k: int| 0 <= k < before.len() && before[k] == (n, p);
                assert(all[k] == (n, p));
            } else {
                assert(all[before.len() as int] == (n, p));
            }
        }
    } else {
        assert(!exists|i: int| #[trigger] page_at(s, cache_dir, names, i, p));
    }
}

/// The pages of a source are those of the images that it lists: none is lost,
/// and nothing else becomes a page.
pub proof fn pages_are_the_listed_images(
    s: SourceView,
    cache_dir: Seq<char>,
    names: Seq<Seq<char>>,
    p: PageView,
)
    requires
        s.listing == Ok::<Seq<Seq<char>>, Seq<char>>(names),
    ensures
        source_pages(s, cache_dir) matches Ok(pages) && (pages.contains(p) <==> exists|i: int|
            page_at(s, cache_dir, names, i, p)),
{
    let listed = listed_pages(s.kind, s.path, cache_dir, names);
    let sorted = natural_sorted(listed);
    let pages = sorted.map_values(|x: (Seq<char>, PageView)| x.1);
    natural_sorted_same_items(listed);
    broadcast use vstd::seq_lib::group_to_multiset_ensures;

    if pages.contains(p) {
        let k = choose|k: int| 0 <= k < pages.len() && pages[k] == p;
        assert(sorted.contains(sorted[k]));
        assert(listed.to_multiset().count(sorted[k]) > 0);
        listed_pages_hold(s, cache_dir, names, sorted[k].0, p);
    }
    if exists|i: int| page_at(s, cache_dir, names, i, p) {
        let i = choose|i: int| page_at(s, cache_dir, names, i, p);
        listed_pages_hold(s, cache_dir, names, names[i], p);
        assert(sorted.to_multiset().count((names[i], p)) > 0);
        let k = choose|k: int| 0 <= k < sorted.len() && sorted[k] == (names[i], p);
        assert(pages[k] == p);
    }
}

/// How many of these names end in an image's ending.
pub open spec fn image_count(names: Seq<Seq<char>>) -> nat {
    names.filter(|n: Seq<char>| ends_in_one(n, image_endings())).len()
}

/// How many pages are listed.
proof fn listed_pages_count(
    kind: SourceKind,
    path: Seq<char>,
    cache_dir: Seq<char>,
    names: Seq<Seq<char>>,
)
    ensures
        listed_pages(kind, path, cache_dir, names).len() == (if kind == SourceKind::Rar {
            names.len()
        } else {
            image_count(names)
        }),
    decreases names.len(),
{
    reveal(Seq::filter);
    if names.len() > 0 {
        listed_pages_count(kind, path, cache_dir, names.drop_last());
        files_are_known_by_their_endings(names.last());
    }
}

/// A zip archive or a folder has as many pages as there are names in its list
/// that end in an image's ending, whatever folders stand in these names; of an
/// unpacked rar archive every name is a page.
pub proof fn every_listed_image_is_a_page(
    s: SourceView,
    cache_dir: Seq<char>,
    names: Seq<Seq<char>>,
)
    requires
        s.listing == Ok::<Seq<Seq<char>>, Seq<char>>(names),
    ensures
        source_pages(s, cache_dir) matches Ok(pages) && pages.len() == (if s.kind
            == SourceKind::Rar {
            names.len()
        } else {
            image_count(names)
        }),
{
    let listed = listed_pages(s.kind, s.path, cache_dir, names);
    listed_pages_count(s.kind, s.path, cache_dir, names);
    crate::order::natural_sorted_in_order(listed);
}

/// Whether a listed page stands where the name and its place in the list say.
proof fn listed_page_places(
    kind: SourceKind,
    path: Seq<char>,
    cache_dir: Seq<char>,
    names: Seq<Seq<char>>,
    x: (Seq<char>, PageView),
)
    requires
        listed_pages(kind, path, cache_dir, names).contains(x),
    ensures
        names.contains(x.0),
        kind == SourceKind::Zip ==> x.1 == (PageView::Zip { archive: path, entry: x.0 }),
        kind == SourceKind::ImageDir ==> x.1 == PageView::File(joined(path, x.0)),
        kind != SourceKind::Rar ==> ends_in_one(x.0, image_endings()),
{
    let s = SourceView { kind, path, listing: Ok(names) };
    listed_pages_hold(s, cache_dir, names, x.0, x.1);
    let i = choose|i: int| #[trigger] page_at(s, cache_dir, names, i, x.1) && names[i] == x.0;
    assert(names[i] == x.0);
    files_are_known_by_their_endings(x.0);
}

/// The pages of a zip archive stand in the natural order of the entries' names,
/// those of a folder in that of the files' names; each is an image of that name.
pub proof fn pages_come_in_natural_order(
    s: SourceView,
    cache_dir: Seq<char>,
    names: Seq<Seq<char>>,
    i: int,
    j: int,
)
    requires
        s.listing == Ok::<Seq<Seq<char>>, Seq<char>>(names),
        source_pages(s, cache_dir) matches Ok(pages) && 0 <= i <= j < pages.len(),
        s.kind != SourceKind::Rar,
    ensures
        source_pages(s, cache_dir) matches Ok(pages) && exists|a: Seq<char>, b: Seq<char>|
            #![trigger names.contains(a), names.contains(b)]
            {
                &&& names.contains(a) && names.contains(b)
                &&& ends_in_one(a, image_endings()) && ends_in_one(b, image_endings())
                &&& !name_lt(b, a)
                &&& if s.kind == SourceKind::Zip {
                    pages[i] == (PageView::Zip { archive: s.path, entry: a }) && pages[j] == (
                    PageView::Zip { archive: s.path, entry: b })
                } else {
                    pages[i] == PageView::File(joined(s.path, a)) && pages[j] == PageView::File(
                        joined(s.path, b),
                    )
                }
            },
{
    broadcast use vstd::seq_lib::group_to_multiset_ensures;

    let listed = listed_pages(s.kind, s.path, cache_dir, names);
    let sorted = natural_sorted(listed);
    crate::order::natural_sorted_in_order(listed);
    natural_sorted_same_items(listed);
    assert(sorted.contains(sorted[i]) && sorted.contains(sorted[j]));
    assert(listed.to_multiset().count(sorted[i]) > 0);
    assert(listed.to_multiset().count(sorted[j]) > 0);
    listed_page_places(s.kind, s.path, cache_dir, names, sorted[i]);
    listed_page_places(s.kind, s.path, cache_dir, names, sorted[j]);
    assert(names.contains(sorted[i].0) && names.contains(sorted[j].0));
    assert(!name_lt(sorted[j].0, sorted[i].0));
}

/// The items of named items, without the names.
fn items_of<T>(v: Vec<(String, T)>) -> (r: Vec<T>)
    ensures
        r@ == named(v@).map_values(|x: (Seq<char>, T)| x.1),
{
    let ghost all = v@;
    let mut rest = v;
    let mut r: Vec<T> = Vec::new();
    while rest.len() > 0
        invariant
            rest@.len() + r@.len() == all.len(),
            rest@ == all.skip(r@.len() as int),
            r@ == named(all.take(r@.len() as int)).map_values(|x: (Seq<char>, T)| x.1),
        decreases rest@.len(),
    {
        let ghost k = r@.len() as int;
        let x = rest.remove(0);
        assert(x == all[k]);
        r.push(x.1);
        assert(rest@ =~= all.skip(k + 1));
        assert(r@ =~= named(all.take(k + 1)).map_values(|x: (Seq<char>, T)| x.1));
    }
    assert(all.take(all.len() as int) =~= all);
    r
}

/// Where the page is that stands at place `i` of a source's list under this
/// name.
fn place_of(kind: SourceKind, path: &str, unpacked: &str, name: &str, i: usize) -> (r: PageSource)
    ensures
        r@ == (match kind {
            SourceKind::Zip => PageView::Zip { archive: path@, entry: name@ },
            SourceKind::Rar => PageView::File(unpacked_path(unpacked@, i as nat)),
            SourceKind::ImageDir => PageView::File(joined(path@, name@)),
        }),
{
    match kind {
        SourceKind::Zip => PageSource::Zip { archive: text_copy(path), entry: text_copy(name) },
        SourceKind::Rar => PageSource::File(extracted_path(unpacked, i)),
        SourceKind::ImageDir => PageSource::File(join_path(path, name)),
    }
}

/// The pages of a source, in natural order of their names.
fn list_pages(kind: SourceKind, path: &str, cache_dir: &str, names: &Vec<String>) -> (r: Vec<
    PageSource,
>)
    ensures
        page_views(r@) == natural_sorted(
            listed_pages(kind, path@, cache_dir@, texts(names@)),
        ).map_values(|x: (Seq<char>, PageView)| x.1),
{
    let unpacked = rar_cache_dir(cache_dir, path);
    let ghost all = texts(names@);
    let ghost view = |p: PageSource| p@;
    let ghost pair = |x: (Seq<char>, PageSource)| (x.0, view(x.1));
    let mut v: Vec<(String, PageSource)> = Vec::new();
    assert(named(v@).map_values(pair) =~= Seq::empty());
    for i in 0..names.len()
        invariant
            all == texts(names@),
            view == |p: PageSource| p@,
            pair == |x: (Seq<char>, PageSource)| (x.0, view(x.1)),
            unpacked@ == rar_dir(cache_dir@, path@),
            named(v@).map_values(pair) == listed_pages(
                kind,
                path@,
                cache_dir@,
                all.take(i as int),
            ),
    {
        let name = names[i].as_str();
        assert(all.take(i + 1).drop_last() == all.take(i as int));
        assert(all.take(i + 1).last() == name@);
        let keep = match kind {
            SourceKind::Zip => is_page_entry(name),
            SourceKind::Rar => true,
            SourceKind::ImageDir => is_image_name(name),
        };
        if keep {
            let ghost before = v@;
            let page = place_of(kind, path, unpacked.as_str(), name, i);
            v.push((text_copy(name), page));
            assert(named(v@).map_values(pair) =~= named(before).map_values(pair).push(
                (name@, page@),
            ));
        }
    }
    assert(all.take(all.len() as int) == all);
    let ghost found = named(v@);
    let sorted = sort_by_name(v);
    proof {
        natural_sorted_map(found, view);
    }
    let ghost s = named(sorted@);
    let r = items_of(sorted);
    assert(page_views(r@) =~= s.map_values(pair).map_values(|x: (Seq<char>, PageView)| x.1));
    r
}

/// The pages of a source, in natural order of their names; or the reason why
/// the source cannot be listed.
pub fn pages_of_source(s: &Source, cache_dir: &str) -> (r: Result<Vec<PageSource>, String>)
    ensures
        match r {
            Ok(pages) => source_pages(s@, cache_dir@) == Ok::<Seq<PageView>, Seq<char>>(
                page_views(pages@),
            ),
            Err(e) => source_pages(s@, cache_dir@) == Err::<Seq<PageView>, Seq<char>>(e@),
        },
{
    match &s.listing {
        Ok(names) => Ok(list_pages(s.kind, s.path.as_str(), cache_dir, names)),
        Err(e) => Err(e.clone()),
    }
}

// ── Folders ──────────────────────────────────────────────────────────────────

/// A file of a folder; for an archive, with what it lists.
pub struct FileItem {
    pub name: String,
    pub listing: Result<Vec<String>, String>,
}

/// A folder with everything below it, in the order in which the file system
/// lists it. A folder that cannot be read is empty.
pub struct Folder {
    pub path: String,
    pub files: Vec<FileItem>,
    pub subdirs: Vec<Folder>,
}

/// The names of files.
pub open spec fn item_names(files: Seq<FileItem>) -> Seq<Seq<char>> {
    files.map_values(|f: FileItem| f.name@)
}

/// The archives among a folder's files.
pub open spec fn archives_in(dir: Seq<char>, files: Seq<FileItem>) -> Seq<(Seq<char>, SourceView)>
    decreases files.len(),
{
    if files.len() == 0 {
        Seq::empty()
    } else {
        let rest = archives_in(dir, files.drop_last());
        let f = files.last();
        let source = |kind: SourceKind|
            SourceView {
                kind,
                path: joined(dir, f.name@),
                listing: listing_view(f.listing),
            };
        if zip_name(f.name@) {
            rest.push((f.name@, source(SourceKind::Zip)))
        } else if rar_name(f.name@) {
            rest.push((f.name@, source(SourceKind::Rar)))
        } else {
            rest
        }
    }
}

/// Whether one of the files is an image.
pub open spec fn any_image(files: Seq<FileItem>) -> bool {
    exists|i: int| 0 <= i < files.len() && image_name(#[trigger] files[i].name@)
}

/// The folder itself as a source, if it has images of its own.
pub open spec fn images_in(dir: Seq<char>, files: Seq<FileItem>) -> Seq<(Seq<char>, SourceView)> {
    if any_image(files) {
        let name = match name_of(dir) {
            Some(n) => n,
            None => Seq::empty(),
        };
        seq![
            (
                name,
                SourceView { kind: SourceKind::ImageDir, path: dir, listing: Ok(item_names(files)) },
            ),
        ]
    } else {
        Seq::empty()
    }
}

/// The sources in a folder: its archives, then its own images, then what is in
/// the folders below it.
pub open spec fn sources_in(folder: Folder) -> Seq<(Seq<char>, SourceView)>
    decreases folder,
{
    archives_in(folder.path@, folder.files@) + images_in(folder.path@, folder.files@)
        + sources_in_all(folder.subdirs@)
}

/// The sources in several folders, one after the other.
pub open spec fn sources_in_all(folders: Seq<Folder>) -> Seq<(Seq<char>, SourceView)>
    decreases folders,
{
    if folders.len() == 0 {
        Seq::empty()
    } else {
        sources_in_all(folders.drop_last()) + sources_in(folders.last())
    }
}

/// The models of named sources.
pub open spec fn source_views(v: Seq<(String, Source)>) -> Seq<(Seq<char>, SourceView)> {
    named(v).map_values(|x: (Seq<char>, Source)| (x.0, x.1@))
}

/// What a source lists, once more.
fn copy_listing(l: &Result<Vec<String>, String>) -> (r: Result<Vec<String>, String>)
    ensures
        listing_view(r) == listing_view(*l),
{
    match l {
        Ok(names) => Ok(copy_texts(names)),
        Err(e) => Err(e.clone()),
    }
}

/// Whether one of the files is an image.
fn dir_has_direct_images(files: &Vec<FileItem>) -> (r: bool)
    ensures
        r == any_image(files@),
{
    for i in 0..files.len()
        invariant
            forall|j: int| 0 <= j < i ==> !image_name(#[trigger] files@[j].name@),
    {
        if is_image_name(files[i].name.as_str()) {
            return true;
        }
    }
    false
}

/// Adds a folder's archives to the sources.
fn add_archives(folder: &Folder, sources: &mut Vec<(String, Source)>)
    ensures
        source_views(final(sources)@) == source_views(old(sources)@) + archives_in(
            folder.path@,
            folder.files@,
        ),
{
    let ghost before = source_views(sources@);
    for i in 0..folder.files.len()
        invariant
            source_views(sources@) == before + archives_in(
                folder.path@,
                folder.files@.take(i as int),
            ),
    {
        let f = &folder.files[i];
        let ghost t = folder.files@.take(i + 1);
        let ghost was = sources@;
        assert(t.drop_last() == folder.files@.take(i as int));
        assert(t.last() == *f);
        if is_zip_name(f.name.as_str()) || is_rar_name(f.name.as_str()) {
            let kind = if is_zip_name(f.name.as_str()) {
                SourceKind::Zip
            } else {
                SourceKind::Rar
            };
            let source = Source {
                kind,
                path: join_path(folder.path.as_str(), f.name.as_str()),
                listing: copy_listing(&f.listing),
            };
            sources.push((f.name.clone(), source));
            assert(source_views(sources@) =~= source_views(was).push((f.name@, source@)));
        }
        assert(source_views(sources@) =~= before + archives_in(folder.path@, t));
    }
    assert(folder.files@.take(folder.files@.len() as int) == folder.files@);
}

/// Adds a folder's own images to the sources.
fn add_images(folder: &Folder, sources: &mut Vec<(String, Source)>)
    ensures
        source_views(final(sources)@) == source_views(old(sources)@) + images_in(
            folder.path@,
            folder.files@,
        ),
{
    let ghost was = sources@;
    if dir_has_direct_images(&folder.files) {
        let name = match file_name(folder.path.as_str()) {
            Some(n) => n,
            None => String::new(),
        };
        let mut names: Vec<String> = Vec::new();
        for i in 0..folder.files.len()
            invariant
                texts(names@) == item_names(folder.files@.take(i as int)),
        {
            let ghost was = texts(names@);
            names.push(folder.files[i].name.clone());
            assert(texts(names@) =~= was.push(folder.files@[i as int].name@));
            assert(item_names(folder.files@.take(i + 1)) =~= item_names(
                folder.files@.take(i as int),
            ).push(folder.files@[i as int].name@));
        }
        assert(folder.files@.take(folder.files@.len() as int) == folder.files@);
        let source = Source {
            kind: SourceKind::ImageDir,
            path: folder.path.clone(),
            listing: Ok(names),
        };
        sources.push((name, source));
        assert(source_views(sources@) =~= source_views(was).push((name@, source@)));
        assert(source_views(sources@) =~= source_views(was) + images_in(
            folder.path@,
            folder.files@,
        ));
    } else {
        assert(source_views(sources@) =~= source_views(was) + images_in(
            folder.path@,
            folder.files@,
        ));
    }
}

/// Adds the sources in a folder to the sources.
pub fn find_sources(folder: &Folder, sources: &mut Vec<(String, Source)>)
    ensures
        source_views(final(sources)@) == source_views(old(sources)@) + sources_in(*folder),
    decreases folder,
{
    let ghost before = source_views(sources@);
    let ghost own = archives_in(folder.path@, folder.files@) + images_in(
        folder.path@,
        folder.files@,
    );
    add_archives(folder, sources);
    add_images(folder, sources);
    assert(source_views(sources@) =~= before + own);
    for i in 0..folder.subdirs.len()
        invariant
            source_views(sources@) == before + own + sources_in_all(
                folder.subdirs@.take(i as int),
            ),
    {
        let ghost t = folder.subdirs@.take(i + 1);
        assert(t.drop_last() == folder.subdirs@.take(i as int));
        assert(t.last() == folder.subdirs@[i as int]);
        assert(decreases_to!(folder => folder.subdirs@[i as int]));
        find_sources(&folder.subdirs[i], sources);
        assert(source_views(sources@) =~= before + own + sources_in_all(t));
    }
    assert(folder.subdirs@.take(folder.subdirs@.len() as int) == folder.subdirs@);
    assert(source_views(sources@) =~= before + sources_in(*folder));
}

// ── Collecting ───────────────────────────────────────────────────────────────

/// What is at a path: a file (with what it lists, as an archive), a folder, or
/// neither.
pub enum Found {
    File(Result<Vec<String>, String>),
    Dir(Folder),
    Neither,
}

/// The chapters of sources, one after the other, and their pages; or the reason
/// why the first source that cannot be listed cannot.
pub open spec fn collected(sources: Seq<(Seq<char>, SourceView)>, cache_dir: Seq<char>) -> Result<
    (Seq<PageView>, Seq<ChapterView>),
    Seq<char>,
>
    decreases sources.len(),
{
    if sources.len() == 0 {
        Ok((Seq::empty(), Seq::empty()))
    } else {
        match collected(sources.drop_last(), cache_dir) {
            Err(e) => Err(e),
            Ok((pages, chapters)) => match source_pages(sources.last().1, cache_dir) {
                Err(e) => Err(e),
                Ok(more) => Ok(
                    (
                        pages + more,
                        chapters.push(
                            ChapterView {
                                name: stem_of(sources.last().0),
                                start: pages.len(),
                                page_count: more.len(),
                            },
                        ),
                    ),
                ),
            },
        }
    }
}

/// The archive that a file is taken for: a zip archive if its name says so,
/// else a rar archive.
pub open spec fn single_source(
    path: Seq<char>,
    listing: Result<Seq<Seq<char>>, Seq<char>>,
) -> SourceView {
    let kind = if zip_name(file_name_text(path)) {
        SourceKind::Zip
    } else {
        SourceKind::Rar
    };
    SourceView { kind, path, listing }
}

/// The name of the file at a path, or nothing.
pub open spec fn file_name_text(path: Seq<char>) -> Seq<char> {
    match name_of(path) {
        Some(n) => n,
        None => Seq::empty(),
    }
}

/// The pages and the chapters at a path; or why there are none.
pub open spec fn comic_at(path: Seq<char>, found: Found, cache_dir: Seq<char>) -> Result<
    (Seq<PageView>, Seq<ChapterView>),
    Seq<char>,
> {
    match found {
        Found::File(listing) => match source_pages(
            single_source(path, listing_view(listing)),
            cache_dir,
        ) {
            Err(e) => Err(e),
            Ok(pages) => if pages.len() == 0 {
                Err("no image pages found in "@ + path)
            } else {
                Ok(
                    (
                        pages,
                        seq![
                            ChapterView {
                                name: without_extension(file_name_text(path)),
                                start: 0,
                                page_count: pages.len(),
                            },
                        ],
                    ),
                )
            },
        },
        Found::Dir(folder) => if sources_in(folder).len() == 0 {
            Err("no comic chapters or images found under "@ + path)
        } else {
            collected(natural_sorted(sources_in(folder)), cache_dir)
        },
        Found::Neither => Err(path + " is neither a file nor a directory"@),
    }
}

/// Whether chapters divide a list of pages among themselves: they stand one
/// after the other, without gaps, from the first page to the last.
pub open spec fn divide(chapters: Seq<ChapterView>, total: nat) -> bool {
    &&& chapters.len() > 0
    &&& chapters[0].start == 0
    &&& chapters.last().start + chapters.last().page_count == total
    &&& forall|i: int|
        1 <= i < chapters.len() ==> (#[trigger] chapters[i]).start == chapters[i - 1].start
            + chapters[i - 1].page_count
}

/// The chapters of sources divide the pages among themselves, and there is one
/// for each source.
proof fn collected_divides(sources: Seq<(Seq<char>, SourceView)>, cache_dir: Seq<char>)
    ensures
        collected(sources, cache_dir) matches Ok((pages, chapters)) ==> chapters.len()
            == sources.len() && (if sources.len() == 0 {
            pages.len() == 0
        } else {
            divide(chapters, pages.len())
        }),
    decreases sources.len(),
{
    if sources.len() > 0 {
        collected_divides(sources.drop_last(), cache_dir);
    }
}

/// The chapters of a comic divide its pages among themselves: they stand one
/// after the other, without gaps, from the first page to the last.
pub proof fn chapters_divide_pages(path: Seq<char>, found: Found, cache_dir: Seq<char>)
    ensures
        comic_at(path, found, cache_dir) matches Ok((pages, chapters)) ==> divide(
            chapters,
            pages.len(),
        ),
{
    if let Found::Dir(folder) = found {
        let s = sources_in(folder);
        crate::order::natural_sorted_in_order(s);
        collected_divides(natural_sorted(s), cache_dir);
    }
}

/// A file whose name ends in a zip archive's ending is one chapter, named by the
/// file without its extension, with as many pages as it lists images; one that
/// lists none cannot be opened, and neither can one that cannot be listed.
pub proof fn a_zip_archive_is_one_chapter(
    path: Seq<char>,
    listing: Result<Vec<String>, String>,
    cache_dir: Seq<char>,
)
    requires
        ends_in_one(file_name_text(path), seq![".cbz"@, ".zip"@]),
    ensures
        match listing {
            Err(e) => comic_at(path, Found::File(listing), cache_dir) == Err::<
                (Seq<PageView>, Seq<ChapterView>),
                Seq<char>,
            >(e@),
            Ok(names) => if image_count(texts(names@)) == 0 {
                comic_at(path, Found::File(listing), cache_dir) is Err
            } else {
                comic_at(path, Found::File(listing), cache_dir) matches Ok((pages, chapters))
                    && pages.len() == image_count(texts(names@)) && chapters.len() == 1
                    && chapters[0].start == 0 && chapters[0].page_count == pages.len()
                    && chapters[0].name == without_extension(file_name_text(path))
                    && forall|k: int|
                    0 <= k < pages.len() ==> (#[trigger] pages[k]) is Zip && pages[k]->archive == path
            },
        },
{
    files_are_known_by_their_endings(file_name_text(path));
    if let Ok(names) = listing {
        let s = single_source(path, listing_view(listing));
        every_listed_image_is_a_page(s, cache_dir, texts(names@));
        let pages = source_pages(s, cache_dir)->Ok_0;
        assert forall|k: int| 0 <= k < pages.len() implies (#[trigger] pages[k]) is Zip
            && pages[k]->archive == path by {
            pages_come_in_natural_order(s, cache_dir, texts(names@), k, k);
        }
    }
}

/// The archives of a folder are sources, each under its own name, by the endings
/// of their names; so is the folder itself, if it has an image; and so is
/// everything in the folders below it. Nothing else is.
pub proof fn every_archive_below_is_a_source(folder: Folder, i: int)
    ensures
        0 <= i < folder.files@.len() && ends_in_one(
            folder.files@[i].name@,
            seq![".cbz"@, ".zip"@],
        ) ==> sources_in(folder).contains(
            (
                folder.files@[i].name@,
                SourceView {
                    kind: SourceKind::Zip,
                    path: joined(folder.path@, folder.files@[i].name@),
                    listing: listing_view(folder.files@[i].listing),
                },
            ),
        ),
        0 <= i < folder.files@.len() && ends_in_one(
            folder.files@[i].name@,
            seq![".cbr"@, ".rar"@],
        ) ==> sources_in(folder).contains(
            (
                folder.files@[i].name@,
                SourceView {
                    kind: SourceKind::Rar,
                    path: joined(folder.path@, folder.files@[i].name@),
                    listing: listing_view(folder.files@[i].listing),
                },
            ),
        ),
        0 <= i < folder.files@.len() && ends_in_one(folder.files@[i].name@, image_endings())
            ==> sources_in(folder).contains(
            (
                file_name_text(folder.path@),
                SourceView {
                    kind: SourceKind::ImageDir,
                    path: folder.path@,
                    listing: Ok(item_names(folder.files@)),
                },
            ),
        ),
        0 <= i < folder.subdirs@.len() ==> forall|x: (Seq<char>, SourceView)|
            sources_in(folder.subdirs@[i]).contains(x) ==> #[trigger] sources_in(folder).contains(x),
        sources_in(folder).len() == archive_count(item_names(folder.files@)) + (if image_count(
            item_names(folder.files@),
        ) > 0 {
            1nat
        } else {
            0nat
        }) + sources_in_all(folder.subdirs@).len(),
{
    let files = folder.files@;
    let own = archives_in(folder.path@, files);
    let images = images_in(folder.path@, files);
    let below = sources_in_all(folder.subdirs@);
    let all = sources_in(folder);
    assert(all == own + images + below);
    if 0 <= i < files.len() {
        archives_hold(folder.path@, files, i);
        files_are_known_by_their_endings(files[i].name@);
        if zip_name(files[i].name@) || rar_name(files[i].name@) {
            let k = choose|k: int|
                0 <= k < own.len() && #[trigger] own[k] == archive_source(folder.path@, files[i]);
            assert(all[k] == own[k]);
        }
        if image_name(files[i].name@) {
            assert(any_image(files));
            assert(all[own.len() as int] == images[0]);
        }
    }
    if 0 <= i < folder.subdirs@.len() {
        assert forall|x: (Seq<char>, SourceView)|
            sources_in(folder.subdirs@[i]).contains(x) implies #[trigger] all.contains(x) by {
            sources_below(folder.subdirs@, i, x);
            let k = choose|k: int| 0 <= k < below.len() && below[k] == x;
            assert(all[own.len() + images.len() + k] == x);
        }
    }
    archives_counted(folder.path@, files);
    images_counted(files);
}

/// How many of these names end in an archive's ending.
pub open spec fn archive_count(names: Seq<Seq<char>>) -> nat {
    names.filter(|n: Seq<char>| ends_in_one(n, seq![".cbz"@, ".zip"@, ".cbr"@, ".rar"@])).len()
}

/// The source that a file of a folder is, if its name is that of an archive.
spec fn archive_source(dir: Seq<char>, f: FileItem) -> (Seq<char>, SourceView) {
    (
        f.name@,
        SourceView {
            kind: if zip_name(f.name@) {
                SourceKind::Zip
            } else {
                SourceKind::Rar
            },
            path: joined(dir, f.name@),
            listing: listing_view(f.listing),
        },
    )
}

/// The archives of a folder are among its sources.
proof fn archives_hold(dir: Seq<char>, files: Seq<FileItem>, i: int)
    requires
        0 <= i < files.len(),
    ensures
        zip_name(files[i].name@) || rar_name(files[i].name@) ==> exists|k: int|
            0 <= k < archives_in(dir, files).len() && #[trigger] archives_in(dir, files)[k]
                == archive_source(dir, files[i]),
    decreases files.len(),
{
    let all = archives_in(dir, files);
    let rest = archives_in(dir, files.drop_last());
    if zip_name(files[i].name@) || rar_name(files[i].name@) {
        if i < files.len() - 1 {
            archives_hold(dir, files.drop_last(), i);
            let k = choose|k: int|
                0 <= k < rest.len() && #[trigger] rest[k] == archive_source(dir, files[i]);
            assert(all[k] == archive_source(dir, files[i]));
        } else {
            assert(all[rest.len() as int] == archive_source(dir, files[i]));
        }
    }
}

/// How many archives a folder has.
proof fn archives_counted(dir: Seq<char>, files: Seq<FileItem>)
    ensures
        archives_in(dir, files).len() == archive_count(item_names(files)),
    decreases files.len(),
{
    reveal(Seq::filter);
    let names = item_names(files);
    if files.len() > 0 {
        archives_counted(dir, files.drop_last());
        assert(names.drop_last() =~= item_names(files.drop_last()));
        let n = files.last().name@;
        files_are_known_by_their_endings(n);
        let zips = seq![".cbz"@, ".zip"@];
        let rars = seq![".cbr"@, ".rar"@];
        let both = seq![".cbz"@, ".zip"@, ".cbr"@, ".rar"@];
        assert(zips[0] == both[0] && zips[1] == both[1]);
        assert(rars[0] == both[2] && rars[1] == both[3]);
        assert(ends_in_one(n, both) <==> ends_in_one(n, zips) || ends_in_one(n, rars));
    }
}

/// Whether a folder has images.
proof fn images_counted(files: Seq<FileItem>)
    ensures
        any_image(files) <==> image_count(item_names(files)) > 0,
    decreases files.len(),
{
    reveal(Seq::filter);
    let names = item_names(files);
    if files.len() > 0 {
        let rest = files.drop_last();
        images_counted(rest);
        assert(names.drop_last() =~= item_names(rest));
        files_are_known_by_their_endings(files.last().name@);
        if any_image(rest) {
            let k = choose|k: int| 0 <= k < rest.len() && image_name(#[trigger] rest[k].name@);
            assert(image_name(files[k].name@));
        }
        if any_image(files) {
            let k = choose|k: int| 0 <= k < files.len() && image_name(#[trigger] files[k].name@);
            if k < rest.len() {
                assert(image_name(rest[k].name@));
            }
        }
        if image_name(files.last().name@) {
            assert(image_name(files[files.len() - 1].name@));
        }
    }
}

/// The sources of one of several folders are among the sources of all.
proof fn sources_below(folders: Seq<Folder>, i: int, x: (Seq<char>, SourceView))
    requires
        0 <= i < folders.len(),
        sources_in(folders[i]).contains(x),
    ensures
        sources_in_all(folders).contains(x),
    decreases folders.len(),
{
    let rest = sources_in_all(folders.drop_last());
    let last = sources_in(folders.last());
    let all = sources_in_all(folders);
    assert(all == rest + last);
    if i < folders.len() - 1 {
        sources_below(folders.drop_last(), i, x);
        let k = choose|k: int| 0 <= k < rest.len() && rest[k] == x;
        assert(all[k] == x);
    } else {
        let k = choose|k: int| 0 <= k < last.len() && last[k] == x;
        assert(all[rest.len() + k] == x);
    }
}

/// The chapters of a folder come in the natural order of the sources' names, each
/// named after its source without the extension and with that source's pages.
pub proof fn a_chapter_for_each_source(
    sources: Seq<(Seq<char>, SourceView)>,
    cache_dir: Seq<char>,
    i: int,
)
    requires
        0 <= i < sources.len(),
        collected(sources, cache_dir) is Ok,
    ensures
        collected(sources, cache_dir) matches Ok((pages, chapters)) && chapters.len()
            == sources.len() && chapters[i].name == stem_of(sources[i].0) && chapters[i].start
            + chapters[i].page_count <= pages.len() && source_pages(sources[i].1, cache_dir) == Ok::<
            Seq<PageView>,
            Seq<char>,
        >(
            pages.subrange(
                chapters[i].start as int,
                (chapters[i].start + chapters[i].page_count) as int,
            ),
        ),
    decreases sources.len(),
{
    let rest = sources.drop_last();
    let (pages, chapters) = collected(sources, cache_dir)->Ok_0;
    let (before, had) = collected(rest, cache_dir)->Ok_0;
    let more = source_pages(sources.last().1, cache_dir)->Ok_0;
    collected_divides(sources, cache_dir);
    if i < rest.len() {
        a_chapter_for_each_source(rest, cache_dir, i);
        assert(rest[i] == sources[i]);
        assert(chapters[i] == had[i]);
        let (from, to) = (had[i].start as int, (had[i].start + had[i].page_count) as int);
        assert(pages.subrange(from, to) =~= before.subrange(from, to));
    } else {
        assert(pages.subrange(before.len() as int, (before.len() + more.len()) as int) =~= more);
    }
}

/// Strips the extension from the name of a chapter's file.
pub fn display_name(raw: &str) -> (r: String)
    ensures
        r@ == stem_of(raw@),
{
    stem_or_all(raw)
}

/// Adds page sources to page sources.
fn extend_pages(pages: &mut Vec<PageSource>, more: Vec<PageSource>)
    ensures
        final(pages)@ == old(pages)@ + more@,
{
    let mut more = more;
    pages.append(&mut more);
}

/// The chapters of sources, one after the other, and their pages.
fn collect_chapters(sources: Vec<(String, Source)>, cache_dir: &str) -> (r: Result<
    (Vec<PageSource>, Vec<ChapterInfo>),
    String,
>)
    ensures
        match r {
            Ok((pages, chapters)) => collected(source_views(sources@), cache_dir@) == Ok::<
                (Seq<PageView>, Seq<ChapterView>),
                Seq<char>,
            >((page_views(pages@), chapter_views(chapters@))),
            Err(e) => collected(source_views(sources@), cache_dir@) == Err::<
                (Seq<PageView>, Seq<ChapterView>),
                Seq<char>,
            >(e@),
        },
{
    let ghost all = source_views(sources@);
    let mut pages: Vec<PageSource> = Vec::new();
    let mut chapters: Vec<ChapterInfo> = Vec::new();
    assert(page_views(pages@) =~= Seq::empty());
    assert(chapter_views(chapters@) =~= Seq::empty());
    for i in 0..sources.len()
        invariant
            all == source_views(sources@),
            collected(all.take(i as int), cache_dir@) == Ok::<
                (Seq<PageView>, Seq<ChapterView>),
                Seq<char>,
            >((page_views(pages@), chapter_views(chapters@))),
    {
        let ghost t = all.take(i + 1);
        assert(t.drop_last() == all.take(i as int));
        assert(t.last() == (sources@[i as int].0@, sources@[i as int].1@));
        let start: usize = pages.len();
        match pages_of_source(&sources[i].1, cache_dir) {
            Err(e) => {
                proof {
                    failure_stays(all, cache_dir@, i + 1, e@);
                }
                return Err(e);
            },
            Ok(more) => {
                let page_count: usize = more.len();
                let ghost was = pages@;
                let ghost chapters_were = chapters@;
                let ghost added = more@;
                extend_pages(&mut pages, more);
                assert(page_views(pages@) =~= page_views(was) + page_views(added));
                let chapter = ChapterInfo {
                    name: display_name(sources[i].0.as_str()),
                    start,
                    page_count,
                };
                chapters.push(chapter);
                assert(chapter_views(chapters@) =~= chapter_views(chapters_were).push(chapter@));
            },
        }
    }
    assert(all.take(all.len() as int) == all);
    Ok((pages, chapters))
}

/// Once a source cannot be listed, what follows it does not matter.
proof fn failure_stays(
    sources: Seq<(Seq<char>, SourceView)>,
    cache_dir: Seq<char>,
    k: int,
    e: Seq<char>,
)
    requires
        0 <= k <= sources.len(),
        collected(sources.take(k), cache_dir) == Err::<(Seq<PageView>, Seq<ChapterView>), Seq<char>>(
            e,
        ),
    ensures
        collected(sources, cache_dir) == Err::<(Seq<PageView>, Seq<ChapterView>), Seq<char>>(e),
    decreases sources.len() - k,
{
    if k < sources.len() {
        assert(sources.take(k + 1).drop_last() == sources.take(k));
        failure_stays(sources, cache_dir, k + 1, e);
    } else {
        assert(sources.take(k) == sources);
    }
}

/// The sources in a folder, in natural order of their names.
fn sorted_sources(folder: &Folder) -> (r: Vec<(String, Source)>)
    ensures
        source_views(r@) == natural_sorted(sources_in(*folder)),
{
    let mut sources: Vec<(String, Source)> = Vec::new();
    assert(source_views(sources@) =~= Seq::empty());
    find_sources(folder, &mut sources);
    assert(source_views(sources@) =~= sources_in(*folder));
    proof {
        natural_sorted_map(named(sources@), |s: Source| s@);
        let f = |s: Source| s@;
        assert(source_views(sources@) =~= named(sources@).map_values(
            |x: (Seq<char>, Source)| (x.0, f(x.1)),
        ));
    }
    let ghost before = sources@;
    let r = sort_by_name(sources);
    proof {
        let f = |s: Source| s@;
        assert(source_views(r@) =~= named(r@).map_values(
            |x: (Seq<char>, Source)| (x.0, f(x.1)),
        ));
    }
    r
}

/// Lists the pages and the chapters at a path without decoding any page.
pub fn collect_sources(path: &str, found: &Found, cache_dir: &str) -> (r: Result<
    (Vec<PageSource>, Vec<ChapterInfo>),
    String,
>)
    ensures
        match r {
            Ok((pages, chapters)) => comic_at(path@, *found, cache_dir@) == Ok::<
                (Seq<PageView>, Seq<ChapterView>),
                Seq<char>,
            >((page_views(pages@), chapter_views(chapters@))),
            Err(e) => comic_at(path@, *found, cache_dir@) == Err::<
                (Seq<PageView>, Seq<ChapterView>),
                Seq<char>,
            >(e@),
        },
{
    match found {
        Found::File(listing) => {
            let name = match file_name(path) {
                Some(n) => n,
                None => String::new(),
            };
            assert(name@ =~= file_name_text(path@));
            let kind = if is_zip_name(name.as_str()) {
                SourceKind::Zip
            } else {
                SourceKind::Rar
            };
            let source = Source { kind, path: text_copy(path), listing: copy_listing(listing) };
            assert(source@ == single_source(path@, listing_view(*listing)));
            match pages_of_source(&source, cache_dir) {
                Err(e) => Err(e),
                Ok(pages) => {
                    assert(page_views(pages@).len() == pages@.len());
                    if pages.len() == 0 {
                        let mut e = "no image pages found in ".to_owned();
                        e.append(path);
                        Err(e)
                    } else {
                        let ch_name = match file_stem(path) {
                            Some(s) => s,
                            None => name,
                        };
                        assert(ch_name@ =~= without_extension(file_name_text(path@)));
                        let page_count: usize = pages.len();
                        let mut chapters: Vec<ChapterInfo> = Vec::new();
                        let chapter = ChapterInfo { name: ch_name, start: 0, page_count };
                        chapters.push(chapter);
                        assert(chapter_views(chapters@) =~= seq![chapter@]);
                        Ok((pages, chapters))
                    }
                },
            }
        },
        Found::Neither => {
            let mut e = text_copy(path);
            e.append(" is neither a file nor a directory");
            Err(e)
        },
        Found::Dir(folder) => {
            let sources = sorted_sources(folder);
            proof {
                crate::order::natural_sorted_in_order(sources_in(*folder));
                assert(source_views(sources@).len() == sources@.len());
            }
            if sources.len() == 0 {
                let mut e = "no comic chapters or images found under ".to_owned();
                e.append(path);
                Err(e)
            } else {
                collect_chapters(sources, cache_dir)
            }
        },
    }
}

// ── Rar archives ─────────────────────────────────────────────────────────────
//
// A rar archive has no directory: to read one entry is to stream through all
// that stand ahead of it. So every image is unpacked in a single pass and kept
// in the cache, under the size and the time of the archive; opening the same
// archive again is then a matter of reading a directory.

/// What is kept about an unpacked archive: the size and the time of the archive
/// when it was unpacked, and the names of its images in the order in which they
/// were unpacked.
#[derive(Clone, Debug)]
pub struct RarManifest {
    pub size: u64,
    pub mtime: i64,
    pub names: Vec<String>,
}

/// The model of what is known of an unpacked archive.
pub struct ManifestView {
    pub size: u64,
    pub mtime: i64,
    pub names: Seq<Seq<char>>,
}

impl View for RarManifest {
    type V = ManifestView;

    open spec fn view(&self) -> ManifestView {
        ManifestView { size: self.size, mtime: self.mtime, names: texts(self.names@) }
    }
}

/// Whether the first `n` of these are all true.
pub open spec fn all_present(present: Seq<bool>, n: nat) -> bool {
    n <= present.len() && forall|i: int| 0 <= i < n ==> present[i]
}

/// The names of the unpacked images, if what is in the cache can be used again:
/// the archive has not changed since, and each of the images is still there.
pub open spec fn reused(
    manifest: Option<ManifestView>,
    size: u64,
    mtime: i64,
    present: Seq<bool>,
) -> Option<Seq<Seq<char>>> {
    match manifest {
        Some(m) => if m.size == size && m.mtime == mtime && all_present(present, m.names.len()) {
            Some(m.names)
        } else {
            None
        },
        None => None,
    }
}

/// The names of the unpacked images, if what is in the cache can be used again:
/// the archive has not changed since, and each of the images is still there.
pub fn reusable_names(manifest: RarManifest, size: u64, mtime: i64, present: &Vec<bool>) -> (r:
    Option<Vec<String>>)
    ensures
        r == (if manifest.size == size && manifest.mtime == mtime && all_present(
            present@,
            manifest.names@.len(),
        ) {
            Some(manifest.names)
        } else {
            None
        }),
        (match r {
            Some(names) => Some(texts(names@)),
            None => None,
        }) == reused(Some(manifest@), size, mtime, present@),
{
    if manifest.size != size || manifest.mtime != mtime || present.len() < manifest.names.len() {
        return None;
    }
    for i in 0..manifest.names.len()
        invariant
            manifest.names@.len() <= present@.len(),
            forall|j: int| 0 <= j < i ==> present@[j],
    {
        if !present[i] {
            return None;
        }
    }
    Some(manifest.names)
}

/// What comes out of an archive as it is streamed: the start of an entry with
/// its name, a piece of the entry's data, the entry's end, or an error.
pub enum ArchiveEvent {
    Start(String),
    Data(Vec<u8>),
    End,
    Failed(String),
}

/// The model of an event.
pub enum EventView {
    Start(Seq<char>),
    Data(Seq<u8>),
    End,
    Failed(Seq<char>),
}

impl View for ArchiveEvent {
    type V = EventView;

    open spec fn view(&self) -> EventView {
        match self {
            ArchiveEvent::Start(name) => EventView::Start(name@),
            ArchiveEvent::Data(chunk) => EventView::Data(chunk@),
            ArchiveEvent::End => EventView::End,
            ArchiveEvent::Failed(e) => EventView::Failed(e@),
        }
    }
}

/// What is to be done upon an event: nothing, write the image with the given
/// number, write the comic's own description, or give up.
pub enum ExtractAction {
    Proceed,
    WritePage { index: usize, data: Vec<u8> },
    WriteComicInfo(Vec<u8>),
    Fail(String),
}

/// The model of an action.
pub enum ActionView {
    Proceed,
    WritePage { index: nat, data: Seq<u8> },
    WriteComicInfo(Seq<u8>),
    Fail(Seq<char>),
}

impl View for ExtractAction {
    type V = ActionView;

    open spec fn view(&self) -> ActionView {
        match self {
            ExtractAction::Proceed => ActionView::Proceed,
            ExtractAction::WritePage { index, data } => ActionView::WritePage {
                index: *index as nat,
                data: data@,
            },
            ExtractAction::WriteComicInfo(data) => ActionView::WriteComicInfo(data@),
            ExtractAction::Fail(e) => ActionView::Fail(e@),
        }
    }
}

/// An archive that is being unpacked: the names of the images so far, and the
/// entry that is being read.
pub struct Extraction {
    pub names: Vec<String>,
    pub current_name: String,
    pub current_data: Vec<u8>,
    pub wanted: bool,
    pub is_comic_info: bool,
}

/// The model of an archive that is being unpacked.
pub struct ExtractionView {
    pub names: Seq<Seq<char>>,
    pub current_name: Seq<char>,
    pub current_data: Seq<u8>,
    pub wanted: bool,
    pub is_comic_info: bool,
}

impl View for Extraction {
    type V = ExtractionView;

    open spec fn view(&self) -> ExtractionView {
        ExtractionView {
            names: texts(self.names@),
            current_name: self.current_name@,
            current_data: self.current_data@,
            wanted: self.wanted,
            is_comic_info: self.is_comic_info,
        }
    }
}

/// An archive of which nothing was read yet.
pub open spec fn nothing_read() -> ExtractionView {
    ExtractionView {
        names: Seq::empty(),
        current_name: Seq::empty(),
        current_data: Seq::empty(),
        wanted: false,
        is_comic_info: false,
    }
}

/// What an event does to an archive that is being unpacked, and what is to be
/// done upon it.
pub open spec fn extraction_step(s: ExtractionView, e: EventView) -> (ExtractionView, ActionView) {
    match e {
        EventView::Start(name) => (
            ExtractionView {
                current_name: name,
                current_data: Seq::empty(),
                wanted: page_entry(name),
                is_comic_info: comic_info_name(name),
                ..s
            },
            ActionView::Proceed,
        ),
        EventView::Data(chunk) => (
            if s.wanted || s.is_comic_info {
                ExtractionView { current_data: s.current_data + chunk, ..s }
            } else {
                s
            },
            ActionView::Proceed,
        ),
        EventView::End => if s.wanted {
            (
                ExtractionView { names: s.names.push(s.current_name), ..s },
                ActionView::WritePage { index: s.names.len(), data: s.current_data },
            )
        } else if s.is_comic_info {
            (s, ActionView::WriteComicInfo(s.current_data))
        } else {
            (s, ActionView::Proceed)
        },
        EventView::Failed(reason) => (s, ActionView::Fail("archive error: "@ + reason)),
    }
}

/// A copy of bytes.
pub(crate) fn copy_bytes(v: &Vec<u8>) -> (r: Vec<u8>)
    ensures
        r@ == v@,
{
    let mut r: Vec<u8> = Vec::new();
    for i in 0..v.len()
        invariant
            r@ == v@.take(i as int),
    {
        r.push(v[i]);
        assert(r@ =~= v@.take(i + 1));
    }
    assert(v@.take(v@.len() as int) == v@);
    r
}

impl Extraction {
    /// An archive of which nothing was read yet.
    pub fn new() -> (r: Self)
        ensures
            r@ == nothing_read(),
    {
        let r = Extraction {
            names: Vec::new(),
            current_name: String::new(),
            current_data: Vec::new(),
            wanted: false,
            is_comic_info: false,
        };
        assert(r@.names =~= Seq::empty());
        assert(r@.current_name =~= Seq::empty());
        r
    }

    /// Takes the next event of the archive, and says what is to be done upon it.
    pub fn step(&mut self, event: ArchiveEvent) -> (r: ExtractAction)
        ensures
            (final(self)@, r@) == extraction_step(old(self)@, event@),
    {
        match event {
            ArchiveEvent::Start(name) => {
                self.wanted = is_page_entry(name.as_str());
                self.is_comic_info = is_comic_info_name(name.as_str());
                self.current_name = name;
                self.current_data = Vec::new();
                ExtractAction::Proceed
            },
            ArchiveEvent::Data(chunk) => {
                if self.wanted || self.is_comic_info {
                    let mut chunk = chunk;
                    self.current_data.append(&mut chunk);
                }
                ExtractAction::Proceed
            },
            ArchiveEvent::End => {
                if self.wanted {
                    let index: usize = self.names.len();
                    let data = copy_bytes(&self.current_data);
                    let ghost was = texts(self.names@);
                    self.names.push(self.current_name.clone());
                    assert(texts(self.names@) =~= was.push(self.current_name@));
                    ExtractAction::WritePage { index, data }
                } else if self.is_comic_info {
                    ExtractAction::WriteComicInfo(copy_bytes(&self.current_data))
                } else {
                    ExtractAction::Proceed
                }
            },
            ArchiveEvent::Failed(e) => {
                let mut reason = "archive error: ".to_owned();
                reason.append(e.as_str());
                ExtractAction::Fail(reason)
            },
        }
    }

    /// What is kept of the archive for the next time, once it was read to its end.
    pub fn finish(self, size: u64, mtime: i64) -> (r: RarManifest)
        ensures
            r@ == (ManifestView { size, mtime, names: self@.names }),
    {
        RarManifest { size, mtime, names: self.names }
    }
}

/// What events do to an archive that is being unpacked, one after the other, and
/// everything that is to be done upon them.
pub open spec fn extraction_run(s: ExtractionView, events: Seq<EventView>) -> (
    ExtractionView,
    Seq<ActionView>,
)
    decreases events.len(),
{
    if events.len() == 0 {
        (s, Seq::empty())
    } else {
        let (t, done) = extraction_run(s, events.drop_last());
        let (u, action) = extraction_step(t, events.last());
        (
            u,
            if action is Proceed {
                done
            } else {
                done.push(action)
            },
        )
    }
}

/// The data of an entry that comes in pieces.
pub open spec fn all_data(chunks: Seq<Seq<u8>>) -> Seq<u8>
    decreases chunks.len(),
{
    if chunks.len() == 0 {
        Seq::empty()
    } else {
        all_data(chunks.drop_last()) + chunks.last()
    }
}

/// The events of an entry with the given name and pieces of data.
pub open spec fn entry_events(name: Seq<char>, chunks: Seq<Seq<u8>>) -> Seq<EventView> {
    seq![EventView::Start(name)] + chunks.map_values(|c: Seq<u8>| EventView::Data(c))
        + seq![EventView::End]
}

/// The events of an archive with the given entries.
pub open spec fn archive_events(entries: Seq<(Seq<char>, Seq<Seq<u8>>)>) -> Seq<EventView>
    decreases entries.len(),
{
    if entries.len() == 0 {
        Seq::empty()
    } else {
        archive_events(entries.drop_last()) + entry_events(entries.last().0, entries.last().1)
    }
}

/// The names of the images among an archive's entries.
pub open spec fn page_names(entries: Seq<(Seq<char>, Seq<Seq<u8>>)>) -> Seq<Seq<char>>
    decreases entries.len(),
{
    if entries.len() == 0 {
        Seq::empty()
    } else if page_entry(entries.last().0) {
        page_names(entries.drop_last()).push(entries.last().0)
    } else {
        page_names(entries.drop_last())
    }
}

/// What is written when an archive with the given entries is unpacked: each
/// image, with all of its data, under its number among the images; and the
/// comic's own description.
pub open spec fn unpacked_entries(entries: Seq<(Seq<char>, Seq<Seq<u8>>)>) -> Seq<ActionView>
    decreases entries.len(),
{
    if entries.len() == 0 {
        Seq::empty()
    } else {
        let rest = unpacked_entries(entries.drop_last());
        let (name, chunks) = entries.last();
        if page_entry(name) {
            rest.push(
                ActionView::WritePage {
                    index: page_names(entries.drop_last()).len(),
                    data: all_data(chunks),
                },
            )
        } else if comic_info_name(name) {
            rest.push(ActionView::WriteComicInfo(all_data(chunks)))
        } else {
            rest
        }
    }
}

/// Events after events.
proof fn extraction_run_on(s: ExtractionView, a: Seq<EventView>, b: Seq<EventView>)
    ensures
        ({
            let (t, done) = extraction_run(s, a);
            let (u, more) = extraction_run(t, b);
            extraction_run(s, a + b) == (u, done + more)
        }),
    decreases b.len(),
{
    let (t, done) = extraction_run(s, a);
    let (u, more) = extraction_run(t, b);
    if b.len() == 0 {
        assert(a + b =~= a);
        assert(done + more =~= done);
    } else {
        extraction_run_on(s, a, b.drop_last());
        assert((a + b).drop_last() =~= a + b.drop_last());
        let (v, less) = extraction_run(t, b.drop_last());
        let action = extraction_step(v, b.last()).1;
        assert((done + less).push(action) =~= done + less.push(action));
    }
}

/// The data of an entry, piece by piece.
proof fn extraction_run_data(s: ExtractionView, chunks: Seq<Seq<u8>>)
    ensures
        extraction_run(s, chunks.map_values(|c: Seq<u8>| EventView::Data(c))) == (
            if s.wanted || s.is_comic_info {
                ExtractionView { current_data: s.current_data + all_data(chunks), ..s }
            } else {
                s
            },
            Seq::<ActionView>::empty(),
        ),
    decreases chunks.len(),
{
    let f = |c: Seq<u8>| EventView::Data(c);
    if chunks.len() == 0 {
        assert(s.current_data + all_data(chunks) =~= s.current_data);
    } else {
        extraction_run_data(s, chunks.drop_last());
        assert(chunks.map_values(f).drop_last() =~= chunks.drop_last().map_values(f));
        assert(s.current_data + all_data(chunks) =~= s.current_data + all_data(chunks.drop_last())
            + chunks.last());
    }
}

/// One entry.
proof fn extraction_run_entry(s: ExtractionView, name: Seq<char>, chunks: Seq<Seq<u8>>)
    ensures
        ({
            let (u, done) = extraction_run(s, entry_events(name, chunks));
            &&& u.names == (if page_entry(name) {
                s.names.push(name)
            } else {
                s.names
            })
            &&& done == (if page_entry(name) {
                seq![ActionView::WritePage { index: s.names.len(), data: all_data(chunks) }]
            } else if comic_info_name(name) {
                seq![ActionView::WriteComicInfo(all_data(chunks))]
            } else {
                Seq::empty()
            })
        }),
{
    let start = seq![EventView::Start(name)];
    let data = chunks.map_values(|c: Seq<u8>| EventView::Data(c));
    let end = seq![EventView::End];
    let t = extraction_step(s, EventView::Start(name)).0;
    reveal_with_fuel(extraction_run, 2);
    assert(start.drop_last() =~= Seq::empty());
    assert(extraction_run(s, start) == (t, Seq::<ActionView>::empty()));
    extraction_run_on(s, start, data);
    extraction_run_data(t, chunks);
    assert(t.current_data + all_data(chunks) =~= all_data(chunks));
    let (v, none) = extraction_run(s, start + data);
    assert(none =~= Seq::empty());
    extraction_run_on(s, start + data, end);
    assert(end.drop_last() =~= Seq::empty());
    let (u, done) = extraction_run(v, end);
    assert(extraction_run(s, entry_events(name, chunks)).1 =~= done);
}

/// Unpacking an archive writes each of its images once, with all of its data,
/// under its number among the images, and keeps the images' names in that
/// order. Nothing of the other entries is written but the comic's own
/// description.
pub proof fn extraction_writes_pages(entries: Seq<(Seq<char>, Seq<Seq<u8>>)>)
    ensures
        ({
            let (s, done) = extraction_run(nothing_read(), archive_events(entries));
            s.names == page_names(entries) && done == unpacked_entries(entries)
        }),
    decreases entries.len(),
{
    if entries.len() > 0 {
        let rest = entries.drop_last();
        let (name, chunks) = entries.last();
        extraction_writes_pages(rest);
        let (s, done) = extraction_run(nothing_read(), archive_events(rest));
        extraction_run_on(nothing_read(), archive_events(rest), entry_events(name, chunks));
        extraction_run_entry(s, name, chunks);
        assert(extraction_run(nothing_read(), archive_events(entries)).1 =~= unpacked_entries(
            entries,
        ));
    }
}

/// The data of an entry is all of its pieces, one after the other.
pub proof fn all_pieces_are_kept(chunks: Seq<Seq<u8>>)
    ensures
        all_data(chunks) == chunks.flatten(),
    decreases chunks.len(),
{
    chunks.lemma_flatten_and_flatten_alt_are_equivalent();
    if chunks.len() == 0 {
        assert(all_data(chunks) =~= chunks.flatten());
    } else {
        let rest = chunks.drop_last();
        all_pieces_are_kept(rest);
        rest.lemma_flatten_and_flatten_alt_are_equivalent();
        assert(chunks.flatten_alt() == rest.flatten_alt() + chunks.last());
    }
}

/// Of an archive that is unpacked, the images are the entries whose names end in
/// an image's ending; each is written with all of its data, under the number of
/// images ahead of it.
pub proof fn every_image_is_unpacked(entries: Seq<(Seq<char>, Seq<Seq<u8>>)>, i: int)
    requires
        0 <= i < entries.len(),
    ensures
        page_names(entries).len() == image_count(entries.map_values(|e: (Seq<char>, Seq<Seq<u8>>)| e.0)),
        ends_in_one(entries[i].0, image_endings()) ==> unpacked_entries(entries).contains(
            ActionView::WritePage {
                index: image_count(
                    entries.take(i).map_values(|e: (Seq<char>, Seq<Seq<u8>>)| e.0),
                ),
                data: entries[i].1.flatten(),
            },
        ) && page_names(entries)[image_count(
            entries.take(i).map_values(|e: (Seq<char>, Seq<Seq<u8>>)| e.0),
        ) as int] == entries[i].0,
        ends_in_one(entries[i].0, seq!["comicinfo.xml"@]) && entries[i].0.len() == 13
            ==> unpacked_entries(entries).contains(
            ActionView::WriteComicInfo(entries[i].1.flatten()),
        ),
    decreases entries.len(),
{
    let name = |e: (Seq<char>, Seq<Seq<u8>>)| e.0;
    let rest = entries.drop_last();
    let all = unpacked_entries(entries);
    let before = unpacked_entries(rest);
    images_unpacked(entries);
    images_unpacked(entries.take(i));
    files_are_known_by_their_endings(entries[i].0);
    all_pieces_are_kept(entries[i].1);
    a_description_is_known(entries[i].0);
    let write = ActionView::WritePage {
        index: image_count(entries.take(i).map_values(name)),
        data: entries[i].1.flatten(),
    };
    let info = ActionView::WriteComicInfo(entries[i].1.flatten());
    if i < rest.len() {
        every_image_is_unpacked(rest, i);
        assert(rest.take(i) =~= entries.take(i));
        if before.contains(write) {
            let k = choose|k: int| 0 <= k < before.len() && before[k] == write;
            assert(all[k] == write);
        }
        if before.contains(info) {
            let k = choose|k: int| 0 <= k < before.len() && before[k] == info;
            assert(all[k] == info);
        }
        if page_entry(entries[i].0) {
            images_ahead(rest, i);
        }
    } else {
        assert(entries.take(i) =~= rest);
        if page_entry(entries[i].0) {
            assert(all[before.len() as int] == write);
        } else if comic_info_name(entries[i].0) {
            assert(all[before.len() as int] == info);
        }
    }
}

/// The images of an archive are counted by the endings.
proof fn images_unpacked(entries: Seq<(Seq<char>, Seq<Seq<u8>>)>)
    ensures
        page_names(entries).len() == image_count(
            entries.map_values(|e: (Seq<char>, Seq<Seq<u8>>)| e.0),
        ),
    decreases entries.len(),
{
    reveal(Seq::filter);
    let name = |e: (Seq<char>, Seq<Seq<u8>>)| e.0;
    if entries.len() > 0 {
        images_unpacked(entries.drop_last());
        assert(entries.map_values(name).drop_last() =~= entries.drop_last().map_values(name));
        files_are_known_by_their_endings(entries.last().0);
    }
}

/// The images ahead of an image are fewer than all.
proof fn images_ahead(entries: Seq<(Seq<char>, Seq<Seq<u8>>)>, i: int)
    requires
        0 <= i < entries.len(),
        page_entry(entries[i].0),
    ensures
        page_names(entries.take(i)).len() < page_names(entries).len(),
    decreases entries.len(),
{
    if i < entries.len() - 1 {
        assert(entries.drop_last().take(i) =~= entries.take(i));
        images_ahead(entries.drop_last(), i);
    } else {
        assert(entries.take(i) =~= entries.drop_last());
    }
}

/// A comic's own description is the entry `comicinfo.xml`, in whichever case, and
/// no image.
pub proof fn a_description_is_known(name: Seq<char>)
    ensures
        comic_info_name(name) <==> name.len() == 13 && ends_in_one(name, seq!["comicinfo.xml"@]),
        comic_info_name(name) ==> !page_entry(name),
{
    let wanted = "comicinfo.xml"@;
    let one = seq![wanted];
    reveal_strlit("comicinfo.xml");
    endings_ignore_case(name, wanted);
    assert(one[0] == wanted);
    assert(ends_in_one(name, one) <==> ends_in(name, wanted));
    let lower = ascii_lower(name);
    if name.len() == 13 {
        assert(lower.subrange(0, 13) =~= lower);
    }
    if comic_info_name(name) && page_entry(name) {
        files_are_known_by_their_endings(name);
        let k = choose|k: int| 0 <= k < 6 && ends_in(name, #[trigger] image_endings()[k]);
        let e = image_endings()[k];
        reveal_strlit(".png");
        reveal_strlit(".jpg");
        reveal_strlit(".jpeg");
        reveal_strlit(".gif");
        reveal_strlit(".webp");
        reveal_strlit(".bmp");
        assert(same_letter(name[12], e[e.len() - 1]));
        assert(same_letter(name[12], wanted[12]));
    }
}

/// What opening a rar archive comes to: the names of its images, what is written
/// on the way, and what is kept for the next time.
pub struct RarOpening {
    pub names: Seq<Seq<char>>,
    pub written: Seq<ActionView>,
    pub manifest: ManifestView,
}

/// What opening a rar archive comes to: what is in the cache is used again, if
/// that can be; else the archive is read and unpacked.
pub open spec fn rar_opened(
    kept: Option<ManifestView>,
    size: u64,
    mtime: i64,
    present: Seq<bool>,
    entries: Seq<(Seq<char>, Seq<Seq<u8>>)>,
) -> RarOpening {
    match reused(kept, size, mtime, present) {
        Some(names) => RarOpening { names, written: Seq::empty(), manifest: kept->0 },
        None => {
            let (s, done) = extraction_run(nothing_read(), archive_events(entries));
            RarOpening {
                names: s.names,
                written: done,
                manifest: ManifestView { size, mtime, names: s.names },
            }
        },
    }
}

/// The source that a rar archive is, once it was opened.
pub open spec fn rar_source(path: Seq<char>, opening: RarOpening) -> SourceView {
    SourceView { kind: SourceKind::Rar, path, listing: Ok(opening.names) }
}

/// An archive that has not changed since it was opened, and whose images are all
/// still there, gives the same pages again: whatever a look into it would show,
/// nothing of it is read, and nothing is written.
pub proof fn an_unchanged_archive_is_reused(
    kept: Option<ManifestView>,
    size: u64,
    mtime: i64,
    before: Seq<bool>,
    entries: Seq<(Seq<char>, Seq<Seq<u8>>)>,
    present: Seq<bool>,
    unread: Seq<(Seq<char>, Seq<Seq<u8>>)>,
    path: Seq<char>,
    cache_dir: Seq<char>,
)
    requires
        all_present(present, rar_opened(kept, size, mtime, before, entries).names.len()),
    ensures
        ({
            let first = rar_opened(kept, size, mtime, before, entries);
            let again = rar_opened(Some(first.manifest), size, mtime, present, unread);
            &&& again.names == first.names
            &&& again.manifest == first.manifest
            &&& again.written.len() == 0
            &&& source_pages(rar_source(path, again), cache_dir) == source_pages(
                rar_source(path, first),
                cache_dir,
            )
        }),
{
}

/// An archive that has changed since it was unpacked, or of whose images one is
/// gone, is unpacked anew: the names and what is written are those of its present
/// entries, and so is what is kept for the next time.
pub proof fn a_changed_archive_is_unpacked_anew(
    kept: ManifestView,
    size: u64,
    mtime: i64,
    present: Seq<bool>,
    entries: Seq<(Seq<char>, Seq<Seq<u8>>)>,
)
    requires
        kept.size != size || kept.mtime != mtime || !all_present(present, kept.names.len()),
    ensures
        ({
            let opening = rar_opened(Some(kept), size, mtime, present, entries);
            &&& opening.names == page_names(entries)
            &&& opening.written == unpacked_entries(entries)
            &&& opening.manifest == (ManifestView { size, mtime, names: page_names(entries) })
        }),
{
    extraction_writes_pages(entries);
}

/// Different images are unpacked into different files.
pub proof fn unpacked_images_lie_apart(dir: Seq<char>, i: nat, j: nat)
    requires
        i != j,
    ensures
        unpacked_path(dir, i) != unpacked_path(dir, j),
{
    let a = zero_padded(decimal(i), 5);
    let b = zero_padded(decimal(j), 5);
    padded_numerals_differ(i, j, 5);
    padded_starts_with_a_digit(i, 5);
    padded_starts_with_a_digit(j, 5);
    names_lie_apart(dir, a, b);
}

// ── Decoding ─────────────────────────────────────────────────────────────────

/// Why a page's bytes could not be had: the file or the archive's file could
/// not be opened, the archive could not be read, the archive has no such entry,
/// or the entry could not be read; each with the reason.
pub enum ReadError {
    Open(String),
    Archive(String),
    Entry(String),
    Data(String),
}

/// What a reader is told when a page's bytes could not be had.
pub open spec fn read_failure(source: PageView, e: ReadError) -> Seq<char> {
    match source {
        PageView::File(path) => "failed to read "@ + path + ": "@ + reason_text(e),
        PageView::Zip { archive, entry } => match e {
            ReadError::Open(t) => "failed to open "@ + archive + ": "@ + t@,
            ReadError::Archive(t) => "failed to read zip "@ + archive + ": "@ + t@,
            ReadError::Entry(t) => "entry "@ + entry + " not found: "@ + t@,
            ReadError::Data(t) => "failed to read entry "@ + entry + ": "@ + t@,
        },
    }
}

/// What a reader is told when an archive could not be listed: its file could not
/// be opened, or is no archive that can be read.
pub fn listing_error(archive: &str, e: ReadError) -> (r: String)
    ensures
        r@ == (if e is Open {
            "failed to open "@
        } else {
            "failed to read zip "@
        }) + archive@ + ": "@ + reason_text(e),
{
    match e {
        ReadError::Open(t) => concat4("failed to open ", archive, ": ", t.as_str()),
        ReadError::Archive(t) => concat4("failed to read zip ", archive, ": ", t.as_str()),
        ReadError::Entry(t) => concat4("failed to read zip ", archive, ": ", t.as_str()),
        ReadError::Data(t) => concat4("failed to read zip ", archive, ": ", t.as_str()),
    }
}

/// The reason alone.
pub open spec fn reason_text(e: ReadError) -> Seq<char> {
    match e {
        ReadError::Open(t) => t@,
        ReadError::Archive(t) => t@,
        ReadError::Entry(t) => t@,
        ReadError::Data(t) => t@,
    }
}

/// A text made of four.
fn concat4(a: &str, b: &str, c: &str, d: &str) -> (r: String)
    ensures
        r@ == a@ + b@ + c@ + d@,
{
    let mut s = concat3(a, b, c);
    s.append(d);
    s
}

/// Decodes a page from its bytes.
pub fn decode_image(name: &str, data: &[u8]) -> (r: Result<Page, String>)
    ensures
        match decoded(data@) {
            Ok((width, height, rgba)) => r matches Ok(p) && p.width == width && p.height == height
                && p.rgba@ == rgba && rgba.len() == 4 * width * height,
            Err(e) => r matches Err(t) && t@ == "failed to decode page "@ + name@ + ": "@ + e,
        },
{
    match decode_rgba(data) {
        Ok((width, height, rgba)) => Ok(Page { width, height, rgba }),
        Err(e) => Err(concat4("failed to decode page ", name, ": ", e.as_str())),
    }
}

/// The name under which a page is spoken of.
pub open spec fn page_name(source: PageView) -> Seq<char> {
    match source {
        PageView::File(path) => path,
        PageView::Zip { archive, entry } => entry,
    }
}

/// Decodes the page of a source from its bytes, if they could be had.
pub fn decode_source(source: &PageSource, bytes: Result<Vec<u8>, ReadError>) -> (r: Result<
    Page,
    String,
>)
    ensures
        match bytes {
            Err(e) => r matches Err(t) && t@ == read_failure(source@, e),
            Ok(data) => match decoded(data@) {
                Ok((width, height, rgba)) => r matches Ok(p) && p.width == width && p.height
                    == height && p.rgba@ == rgba && rgba.len() == 4 * width * height,
                Err(e) => r matches Err(t) && t@ == "failed to decode page "@ + page_name(source@)
                    + ": "@ + e,
            },
        },
{
    match source {
        PageSource::File(path) => match bytes {
            Ok(data) => decode_image(path.as_str(), data.as_slice()),
            Err(e) => {
                let reason = match e {
                    ReadError::Open(t) => t,
                    ReadError::Archive(t) => t,
                    ReadError::Entry(t) => t,
                    ReadError::Data(t) => t,
                };
                Err(concat4("failed to read ", path.as_str(), ": ", reason.as_str()))
            },
        },
        PageSource::Zip { archive, entry } => match bytes {
            Ok(data) => decode_image(entry.as_str(), data.as_slice()),
            Err(e) => Err(
                match e {
                    ReadError::Open(t) => concat4(
                        "failed to open ",
                        archive.as_str(),
                        ": ",
                        t.as_str(),
                    ),
                    ReadError::Archive(t) => concat4(
                        "failed to read zip ",
                        archive.as_str(),
                        ": ",
                        t.as_str(),
                    ),
                    ReadError::Entry(t) => concat4(
                        "entry ",
                        entry.as_str(),
                        " not found: ",
                        t.as_str(),
                    ),
                    ReadError::Data(t) => concat4(
                        "failed to read entry ",
                        entry.as_str(),
                        ": ",
                        t.as_str(),
                    ),
                },
            ),
        },
    }
}

// ── ComicInfo.xml ────────────────────────────────────────────────────────────

/// What was looked up about a comic to find its own description: of a folder,
/// which of the candidates are files; of a file, the names of its entries if it
/// is a zip archive, and whether one was unpacked if it is a rar archive.
pub enum InfoLook {
    Dir([bool; 3]),
    File { zip_names: Vec<String>, unpacked: bool },
}

/// Where a comic's own description is.
pub enum InfoPlace {
    Nowhere,
    File(String),
    ZipEntry(usize),
}

/// The names under which a folder's own description is looked for, in order.
pub open spec fn info_names() -> Seq<Seq<char>> {
    seq!["ComicInfo.xml"@, "comicinfo.xml"@, "COMICINFO.XML"@]
}

/// The first place at which `present` is true, at or after `from`.
pub open spec fn first_true(present: Seq<bool>, from: int) -> Option<int>
    decreases present.len() - from,
{
    if from < 0 || from >= present.len() {
        None
    } else if present[from] {
        Some(from)
    } else {
        first_true(present, from + 1)
    }
}

/// The files that may be a folder's own description, in the order in which they
/// are tried.
pub fn comic_info_candidates(dir: &str) -> (r: Vec<String>)
    ensures
        texts(r@) == info_names().map_values(|n: Seq<char>| joined(dir@, n)),
{
    let mut r: Vec<String> = Vec::new();
    r.push(join_path(dir, "ComicInfo.xml"));
    r.push(join_path(dir, "comicinfo.xml"));
    r.push(join_path(dir, "COMICINFO.XML"));
    assert(texts(r@) =~= info_names().map_values(|n: Seq<char>| joined(dir@, n)));
    r
}

/// Which entries hold the comic's own description.
pub open spec fn info_entries(names: Seq<Seq<char>>) -> Seq<bool> {
    names.map_values(|n: Seq<char>| comic_info_name(n))
}

/// Looks for a comic's own description at the top level of a path: the first
/// candidate of a folder, the first fitting entry of a zip archive, or the one
/// that was unpacked from a rar archive.
pub fn find_comic_info(path: &str, look: &InfoLook, cache_dir: &str) -> (r: InfoPlace)
    ensures
        match look {
            InfoLook::Dir(present) => match first_true(present@, 0) {
                Some(i) => r matches InfoPlace::File(p) && p@ == joined(path@, info_names()[i]),
                None => r is Nowhere,
            },
            InfoLook::File { zip_names, unpacked } => if name_of(path@) is None {
                r is Nowhere
            } else if zip_name(name_of(path@)->0) {
                match first_true(info_entries(texts(zip_names@)), 0) {
                    Some(i) => r matches InfoPlace::ZipEntry(e) && e == i,
                    None => r is Nowhere,
                }
            } else if rar_name(name_of(path@)->0) && *unpacked {
                r matches InfoPlace::File(p) && p@ == joined(
                    rar_dir(cache_dir@, path@),
                    "ComicInfo.xml"@,
                )
            } else {
                r is Nowhere
            },
        },
{
    match look {
        InfoLook::Dir(present) => {
            let names = comic_info_candidates(path);
            assert(texts(names@).len() == names@.len());
            for i in 0..3usize
                invariant
                    names@.len() == 3,
                    texts(names@) == info_names().map_values(|n: Seq<char>| joined(path@, n)),
                    *look == InfoLook::Dir(*present),
                    first_true(present@, 0) == first_true(present@, i as int),
            {
                if present[i] {
                    assert(texts(names@)[i as int] == names@[i as int]@);
                    return InfoPlace::File(names[i].clone());
                }
            }
            InfoPlace::Nowhere
        },
        InfoLook::File { zip_names, unpacked } => match file_name(path) {
            None => InfoPlace::Nowhere,
            Some(name) => {
                if is_zip_name(name.as_str()) {
                    let ghost flags = info_entries(texts(zip_names@));
                    for i in 0..zip_names.len()
                        invariant
                            flags == info_entries(texts(zip_names@)),
                            *look == (InfoLook::File { zip_names: *zip_names, unpacked: *unpacked }),
                            name_of(path@) == Some(name@),
                            zip_name(name@),
                            first_true(flags, 0) == first_true(flags, i as int),
                    {
                        assert(flags[i as int] == comic_info_name(zip_names@[i as int]@));
                        if is_comic_info_name(zip_names[i].as_str()) {
                            return InfoPlace::ZipEntry(i);
                        }
                    }
                    InfoPlace::Nowhere
                } else if is_rar_name(name.as_str()) && *unpacked {
                    let dir = rar_cache_dir(cache_dir, path);
                    InfoPlace::File(join_path(dir.as_str(), "ComicInfo.xml"))
                } else {
                    InfoPlace::Nowhere
                }
            },
        },
    }
}

// ── Laws ─────────────────────────────────────────────────────────────────────

/// Where a comic's own description is looked for, the first place at which one is there
/// counts; of an archive's entries those named `comicinfo.xml`, in whichever case, and no
/// others.
pub proof fn the_first_description_counts(present: Seq<bool>, names: Seq<Seq<char>>, k: int)
    ensures
        0 <= k < present.len() && present[k] && (forall|j: int| 0 <= j < k ==> !present[j])
            ==> first_true(present, 0) == Some(k),
        (forall|j: int| 0 <= j < present.len() ==> !present[j]) ==> first_true(present, 0) is None,
        info_entries(names).len() == names.len(),
        0 <= k < names.len() ==> (info_entries(names)[k] <==> names[k].len() == 13 && ends_in_one(
            names[k],
            seq!["comicinfo.xml"@],
        )),
        info_names().len() == 3 && info_names()[0] == "ComicInfo.xml"@ && info_names()[1]
            == "comicinfo.xml"@ && info_names()[2] == "COMICINFO.XML"@,
{
    true_first(present, 0, k);
    if 0 <= k < names.len() {
        a_description_is_known(names[k]);
    }
}

/// The first place that is true.
proof fn true_first(present: Seq<bool>, from: int, k: int)
    requires
        0 <= from,
    ensures
        from <= k < present.len() && present[k] && (forall|j: int| from <= j < k ==> !present[j])
            ==> first_true(present, from) == Some(k),
        (forall|j: int| from <= j < present.len() ==> !present[j]) ==> first_true(
            present,
            from,
        ) is None,
    decreases present.len() - from,
{
    if from < present.len() {
        true_first(present, from + 1, k);
    }
}

/// What was unpacked is used again exactly if the archive's size and time are as they were
/// and every one of its images is still there.
pub proof fn the_cache_is_used_only_if_whole(
    m: ManifestView,
    size: u64,
    mtime: i64,
    present: Seq<bool>,
    i: int,
)
    ensures
        m.size == size && m.mtime == mtime && present.len() == m.names.len() && (forall|j: int|
            0 <= j < present.len() ==> present[j]) ==> reused(Some(m), size, mtime, present)
            == Some(m.names),
        m.size != size || m.mtime != mtime ==> reused(Some(m), size, mtime, present) is None,
        0 <= i < m.names.len() && i < present.len() && !present[i] ==> reused(
            Some(m),
            size,
            mtime,
            present,
        ) is None,
        present.len() < m.names.len() ==> reused(Some(m), size, mtime, present) is None,
        reused(None, size, mtime, present) is None,
{
}

/// A rar archive is unpacked into a directory of its own below the cache directory, named by
/// the hash of the archive's path, and its images are numbered with five digits at least.
pub proof fn archives_are_unpacked_into_their_own_directories(
    cache_dir: Seq<char>,
    archive: Seq<char>,
    i: nat,
)
    requires
        cache_dir.len() > 0,
        cache_dir.last() != '/',
    ensures
        unpacked_path(rar_dir(cache_dir, archive), i) == cache_dir + "/rar-cache/"@ + hash_text(
            archive,
        ) + "/"@ + zero_padded(decimal(i), 5),
{
    reveal_strlit("rar-cache");
    reveal_strlit("/rar-cache/");
    reveal_strlit("/");
    crate::library::a_hash_has_sixteen_digits(archive);
    let h = hash_text(archive);
    assert(h[0] != '/' && h[15] != '/');
    let all = joined(cache_dir, "rar-cache"@);
    assert(all == cache_dir + seq!['/'] + "rar-cache"@);
    assert(all.last() == 'e');
    let dir = joined(all, h);
    assert(dir == all + seq!['/'] + h);
    assert(dir.last() == h[15]);
    padded_starts_with_a_digit(i, 5);
    assert(unpacked_path(dir, i) =~= cache_dir + "/rar-cache/"@ + h + "/"@ + zero_padded(
        decimal(i),
        5,
    ));
}

/// The pages of an unpacked rar archive stand in the natural order of the names that its
/// entries had, and each is the file with the number at which its name stands in the list.
pub proof fn unpacked_pages_come_in_natural_order(
    s: SourceView,
    cache_dir: Seq<char>,
    names: Seq<Seq<char>>,
    i: int,
    j: int,
)
    requires
        s.listing == Ok::<Seq<Seq<char>>, Seq<char>>(names),
        s.kind == SourceKind::Rar,
        0 <= i <= j < names.len(),
    ensures
        source_pages(s, cache_dir) matches Ok(pages) && exists|a: int, b: int|
            0 <= a < names.len() && 0 <= b < names.len() && !name_lt(
                #[trigger] names[b],
                #[trigger] names[a],
            ) && pages[i] == PageView::File(unpacked_path(rar_dir(cache_dir, s.path), a as nat))
                && pages[j] == PageView::File(unpacked_path(rar_dir(cache_dir, s.path), b as nat)),
{
    broadcast use vstd::seq_lib::group_to_multiset_ensures;

    let listed = listed_pages(s.kind, s.path, cache_dir, names);
    let sorted = natural_sorted(listed);
    listed_pages_count(s.kind, s.path, cache_dir, names);
    crate::order::natural_sorted_in_order(listed);
    natural_sorted_same_items(listed);
    assert(sorted.contains(sorted[i]) && sorted.contains(sorted[j]));
    assert(listed.to_multiset().count(sorted[i]) > 0);
    assert(listed.to_multiset().count(sorted[j]) > 0);
    listed_pages_hold(s, cache_dir, names, sorted[i].0, sorted[i].1);
    listed_pages_hold(s, cache_dir, names, sorted[j].0, sorted[j].1);
    let a = choose|a: int|
        #[trigger] page_at(s, cache_dir, names, a, sorted[i].1) && names[a] == sorted[i].0;
    let b = choose|b: int|
        #[trigger] page_at(s, cache_dir, names, b, sorted[j].1) && names[b] == sorted[j].0;
    assert(!name_lt(sorted[j].0, sorted[i].0));
    assert(names[a] == sorted[i].0 && names[b] == sorted[j].0);
}

/// Any file that is no zip archive by its name is taken for a rar archive: one chapter with
/// a page for each image that was unpacked.
pub proof fn any_other_file_is_a_rar_archive(
    path: Seq<char>,
    names: Vec<String>,
    cache_dir: Seq<char>,
)
    requires
        !ends_in_one(file_name_text(path), seq![".cbz"@, ".zip"@]),
    ensures
        names@.len() > 0 ==> (comic_at(path, Found::File(Ok(names)), cache_dir) matches Ok(
            (pages, chapters),
        ) && pages.len() == names@.len() && chapters.len() == 1 && chapters[0].start == 0
            && chapters[0].page_count == names@.len() && chapters[0].name == without_extension(
            file_name_text(path),
        ) && forall|k: int| 0 <= k < pages.len() ==> (#[trigger] pages[k]) is File),
        names@.len() == 0 ==> comic_at(path, Found::File(Ok(names)), cache_dir) is Err,
{
    files_are_known_by_their_endings(file_name_text(path));
    let listing: Result<Vec<String>, String> = Ok(names);
    let s = single_source(path, listing_view(listing));
    every_listed_image_is_a_page(s, cache_dir, texts(names@));
    let pages = source_pages(s, cache_dir)->Ok_0;
    assert forall|k: int| 0 <= k < pages.len() implies (#[trigger] pages[k]) is File by {
        unpacked_pages_come_in_natural_order(s, cache_dir, texts(names@), k, k);
    }
}

/// A folder is one comic: its sources are its chapters, in the natural order of their names,
/// each with its own pages. Without any source it is none, and neither is it if one of them
/// cannot be listed; what is neither file nor folder is none either.
pub proof fn a_folder_is_one_comic(
    path: Seq<char>,
    folder: Folder,
    cache_dir: Seq<char>,
    i: int,
)
    ensures
        comic_at(path, Found::Dir(folder), cache_dir) matches Ok((pages, chapters)) ==> {
            let sorted = natural_sorted(sources_in(folder));
            &&& chapters.len() == sources_in(folder).len()
            &&& sorted.to_multiset() == sources_in(folder).to_multiset()
            &&& 0 <= i < chapters.len() ==> chapters[i].name == stem_of(sorted[i].0)
                && source_pages(sorted[i].1, cache_dir) == Ok::<Seq<PageView>, Seq<char>>(
                pages.subrange(
                    chapters[i].start as int,
                    (chapters[i].start + chapters[i].page_count) as int,
                ),
            )
            &&& 1 <= i < chapters.len() ==> !name_lt(sorted[i].0, sorted[i - 1].0)
        },
        sources_in(folder).len() == 0 ==> comic_at(path, Found::Dir(folder), cache_dir) is Err,
        0 <= i < sources_in(folder).len() && sources_in(folder)[i].1.listing is Err ==> comic_at(
            path,
            Found::Dir(folder),
            cache_dir,
        ) is Err,
        comic_at(path, Found::Neither, cache_dir) is Err,
{
    let all = sources_in(folder);
    let sorted = natural_sorted(all);
    crate::order::natural_sorted_in_order(all);
    natural_sorted_same_items(all);
    if comic_at(path, Found::Dir(folder), cache_dir) is Ok {
        collected_divides(sorted, cache_dir);
        if 0 <= i < all.len() {
            a_chapter_for_each_source(sorted, cache_dir, i);
        }
        if 0 <= i < all.len() && all[i].1.listing is Err {
            broadcast use vstd::seq_lib::group_to_multiset_ensures;

            assert(all.contains(all[i]));
            assert(sorted.to_multiset().count(all[i]) > 0);
            let k = choose|k: int| 0 <= k < sorted.len() && sorted[k] == all[i];
            a_chapter_for_each_source(sorted, cache_dir, k);
        }
    }
}

/// What a reader is told when a page cannot be had names the file, or the archive or its
/// entry, and ends with the reason.
pub proof fn failures_name_the_page(source: PageView, e: ReadError)
    ensures
        ends_with(read_failure(source, e), reason_text(e)),
        source matches PageView::File(path) ==> crate::text::contains_text(
            read_failure(source, e),
            path,
        ),
        source is Zip && (e is Open || e is Archive) ==> crate::text::contains_text(
            read_failure(source, e),
            source->archive,
        ),
        source is Zip && (e is Entry || e is Data) ==> crate::text::contains_text(
            read_failure(source, e),
            source->entry,
        ),
{
    let t = read_failure(source, e);
    let r = reason_text(e);
    assert(t.subrange(t.len() - r.len(), t.len() as int) =~= r);
    match source {
        PageView::File(path) => {
            names_within("failed to read "@, path, ": "@ + r, t);
        },
        PageView::Zip { archive, entry } => match e {
            ReadError::Open(_) => {
                names_within("failed to open "@, archive, ": "@ + r, t);
            },
            ReadError::Archive(_) => {
                names_within("failed to read zip "@, archive, ": "@ + r, t);
            },
            ReadError::Entry(_) => {
                names_within("entry "@, entry, " not found: "@ + r, t);
            },
            ReadError::Data(_) => {
                names_within("failed to read entry "@, entry, ": "@ + r, t);
            },
        },
    }
}

/// A text between others is in the whole.
proof fn names_within(a: Seq<char>, name: Seq<char>, b: Seq<char>, t: Seq<char>)
    requires
        t =~= a + name + b,
    ensures
        crate::text::contains_text(t, name),
{
    assert(t.subrange(a.len() as int, (a.len() + name.len()) as int) =~= name);
    assert(crate::text::occurs_at(t, name, a.len() as int));
}

} // verus!
