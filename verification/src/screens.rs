//! What the window shows: the pages being read, the lists of chapters and the
//! shelves of the library.
use crate::app::{chapter_of, distance, has_number, App, Layout, Model};
use crate::epub::{Block, BlockView, EpubBook};
use crate::library::SeriesEntry;
use crate::number::{all_digits, counted_text, decimal, decimal_reads_back, decimal_text, decimal_value};
use crate::paths::{file_name, lies_under, name_of, path_lies_under};
use crate::settings::Background;
use crate::text::{shorten, shortened, text_copy, texts};
use vstd::prelude::*;

verus! {

// ── The reader ───────────────────────────────────────────────────────────────

/// The right half of two pages.
#[derive(Clone, Copy, Debug, PartialEq, Eq, Structural)]
pub enum RightPage {
    /// There is no further page.
    Nothing,
    Page(usize),
    /// The page is being decoded.
    Waiting,
}

/// What the reader shows.
#[derive(Clone, Copy, Debug, PartialEq, Eq, Structural)]
pub enum Screen {
    /// A chapter of a book, or that the book has none.
    Book(Option<usize>),
    /// One page, to zoom and pan in.
    Zoomed(usize),
    /// One page.
    Single(usize),
    /// Two pages.
    Spread { left: usize, right: RightPage },
    /// The current page is being decoded; another page may stand in for it.
    Decoding(Option<usize>),
    /// A comic is being listed.
    Loading,
    /// Nothing is open.
    Empty,
}

/// Whether a page is decoded.
pub open spec fn at_hand(m: Model, page: int) -> bool {
    m.cache.contains(page as usize)
}

/// Whether a page may stand in for the current one: none that is decoded is
/// closer.
pub open spec fn stands_in(m: Model, page: Option<usize>) -> bool {
    match page {
        Some(i) => m.cache.contains(i) && forall|j: usize|
            #[trigger] m.cache.contains(j) ==> distance(i as int, m.current_page) <= distance(
                j as int,
                m.current_page,
            ),
        None => forall|j: usize| !#[trigger] m.cache.contains(j),
    }
}

/// The right half of two pages.
pub open spec fn right_page(m: Model) -> RightPage {
    if m.current_page + 1 < m.sources.len() {
        if at_hand(m, m.current_page + 1) {
            RightPage::Page((m.current_page + 1) as usize)
        } else {
            RightPage::Waiting
        }
    } else {
        RightPage::Nothing
    }
}

/// Whether this is what the reader shows.
pub open spec fn shows(m: Model, s: Screen) -> bool {
    match m.epub_book {
        Some(book) => s == Screen::Book(
            if m.epub_chapter < book.chapters@.len() {
                Some(m.epub_chapter as usize)
            } else {
                None
            },
        ),
        None => if m.sources.len() > 0 && at_hand(m, m.current_page) {
            if m.zoom_active {
                s == Screen::Zoomed(m.current_page as usize)
            } else if m.layout == Layout::Single {
                s == Screen::Single(m.current_page as usize)
            } else {
                s == (Screen::Spread { left: m.current_page as usize, right: right_page(m) })
            }
        } else if m.sources.len() > 0 {
            s matches Screen::Decoding(page) && stands_in(m, page)
        } else if m.loading {
            s == Screen::Loading
        } else {
            s == Screen::Empty
        },
    }
}

impl App {
    /// What the reader shows.
    pub fn view_reader(&self) -> (r: Screen)
        ensures
            shows(self@, r),
    {
        let nearest = self.nearest_cached();
        reveal(App::model);
        if let Some(book) = &self.epub_book {
            return if self.epub_chapter < book.chapters.len() {
                Screen::Book(Some(self.epub_chapter))
            } else {
                Screen::Book(None)
            };
        }
        let len: usize = self.sources.len();
        if len > 0 && has_number(&self.cache, self.current_page) {
            if self.zoom_active {
                Screen::Zoomed(self.current_page)
            } else {
                match self.layout {
                    Layout::Single => Screen::Single(self.current_page),
                    Layout::Dual => {
                        let right = if self.current_page < len - 1 {
                            if has_number(&self.cache, self.current_page + 1) {
                                RightPage::Page(self.current_page + 1)
                            } else {
                                RightPage::Waiting
                            }
                        } else {
                            RightPage::Nothing
                        };
                        Screen::Spread { left: self.current_page, right }
                    },
                }
            }
        } else if len > 0 {
            Screen::Decoding(nearest)
        } else if self.loading {
            Screen::Loading
        } else {
            Screen::Empty
        }
    }

    /// Whether the space around the page is black rather than in the colours of
    /// the desktop.
    pub fn backdrop_is_black(&self) -> (r: bool)
        ensures
            r == (self@.theater_mode || self@.settings.background == Background::Black),
    {
        reveal(App::model);
        self.theater_mode || self.settings.background == Background::Black
    }
}

// ── Lists of chapters ────────────────────────────────────────────────────────

/// A line in the list of a comic's chapters.
#[derive(Clone, Debug)]
pub struct ChapterRow {
    pub number: String,
    pub name: String,
    pub pages: String,
    /// The size of the name.
    pub size: u16,
    /// Whether this is the chapter of the current page; then it cannot be
    /// selected.
    pub current: bool,
    /// Whether the cover is at hand.
    pub has_cover: bool,
}

/// Whether a line is that of a chapter.
pub open spec fn row_of_chapter(m: Model, row: ChapterRow, i: int) -> bool {
    &&& row.number@ == "Chapter "@ + decimal((i + 1) as nat)
    &&& row.name@ == shortened(m.chapters[i].name, 30, 28)
    &&& row.pages@ == decimal(m.chapters[i].page_count) + " pages"@
    &&& row.current == (chapter_of(m.chapters, m.current_page, 0) == Some(i))
    &&& row.size == (if row.current {
        14u16
    } else {
        13u16
    })
    &&& row.has_cover == m.chapter_covers.contains(i as usize)
}

/// A line in the list of a book's chapters.
#[derive(Clone, Debug)]
pub struct BookRow {
    pub title: String,
    pub size: u16,
    /// Whether this is the current chapter; then it cannot be selected.
    pub current: bool,
}

impl App {
    /// The list of a comic's chapters.
    pub fn build_chapter_select(&self) -> (r: Vec<ChapterRow>)
        ensures
            r@.len() == self@.chapters.len(),
            forall|i: int| 0 <= i < r@.len() ==> row_of_chapter(self@, #[trigger] r@[i], i),
    {
        let here = self.current_chapter();
        let count: usize = self.chapter_count();
        let mut r: Vec<ChapterRow> = Vec::new();
        for i in 0..count
            invariant
                count == self@.chapters.len(),
                r@.len() == i,
                match here {
                    Some((k, page)) => chapter_of(self@.chapters, self@.current_page, 0) == Some(
                        k as int,
                    ),
                    None => chapter_of(self@.chapters, self@.current_page, 0) is None,
                },
                forall|j: int| 0 <= j < i ==> row_of_chapter(self@, #[trigger] r@[j], j),
        {
            let current = match here {
                Some((k, _)) => k == i,
                None => false,
            };
            let row = self.chapter_row(i, current);
            r.push(row);
        }
        r
    }

    /// A line in the list of a comic's chapters.
    fn chapter_row(&self, i: usize, current: bool) -> (r: ChapterRow)
        requires
            i < self@.chapters.len(),
            current == (chapter_of(self@.chapters, self@.current_page, 0) == Some(i as int)),
        ensures
            row_of_chapter(self@, r, i as int),
    {
        reveal(App::model);
        assert(self@.chapters[i as int] == self.chapters@[i as int]@);
        let mut number = "Chapter ".to_owned();
        let counted = counted_text(i);
        number.append(counted.as_str());
        let mut pages = decimal_text(self.chapters[i].page_count as u128);
        pages.append(" pages");
        let size: u16 = if current {
            14
        } else {
            13
        };
        ChapterRow {
            number,
            name: shorten(self.chapters[i].name.as_str(), 30, 28),
            pages,
            size,
            current,
            has_cover: has_number(&self.chapter_covers, i),
        }
    }
}

/// The list of a book's chapters, at the given one.
pub fn build_epub_chapter_select(book: &EpubBook, chapter: usize) -> (r: Vec<BookRow>)
    ensures
        r@.len() == book.chapters@.len(),
        forall|i: int|
            0 <= i < r@.len() ==> (#[trigger] r@[i]).title@ == book.chapters@[i].title@
                && r@[i].current == (i == chapter) && r@[i].size == (if i == chapter {
                14u16
            } else {
                13u16
            }),
{
    let mut r: Vec<BookRow> = Vec::new();
    for i in 0..book.chapters.len()
        invariant
            r@.len() == i,
            forall|j: int|
                0 <= j < i ==> (#[trigger] r@[j]).title@ == book.chapters@[j].title@
                    && r@[j].current == (j == chapter) && r@[j].size == (if j == chapter {
                    14u16
                } else {
                    13u16
                }),
    {
        let current = i == chapter;
        let size: u16 = if current {
            14
        } else {
            13
        };
        r.push(BookRow { title: book.chapters[i].title.clone(), size, current });
    }
    r
}

// ── Books ────────────────────────────────────────────────────────────────────

/// How a block of a book is drawn.
pub enum Drawn {
    /// Text of the given size; a quote is indented.
    Text { text: String, size: u16, quoted: bool },
    /// An image.
    Image,
}

/// The size of a heading of the given level.
pub open spec fn heading_size(level: u8) -> u16 {
    if level == 1 {
        28
    } else if level == 2 {
        24
    } else if level == 3 {
        20
    } else if level == 4 {
        18
    } else if level == 5 {
        16
    } else {
        15
    }
}

/// How a block of a book is drawn: headings by their level, list items behind a
/// bullet.
pub fn render_epub_block(block: &Block) -> (r: Drawn)
    ensures
        match block@ {
            BlockView::Heading(level, t) => r matches Drawn::Text { text, size, quoted } && text@
                == t && size == heading_size(level) && !quoted,
            BlockView::Paragraph(t) => r matches Drawn::Text { text, size, quoted } && text@ == t
                && size == 16 && !quoted,
            BlockView::Quote(t) => r matches Drawn::Text { text, size, quoted } && text@ == t
                && size == 15 && quoted,
            BlockView::ListItem(t) => r matches Drawn::Text { text, size, quoted } && text@
                == "•  "@ + t && size == 16 && !quoted,
            BlockView::Image(_) => r is Image,
        },
{
    match block {
        Block::Heading(level, t) => {
            let size: u16 = match *level {
                1 => 28,
                2 => 24,
                3 => 20,
                4 => 18,
                5 => 16,
                _ => 15,
            };
            Drawn::Text { text: t.clone(), size, quoted: false }
        },
        Block::Paragraph(t) => Drawn::Text { text: t.clone(), size: 16, quoted: false },
        Block::Quote(t) => Drawn::Text { text: t.clone(), size: 15, quoted: true },
        Block::ListItem(t) => {
            let mut text = "•  ".to_owned();
            text.append(t.as_str());
            Drawn::Text { text, size: 16, quoted: false }
        },
        Block::Image(_) => Drawn::Image,
    }
}

// ── The library ──────────────────────────────────────────────────────────────

/// The places of the series, among the first `n`, that were begun.
pub open spec fn begun(entries: Seq<SeriesEntry>, n: nat) -> Seq<usize>
    decreases n,
{
    if n == 0 {
        Seq::empty()
    } else if entries[n - 1].last_read_page > 0 {
        begun(entries, (n - 1) as nat).push((n - 1) as usize)
    } else {
        begun(entries, (n - 1) as nat)
    }
}

/// The series to continue reading: the first eight that were begun.
pub open spec fn recent_of(entries: Seq<SeriesEntry>) -> Seq<usize> {
    let all = begun(entries, entries.len());
    if all.len() > 8 {
        all.take(8)
    } else {
        all
    }
}

/// How many of the first `i` series were begun.
pub open spec fn begun_before(entries: Seq<SeriesEntry>, i: int) -> nat {
    entries.take(i).filter(|e: SeriesEntry| e.last_read_page > 0).len()
}

/// The places of the series that were begun: all of them, in order, each at the
/// number of those ahead of it.
proof fn begun_in_order(entries: Seq<SeriesEntry>, n: nat)
    requires
        n <= entries.len() <= usize::MAX,
    ensures
        begun(entries, n).len() == begun_before(entries, n as int),
        forall|i: int|
            0 <= i < n && (#[trigger] entries[i]).last_read_page > 0 ==> begun_before(entries, i)
                < begun(entries, n).len() && begun(entries, n)[begun_before(entries, i) as int]
                == i,
        forall|k: int|
            0 <= k < begun(entries, n).len() ==> (#[trigger] begun(entries, n)[k]) < n && entries[begun(
                entries,
                n,
            )[k] as int].last_read_page > 0 && begun_before(entries, begun(entries, n)[k] as int)
                == k,
        forall|k: int, l: int|
            0 <= k < l < begun(entries, n).len() ==> #[trigger] begun(entries, n)[k]
                < #[trigger] begun(entries, n)[l],
    decreases n,
{
    reveal(Seq::filter);
    if n > 0 {
        let m = (n - 1) as nat;
        begun_in_order(entries, m);
        assert(entries.take(n as int).drop_last() =~= entries.take(m as int));
        assert(entries.take(n as int).last() == entries[m as int]);
    } else {
        assert(entries.take(0) =~= Seq::empty());
    }
}

/// A series is among those to continue reading exactly if a page of it beyond the
/// first was reached and fewer than eight of the series ahead of it in the library
/// were begun; nothing else about it matters. They stand in the library's order.
pub proof fn the_first_eight_begun_are_shown(entries: Seq<SeriesEntry>, i: int)
    requires
        0 <= i < entries.len() <= usize::MAX,
    ensures
        recent_of(entries).contains(i as usize) <==> entries[i].last_read_page > 0
            && entries.take(i).filter(|e: SeriesEntry| e.last_read_page > 0).len() < 8,
        forall|k: int|
            0 <= k < recent_of(entries).len() ==> (#[trigger] recent_of(entries)[k])
                < entries.len(),
        forall|k: int, l: int|
            0 <= k < l < recent_of(entries).len() ==> #[trigger] recent_of(entries)[k]
                < #[trigger] recent_of(entries)[l],
{
    let all = begun(entries, entries.len());
    let shown = recent_of(entries);
    begun_in_order(entries, entries.len());
    assert forall|k: int| 0 <= k < shown.len() implies (#[trigger] shown[k]) < entries.len() by {
        assert(shown[k] == all[k]);
    }
    assert forall|k: int, l: int| 0 <= k < l < shown.len() implies #[trigger] shown[k]
        < #[trigger] shown[l] by {
        assert(shown[k] == all[k] && shown[l] == all[l]);
    }
    if shown.contains(i as usize) {
        let k = choose|k: int| 0 <= k < shown.len() && shown[k] == i as usize;
        assert(all[k] == i);
    }
    if entries[i].last_read_page > 0 && begun_before(entries, i) < 8 {
        assert(shown[begun_before(entries, i) as int] == i);
    }
}

/// Out of a list of places, those whose series lie under a folder, or those
/// that do not.
pub open spec fn sorted_out(
    places: Seq<usize>,
    entries: Seq<SeriesEntry>,
    dir: Seq<char>,
    under: bool,
) -> Seq<usize>
    decreases places.len(),
{
    if places.len() == 0 {
        Seq::empty()
    } else {
        let rest = sorted_out(places.drop_last(), entries, dir, under);
        if lies_under(entries[places.last() as int].path@, dir) == under {
            rest.push(places.last())
        } else {
            rest
        }
    }
}

/// A shelf: a title and the places of the series on it.
pub struct Group {
    pub title: String,
    pub entries: Vec<usize>,
}

/// The model of a shelf.
pub struct GroupView {
    pub title: Seq<char>,
    pub entries: Seq<usize>,
}

impl View for Group {
    type V = GroupView;

    open spec fn view(&self) -> GroupView {
        GroupView { title: self.title@, entries: self.entries@ }
    }
}

/// The models of shelves.
pub open spec fn group_views(v: Seq<Group>) -> Seq<GroupView> {
    v.map_values(|g: Group| g@)
}

/// The title of a folder's shelf.
pub open spec fn shelf_title(dir: Seq<char>) -> Seq<char> {
    match name_of(dir) {
        Some(n) => n,
        None => dir,
    }
}

/// All places up to `n`.
pub open spec fn places_to(n: nat) -> Seq<usize> {
    Seq::new(n, |i: int| i as usize)
}

/// The shelves of the folders, and the places that are on none of them. A
/// folder without series gets no shelf.
pub open spec fn shelved(entries: Seq<SeriesEntry>, dirs: Seq<Seq<char>>) -> (
    Seq<GroupView>,
    Seq<usize>,
)
    decreases dirs.len(),
{
    if dirs.len() == 0 {
        (Seq::empty(), places_to(entries.len()))
    } else {
        let (shelves, left) = shelved(entries, dirs.drop_last());
        let matched = sorted_out(left, entries, dirs.last(), true);
        (
            if matched.len() == 0 {
                shelves
            } else {
                shelves.push(GroupView { title: shelf_title(dirs.last()), entries: matched })
            },
            sorted_out(left, entries, dirs.last(), false),
        )
    }
}

/// The shelves of the library: one for each folder that holds series, and one
/// for the series that lie elsewhere.
pub open spec fn all_shelves(entries: Seq<SeriesEntry>, dirs: Seq<Seq<char>>) -> Seq<GroupView> {
    let (shelves, left) = shelved(entries, dirs);
    if left.len() == 0 {
        shelves
    } else {
        shelves.push(GroupView { title: "Library"@, entries: left })
    }
}

/// The places on shelves, one shelf after the other.
pub open spec fn on_shelves(shelves: Seq<GroupView>) -> Seq<usize>
    decreases shelves.len(),
{
    if shelves.len() == 0 {
        Seq::empty()
    } else {
        on_shelves(shelves.drop_last()) + shelves.last().entries
    }
}

/// Sorting places out loses none and doubles none.
proof fn sorted_out_splits(places: Seq<usize>, entries: Seq<SeriesEntry>, dir: Seq<char>)
    ensures
        sorted_out(places, entries, dir, true).to_multiset().add(
            sorted_out(places, entries, dir, false).to_multiset(),
        ) == places.to_multiset(),
    decreases places.len(),
{
    broadcast use vstd::seq_lib::group_to_multiset_ensures;

    let yes = sorted_out(places, entries, dir, true);
    let no = sorted_out(places, entries, dir, false);
    if places.len() == 0 {
        assert(yes.to_multiset().add(no.to_multiset()) =~= places.to_multiset());
    } else {
        sorted_out_splits(places.drop_last(), entries, dir);
        assert(places =~= places.drop_last().push(places.last()));
        assert(yes.to_multiset().add(no.to_multiset()) =~= places.to_multiset());
    }
}

/// The shelves of the folders, with what is left, hold every series once.
proof fn shelved_holds_all(entries: Seq<SeriesEntry>, dirs: Seq<Seq<char>>)
    ensures
        on_shelves(shelved(entries, dirs).0).to_multiset().add(
            shelved(entries, dirs).1.to_multiset(),
        ) == places_to(entries.len()).to_multiset(),
    decreases dirs.len(),
{
    broadcast use vstd::seq_lib::group_to_multiset_ensures;

    if dirs.len() == 0 {
        assert(on_shelves(shelved(entries, dirs).0).to_multiset().add(
            shelved(entries, dirs).1.to_multiset(),
        ) =~= places_to(entries.len()).to_multiset());
    } else {
        let (shelves, left) = shelved(entries, dirs.drop_last());
        let (more, rest) = shelved(entries, dirs);
        let matched = sorted_out(left, entries, dirs.last(), true);
        shelved_holds_all(entries, dirs.drop_last());
        sorted_out_splits(left, entries, dirs.last());
        if matched.len() == 0 {
            assert(matched.to_multiset() =~= vstd::multiset::Multiset::empty());
            assert(on_shelves(more).to_multiset().add(rest.to_multiset()) =~= on_shelves(
                shelves,
            ).to_multiset().add(left.to_multiset()));
        } else {
            assert(more.drop_last() =~= shelves);
            vstd::seq_lib::lemma_multiset_commutative(on_shelves(shelves), matched);
            assert(on_shelves(more).to_multiset() =~= on_shelves(shelves).to_multiset().add(
                matched.to_multiset(),
            ));
            assert(on_shelves(more).to_multiset().add(rest.to_multiset()) =~= on_shelves(
                shelves,
            ).to_multiset().add(left.to_multiset()));
        }
    }
}

/// Every series of the library stands on exactly one shelf, exactly once.
pub proof fn every_series_is_shelved_once(entries: Seq<SeriesEntry>, dirs: Seq<Seq<char>>)
    ensures
        on_shelves(all_shelves(entries, dirs)).to_multiset() == places_to(
            entries.len(),
        ).to_multiset(),
{
    broadcast use vstd::seq_lib::group_to_multiset_ensures;

    let (shelves, left) = shelved(entries, dirs);
    shelved_holds_all(entries, dirs);
    if left.len() == 0 {
        assert(left.to_multiset() =~= vstd::multiset::Multiset::empty());
        assert(on_shelves(shelves).to_multiset() =~= on_shelves(shelves).to_multiset().add(
            left.to_multiset(),
        ));
    } else {
        let all = all_shelves(entries, dirs);
        assert(all.drop_last() =~= shelves);
        vstd::seq_lib::lemma_multiset_commutative(on_shelves(shelves), left);
        assert(on_shelves(all).to_multiset() =~= on_shelves(shelves).to_multiset().add(
            left.to_multiset(),
        ));
    }
}

/// Whether a series lies under one of the first `k` folders.
pub open spec fn claimed(
    entries: Seq<SeriesEntry>,
    dirs: Seq<Seq<char>>,
    k: int,
    place: usize,
) -> bool {
    exists|j: int| 0 <= j < k && lies_under(entries[place as int].path@, #[trigger] dirs[j])
}

/// What is sorted out of a list.
proof fn sorted_out_is(
    places: Seq<usize>,
    entries: Seq<SeriesEntry>,
    dir: Seq<char>,
    under: bool,
    place: usize,
)
    ensures
        sorted_out(places, entries, dir, under).contains(place) <==> places.contains(place)
            && lies_under(entries[place as int].path@, dir) == under,
        (forall|a: int, b: int| 0 <= a < b < places.len() ==> places[a] < places[b]) ==> forall|
            a: int,
            b: int,
        |
            0 <= a < b < sorted_out(places, entries, dir, under).len() ==> #[trigger] sorted_out(
                places,
                entries,
                dir,
                under,
            )[a] < #[trigger] sorted_out(places, entries, dir, under)[b],
    decreases places.len(),
{
    let kept = sorted_out(places, entries, dir, under);
    if places.len() > 0 {
        let before = places.drop_last();
        let rest = sorted_out(before, entries, dir, under);
        sorted_out_is(before, entries, dir, under, place);
        if kept.contains(place) {
            let k = choose|k: int| 0 <= k < kept.len() && kept[k] == place;
            if k < rest.len() {
                assert(rest[k] == place);
                let j = choose|j: int| 0 <= j < before.len() && before[j] == place;
                assert(places[j] == place);
            } else {
                assert(places[places.len() - 1] == place);
            }
        }
        if places.contains(place) && lies_under(entries[place as int].path@, dir) == under {
            let k = choose|k: int| 0 <= k < places.len() && places[k] == place;
            if k < before.len() {
                assert(before[k] == place);
                let j = choose|j: int| 0 <= j < rest.len() && rest[j] == place;
                assert(kept[j] == place);
            } else {
                assert(kept[rest.len() as int] == place);
            }
        }
        if forall|a: int, b: int| 0 <= a < b < places.len() ==> places[a] < places[b] {
            assert forall|a: int, b: int| 0 <= a < b < before.len() implies before[a]
                < before[b] by {
                assert(places[a] < places[b]);
            }
            assert forall|a: int, b: int| 0 <= a < b < kept.len() implies #[trigger] kept[a]
                < #[trigger] kept[b] by {
                if b < rest.len() {
                    assert(rest[a] < rest[b]);
                } else {
                    sorted_out_is(before, entries, dir, under, rest[a]);
                    assert(rest.contains(rest[a]));
                    let j = choose|j: int| 0 <= j < before.len() && before[j] == rest[a];
                    assert(places[j] < places[places.len() - 1]);
                }
            }
        }
    }
}

/// Whether the places on a shelf stand in ascending order.
pub open spec fn ascending(s: Seq<usize>) -> bool {
    forall|a: int, b: int| 0 <= a < b < s.len() ==> s[a] < s[b]
}

/// What is on the shelves of the folders, and what is left.
proof fn shelved_is(entries: Seq<SeriesEntry>, dirs: Seq<Seq<char>>, place: usize)
    requires
        entries.len() <= usize::MAX,
    ensures
        shelved(entries, dirs).1.contains(place) <==> place < entries.len() && !claimed(
            entries,
            dirs,
            dirs.len() as int,
            place,
        ),
        ascending(shelved(entries, dirs).1),
        forall|k: int|
            0 <= k < dirs.len() && place < entries.len() && lies_under(
                entries[place as int].path@,
                #[trigger] dirs[k],
            ) && !claimed(entries, dirs, k, place) ==> exists|g: int|
                0 <= g < shelved(entries, dirs).0.len() && (#[trigger] shelved(
                    entries,
                    dirs,
                ).0[g]).title == shelf_title(dirs[k]) && shelved(
                    entries,
                    dirs,
                ).0[g].entries.contains(place),
        forall|g: int|
            0 <= g < shelved(entries, dirs).0.len() ==> ascending(
                (#[trigger] shelved(entries, dirs).0[g]).entries,
            ) && shelved(entries, dirs).0[g].entries.len() > 0,
    decreases dirs.len(),
{
    let (shelves, left) = shelved(entries, dirs);
    if dirs.len() == 0 {
        assert(left =~= places_to(entries.len()));
        if place < entries.len() {
            assert(left[place as int] == place);
        }
    } else {
        let few = dirs.drop_last();
        let (before, rest) = shelved(entries, few);
        let n = dirs.len() - 1;
        let matched = sorted_out(rest, entries, dirs.last(), true);
        shelved_is(entries, few, place);
        sorted_out_is(rest, entries, dirs.last(), true, place);
        sorted_out_is(rest, entries, dirs.last(), false, place);
        assert forall|k: int| 0 <= k <= n implies #[trigger] claimed(entries, dirs, k, place)
            == claimed(entries, few, k, place) by {
            if claimed(entries, dirs, k, place) {
                let j = choose|j: int|
                    0 <= j < k && lies_under(entries[place as int].path@, #[trigger] dirs[j]);
                assert(lies_under(entries[place as int].path@, few[j]));
            }
            if claimed(entries, few, k, place) {
                let j = choose|j: int|
                    0 <= j < k && lies_under(entries[place as int].path@, #[trigger] few[j]);
                assert(lies_under(entries[place as int].path@, dirs[j]));
            }
        }
        assert(claimed(entries, dirs, n + 1, place) <==> claimed(entries, dirs, n, place)
            || lies_under(entries[place as int].path@, dirs[n])) by {
            if claimed(entries, dirs, n + 1, place) {
                let j = choose|j: int|
                    0 <= j < n + 1 && lies_under(entries[place as int].path@, #[trigger] dirs[j]);
                if j < n {
                    assert(lies_under(entries[place as int].path@, dirs[j]));
                }
            }
            if claimed(entries, dirs, n, place) {
                let j = choose|j: int|
                    0 <= j < n && lies_under(entries[place as int].path@, #[trigger] dirs[j]);
                assert(lies_under(entries[place as int].path@, dirs[j]));
            }
        }
        assert forall|k: int|
            0 <= k < dirs.len() && place < entries.len() && lies_under(
                entries[place as int].path@,
                #[trigger] dirs[k],
            ) && !claimed(entries, dirs, k, place) implies exists|g: int|
            0 <= g < shelves.len() && (#[trigger] shelves[g]).title == shelf_title(dirs[k])
                && shelves[g].entries.contains(place) by {
            assert(claimed(entries, dirs, k, place) == claimed(entries, few, k, place));
            if k < n {
                assert(few[k] == dirs[k]);
                let g = choose|g: int|
                    0 <= g < before.len() && (#[trigger] before[g]).title == shelf_title(few[k])
                        && before[g].entries.contains(place);
                assert(shelves[g] == before[g]);
            } else {
                assert(claimed(entries, dirs, n, place) == claimed(entries, few, n, place));
                assert(matched.contains(place));
                assert(shelves[before.len() as int].entries == matched);
            }
        }
        assert forall|g: int| 0 <= g < shelves.len() implies ascending(
            (#[trigger] shelves[g]).entries,
        ) && shelves[g].entries.len() > 0 by {
            if g < before.len() {
                assert(shelves[g] == before[g]);
            }
        }
    }
}

/// A series stands on the shelf of the first folder of the library under which it
/// lies, and on the last shelf, "Library", if it lies under none. No shelf is empty,
/// and on each the series stand in the library's order.
pub proof fn a_series_stands_with_its_first_folder(
    entries: Seq<SeriesEntry>,
    dirs: Seq<Seq<char>>,
    place: usize,
)
    requires
        place < entries.len() <= usize::MAX,
    ensures
        forall|k: int|
            0 <= k < dirs.len() && lies_under(entries[place as int].path@, #[trigger] dirs[k]) && (
            forall|j: int|
                0 <= j < k ==> !lies_under(entries[place as int].path@, #[trigger] dirs[j]))
                ==> exists|g: int|
                0 <= g < all_shelves(entries, dirs).len() && (#[trigger] all_shelves(
                    entries,
                    dirs,
                )[g]).title == (match name_of(dirs[k]) {
                    Some(n) => n,
                    None => dirs[k],
                }) && all_shelves(entries, dirs)[g].entries.contains(place),
        (forall|j: int|
            0 <= j < dirs.len() ==> !lies_under(entries[place as int].path@, #[trigger] dirs[j]))
            ==> all_shelves(entries, dirs).len() > 0 && all_shelves(entries, dirs).last().title
            == "Library"@ && all_shelves(entries, dirs).last().entries.contains(place),
        forall|g: int|
            0 <= g < all_shelves(entries, dirs).len() ==> (#[trigger] all_shelves(
                entries,
                dirs,
            )[g]).entries.len() > 0 && ascending(all_shelves(entries, dirs)[g].entries),
{
    let (shelves, left) = shelved(entries, dirs);
    let all = all_shelves(entries, dirs);
    shelved_is(entries, dirs, place);
    assert forall|k: int|
        0 <= k < dirs.len() && lies_under(entries[place as int].path@, #[trigger] dirs[k]) && (
        forall|j: int| 0 <= j < k ==> !lies_under(entries[place as int].path@, #[trigger] dirs[j]))
        implies exists|g: int|
        0 <= g < all.len() && (#[trigger] all[g]).title == shelf_title(dirs[k])
            && all[g].entries.contains(place) by {
        assert(!claimed(entries, dirs, k, place));
        let g = choose|g: int|
            0 <= g < shelves.len() && (#[trigger] shelves[g]).title == shelf_title(dirs[k])
                && shelves[g].entries.contains(place);
        assert(all[g] == shelves[g]);
    }
    if forall|j: int|
        0 <= j < dirs.len() ==> !lies_under(entries[place as int].path@, #[trigger] dirs[j]) {
        assert(!claimed(entries, dirs, dirs.len() as int, place));
        assert(left.contains(place));
        assert(all.last().entries == left);
    }
    assert forall|g: int| 0 <= g < all.len() implies (#[trigger] all[g]).entries.len() > 0
        && ascending(all[g].entries) by {
        if g < shelves.len() {
            assert(all[g] == shelves[g]);
        }
    }
}

/// What the library shows below the series to continue with.
pub enum Shelves {
    /// The library is empty.
    Nothing,
    /// All series together.
    Together,
    /// The series by the folders they lie in.
    Grouped(Vec<Group>),
}

/// What the library shows.
pub struct LibraryScreen {
    /// The places of the series to continue reading.
    pub recent: Vec<usize>,
    pub shelves: Shelves,
}

/// The series to continue reading.
fn find_recent(entries: &Vec<SeriesEntry>) -> (r: Vec<usize>)
    ensures
        r@ == recent_of(entries@),
{
    let mut r: Vec<usize> = Vec::new();
    assert(r@ =~= begun(entries@, 0));
    for i in 0..entries.len()
        invariant
            r@ == (if begun(entries@, i as nat).len() > 8 {
                begun(entries@, i as nat).take(8)
            } else {
                begun(entries@, i as nat)
            }),
    {
        let ghost all = begun(entries@, i as nat);
        let ghost more = begun(entries@, (i + 1) as nat);
        if entries[i].last_read_page > 0 && r.len() < 8 {
            r.push(i);
        }
        assert(r@ =~= (if more.len() > 8 {
            more.take(8)
        } else {
            more
        }));
    }
    r
}

/// Splits places into those whose series lie under a folder and those that do
/// not.
fn sort_out(places: &Vec<usize>, entries: &Vec<SeriesEntry>, dir: &str) -> (r: (
    Vec<usize>,
    Vec<usize>,
))
    requires
        forall|i: int| 0 <= i < places@.len() ==> (#[trigger] places@[i]) < entries@.len(),
    ensures
        r.0@ == sorted_out(places@, entries@, dir@, true),
        r.1@ == sorted_out(places@, entries@, dir@, false),
        forall|i: int| 0 <= i < r.1@.len() ==> (#[trigger] r.1@[i]) < entries@.len(),
{
    let mut yes: Vec<usize> = Vec::new();
    let mut no: Vec<usize> = Vec::new();
    for i in 0..places.len()
        invariant
            forall|k: int| 0 <= k < places@.len() ==> (#[trigger] places@[k]) < entries@.len(),
            yes@ == sorted_out(places@.take(i as int), entries@, dir@, true),
            no@ == sorted_out(places@.take(i as int), entries@, dir@, false),
            forall|k: int| 0 <= k < no@.len() ==> (#[trigger] no@[k]) < entries@.len(),
    {
        assert(places@.take(i + 1).drop_last() =~= places@.take(i as int));
        let place: usize = places[i];
        if path_lies_under(entries[place].path.as_str(), dir) {
            yes.push(place);
        } else {
            no.push(place);
        }
    }
    assert(places@.take(places@.len() as int) =~= places@);
    (yes, no)
}

/// The title of a folder's shelf.
fn title_of_shelf(dir: &str) -> (r: String)
    ensures
        r@ == shelf_title(dir@),
{
    match file_name(dir) {
        Some(n) => n,
        None => text_copy(dir),
    }
}

/// The shelves of the library.
pub fn group_by_folder(entries: &Vec<SeriesEntry>, dirs: &Vec<String>) -> (r: Vec<Group>)
    ensures
        group_views(r@) == all_shelves(entries@, texts(dirs@)),
{
    let ghost all = texts(dirs@);
    let mut left: Vec<usize> = Vec::new();
    for i in 0..entries.len()
        invariant
            left@ == places_to(i as nat),
    {
        left.push(i);
        assert(left@ =~= places_to((i + 1) as nat));
    }
    let mut shelves: Vec<Group> = Vec::new();
    assert(group_views(shelves@) =~= Seq::empty());
    for k in 0..dirs.len()
        invariant
            all == texts(dirs@),
            (group_views(shelves@), left@) == shelved(entries@, all.take(k as int)),
            forall|i: int| 0 <= i < left@.len() ==> (#[trigger] left@[i]) < entries@.len(),
    {
        assert(all.take(k + 1).drop_last() =~= all.take(k as int));
        assert(all.take(k + 1).last() == dirs@[k as int]@);
        let (matched, rest) = sort_out(&left, entries, dirs[k].as_str());
        left = rest;
        if matched.len() > 0 {
            let ghost was = group_views(shelves@);
            let group = Group { title: title_of_shelf(dirs[k].as_str()), entries: matched };
            shelves.push(group);
            assert(group_views(shelves@) =~= was.push(group@));
        }
    }
    assert(all.take(all.len() as int) =~= all);
    if left.len() > 0 {
        let ghost was = group_views(shelves@);
        let group = Group { title: "Library".to_owned(), entries: left };
        shelves.push(group);
        assert(group_views(shelves@) =~= was.push(group@));
    }
    shelves
}

impl App {
    /// What the library shows: the series to continue with, and below them all
    /// series, by folder if there are library folders.
    pub fn view_library(&self) -> (r: LibraryScreen)
        ensures
            r.recent@ == recent_of(self@.library_entries),
            if self@.library_entries.len() == 0 {
                r.shelves is Nothing
            } else if self@.library_dirs.len() == 0 {
                r.shelves is Together
            } else {
                r.shelves matches Shelves::Grouped(groups) && group_views(groups@) == all_shelves(
                    self@.library_entries,
                    self@.library_dirs,
                )
            },
    {
        reveal(App::model);
        let recent = find_recent(&self.library_entries);
        let shelves = if self.library_entries.len() == 0 {
            Shelves::Nothing
        } else if self.library_dirs.len() == 0 {
            Shelves::Together
        } else {
            Shelves::Grouped(group_by_folder(&self.library_entries, &self.library_dirs))
        };
        LibraryScreen { recent, shelves }
    }
}

/// How many series stand side by side.
pub const GRID_WIDTH: usize = 5;

/// The rows of a grid of series: five in each, and the rest in the last.
pub open spec fn grid_rows(places: Seq<usize>) -> Seq<Seq<usize>>
    decreases places.len(),
{
    if places.len() == 0 {
        Seq::empty()
    } else if places.len() <= GRID_WIDTH {
        seq![places]
    } else {
        seq![places.take(GRID_WIDTH as int)] + grid_rows(places.skip(GRID_WIDTH as int))
    }
}

/// The rows of a grid, one after the other, hold what was put into it.
pub proof fn grid_rows_hold_all(places: Seq<usize>)
    ensures
        grid_rows(places).flatten() == places,
    decreases places.len(),
{
    let rows = grid_rows(places);
    if places.len() == 0 {
        assert(rows.flatten() =~= places);
    } else if places.len() <= GRID_WIDTH {
        reveal_with_fuel(Seq::<_>::flatten, 2);
        assert(rows.drop_first() =~= Seq::empty());
        assert(rows.flatten() =~= places);
    } else {
        let tail = places.skip(GRID_WIDTH as int);
        grid_rows_hold_all(tail);
        assert(rows.drop_first() =~= grid_rows(tail));
        assert(rows.flatten() =~= places.take(GRID_WIDTH as int) + tail);
        assert(places.take(GRID_WIDTH as int) + tail =~= places);
    }
}

/// Every row of a grid holds five series, but for the last, which holds the one to
/// five that are left.
pub proof fn grid_rows_are_full(places: Seq<usize>, i: int)
    requires
        0 <= i < grid_rows(places).len(),
    ensures
        i < grid_rows(places).len() - 1 ==> grid_rows(places)[i].len() == 5,
        1 <= grid_rows(places)[i].len() <= 5,
        5 * i < places.len(),
        i < grid_rows(places).len() - 1 ==> 5 * i + 5 <= places.len(),
        grid_rows(places)[i] == places.subrange(
            5 * i,
            if i < grid_rows(places).len() - 1 {
                5 * i + 5
            } else {
                places.len() as int
            },
        ),
    decreases places.len(),
{
    let rows = grid_rows(places);
    if places.len() <= GRID_WIDTH {
        assert(places.subrange(0, places.len() as int) =~= places);
    } else if i == 0 {
        let tail = places.skip(GRID_WIDTH as int);
        assert(grid_rows(tail).len() > 0);
        assert(places.subrange(0, 5) =~= places.take(GRID_WIDTH as int));
    } else {
        let tail = places.skip(GRID_WIDTH as int);
        grid_rows_are_full(tail, i - 1);
        assert(rows[i] == grid_rows(tail)[i - 1]);
        let end = if i < rows.len() - 1 {
            5 * i + 5
        } else {
            places.len() as int
        };
        assert(tail.subrange(5 * (i - 1), end - 5) =~= places.subrange(5 * i, end));
    }
}

/// The rows of a grid of series.
pub fn series_grid(places: &Vec<usize>) -> (r: Vec<Vec<usize>>)
    ensures
        r@.map_values(|v: Vec<usize>| v@) == grid_rows(places@),
{
    let ghost rows = |v: Vec<usize>| v@;
    let mut r: Vec<Vec<usize>> = Vec::new();
    let mut at: usize = 0;
    assert(r@.map_values(rows) + grid_rows(places@.skip(0)) =~= grid_rows(places@)) by {
        assert(places@.skip(0) =~= places@);
    }
    while at < places.len()
        invariant
            at <= places@.len(),
            rows == |v: Vec<usize>| v@,
            r@.map_values(rows) + grid_rows(places@.skip(at as int)) == grid_rows(places@),
        decreases places@.len() - at,
    {
        let ghost left = places@.skip(at as int);
        let ghost was = r@;
        let end: usize = if places.len() - at <= GRID_WIDTH {
            places.len()
        } else {
            at + GRID_WIDTH
        };
        let mut row: Vec<usize> = Vec::new();
        for k in at..end
            invariant
                at <= end <= places@.len(),
                row@ == places@.subrange(at as int, k as int),
        {
            row.push(places[k]);
            assert(row@ =~= places@.subrange(at as int, k + 1));
        }
        r.push(row);
        assert(r@.map_values(rows) =~= was.map_values(rows).push(row@));
        assert(left.skip(end - at) =~= places@.skip(end as int));
        assert(row@ =~= left.take(end - at));
        assert(left.len() <= GRID_WIDTH ==> row@ =~= left && places@.skip(end as int)
            =~= Seq::empty());
        assert(r@.map_values(rows) + grid_rows(places@.skip(end as int)) =~= was.map_values(rows)
            + grid_rows(left));
        at = end;
    }
    assert(places@.skip(at as int) =~= Seq::empty());
    assert(r@.map_values(rows) =~= grid_rows(places@));
    r
}

/// What a series' card shows: its title, where it was left, and whether its
/// cover is at hand.
#[derive(Clone, Debug)]
pub struct Card {
    pub title: String,
    pub progress: Option<String>,
    pub has_cover: bool,
}

/// Where a series was left: the chapter of a folder of chapters, or the page.
pub open spec fn left_at(entry: SeriesEntry) -> Seq<char> {
    if entry.is_series {
        "Ch."@ + decimal(entry.last_read_chapter as nat + 1)
    } else {
        "P."@ + decimal(entry.last_read_page as nat + 1)
    }
}

/// The number on a series' card, read back, is one more than the chapter at which a
/// series was left, or than the page at which a single comic was left; nothing else
/// about the entry matters.
pub proof fn a_card_counts_from_one(entry: SeriesEntry)
    ensures
        ({
            let mark = if entry.is_series {
                seq!['C', 'h', '.']
            } else {
                seq!['P', '.']
            };
            let place = if entry.is_series {
                entry.last_read_chapter
            } else {
                entry.last_read_page
            };
            let t = left_at(entry);
            let number = t.skip(mark.len() as int);
            t.take(mark.len() as int) == mark && all_digits(number) && decimal_value(number)
                == place + 1
        }),
{
    reveal_strlit("Ch.");
    reveal_strlit("P.");
    let place = if entry.is_series {
        entry.last_read_chapter
    } else {
        entry.last_read_page
    };
    decimal_reads_back(place as nat + 1);
    let d = decimal(place as nat + 1);
    let t = left_at(entry);
    if entry.is_series {
        assert(t.take(3) =~= seq!['C', 'h', '.']);
        assert(t.skip(3) =~= d);
    } else {
        assert(t.take(2) =~= seq!['P', '.']);
        assert(t.skip(2) =~= d);
    }
}

impl App {
    /// What a series' card shows; where it was left, only if that is wanted and
    /// the series has pages.
    pub fn series_card(&self, entry: &SeriesEntry, show_progress: bool) -> (r: Card)
        ensures
            r.title@ == shortened(entry.title@, 22, 20),
            match r.progress {
                Some(t) => show_progress && entry.total_pages > 0 && t@ == left_at(*entry),
                None => !show_progress || entry.total_pages == 0,
            },
            r.has_cover == self@.library_covers.contains(entry.id),
    {
        let title = shorten(entry.title.as_str(), 22, 20);
        let progress = if show_progress && entry.total_pages > 0 {
            let mut t = if entry.is_series {
                "Ch.".to_owned()
            } else {
                "P.".to_owned()
            };
            let number = if entry.is_series {
                counted_text(entry.last_read_chapter)
            } else {
                counted_text(entry.last_read_page)
            };
            t.append(number.as_str());
            Some(t)
        } else {
            None
        };
        Card { title, progress, has_cover: self.has_cover(entry.id) }
    }
}

// ── Laws ─────────────────────────────────────────────────────────────────────

/// The reader shows the chapter of a book that is open; of a comic the current page once it
/// is decoded, alone or with the next one, or zoomed; until then that it is being decoded,
/// with a page that is at hand in its place.
pub proof fn the_reader_shows_the_current_page(m: Model, s: Screen)
    requires
        shows(m, s),
    ensures
        m.epub_book is Some && 0 <= m.epub_chapter < m.epub_book->0.chapters@.len() ==> s
            == Screen::Book(Some(m.epub_chapter as usize)),
        m.epub_book is Some && m.epub_chapter >= m.epub_book->0.chapters@.len() ==> s
            == Screen::Book(None),
        m.epub_book is None && m.sources.len() > 0 && m.cache.contains(m.current_page as usize)
            && m.zoom_active ==> s == Screen::Zoomed(m.current_page as usize),
        m.epub_book is None && m.sources.len() > 0 && m.cache.contains(m.current_page as usize)
            && !m.zoom_active && m.layout == Layout::Single ==> s == Screen::Single(
            m.current_page as usize,
        ),
        m.epub_book is None && m.sources.len() > 0 && m.cache.contains(m.current_page as usize)
            && !m.zoom_active && m.layout == Layout::Dual ==> s is Spread && s->left
            == m.current_page as usize && (m.current_page + 1 >= m.sources.len() ==> s->right
            == RightPage::Nothing) && (m.current_page + 1 < m.sources.len() && m.cache.contains(
            (m.current_page + 1) as usize,
        ) ==> s->right == RightPage::Page((m.current_page + 1) as usize)) && (m.current_page + 1
            < m.sources.len() && !m.cache.contains((m.current_page + 1) as usize) ==> s->right
            == RightPage::Waiting),
        m.epub_book is None && m.sources.len() > 0 && !m.cache.contains(m.current_page as usize)
            ==> s is Decoding && match s->Decoding_0 {
            None => m.cache =~= Set::<usize>::empty(),
            Some(i) => m.cache.contains(i) && forall|j: usize| #[trigger]
                m.cache.contains(j) ==> (if i < m.current_page {
                    m.current_page - i
                } else {
                    i - m.current_page
                }) <= (if j < m.current_page {
                    m.current_page - j
                } else {
                    j - m.current_page
                }),
        },
        m.epub_book is None && m.sources.len() == 0 ==> s == (if m.loading {
            Screen::Loading
        } else {
            Screen::Empty
        }),
{
}

/// Headings are the larger the higher their level is, and never smaller than the text of
/// quotes.
pub proof fn higher_headings_are_larger(level: u8)
    ensures
        1 <= level <= 6 ==> heading_size(level) == seq![28u16, 24, 20, 18, 16, 15][level - 1],
        1 <= level <= 5 ==> heading_size(level) > heading_size((level + 1) as u8),
        level == 0 || level > 6 ==> heading_size(level) == heading_size(6),
{
}

/// A line in the list of chapters tells the chapter's number, counted from one, its name
/// and how many pages it has; the chapter of the current page stands out.
pub proof fn chapter_lines_tell_their_chapter(m: Model, row: ChapterRow, i: int)
    requires
        0 <= i < m.chapters.len(),
        row_of_chapter(m, row, i),
    ensures
        row.number@ == "Chapter "@ + decimal((i + 1) as nat),
        m.chapters[i].name.len() <= 30 ==> row.name@ == m.chapters[i].name,
        m.chapters[i].name.len() > 30 ==> row.name@ == m.chapters[i].name.take(28) + "…"@,
        row.pages@ == decimal(m.chapters[i].page_count) + " pages"@,
        row.current ==> m.chapters[i].start <= m.current_page < m.chapters[i].start
            + m.chapters[i].page_count,
        m.chapters[i].start <= m.current_page < m.chapters[i].start + m.chapters[i].page_count && (
        forall|j: int|
            0 <= j < i ==> !((#[trigger] m.chapters[j]).start <= m.current_page
                < m.chapters[j].start + m.chapters[j].page_count)) ==> row.current && row.size
            == 14,
        !row.current ==> row.size == 13,
        row.has_cover <==> m.chapter_covers.contains(i as usize),
{
    crate::laws::first_chapter_of(m.chapters, m.current_page, 0, i);
    found_chapter_holds(m.chapters, m.current_page, 0);
}

/// The chapter that is found holds the page.
proof fn found_chapter_holds(
    chapters: Seq<crate::comic::ChapterView>,
    page: int,
    from: int,
)
    ensures
        chapter_of(chapters, page, from) matches Some(i) ==> 0 <= i < chapters.len()
            && chapters[i].start <= page < chapters[i].start + chapters[i].page_count,
    decreases chapters.len() - from,
{
    if 0 <= from < chapters.len() {
        found_chapter_holds(chapters, page, from + 1);
    }
}

/// The shelves stand in the order of the library's folders: the shelf of a series stands
/// ahead of that of another whose folder comes later in the list.
pub proof fn shelves_stand_in_the_order_of_the_folders(
    entries: Seq<SeriesEntry>,
    dirs: Seq<Seq<char>>,
    p: usize,
    k: int,
    q: usize,
    l: int,
)
    requires
        p < entries.len() <= usize::MAX,
        q < entries.len(),
        0 <= k < l < dirs.len(),
        lies_under(entries[p as int].path@, dirs[k]),
        lies_under(entries[q as int].path@, dirs[l]),
        forall|j: int| 0 <= j < k ==> !lies_under(entries[p as int].path@, #[trigger] dirs[j]),
        forall|j: int| 0 <= j < l ==> !lies_under(entries[q as int].path@, #[trigger] dirs[j]),
    ensures
        exists|g: int, h: int|
            0 <= g < h < all_shelves(entries, dirs).len() && (#[trigger] all_shelves(
                entries,
                dirs,
            )[g]).entries.contains(p) && (#[trigger] all_shelves(
                entries,
                dirs,
            )[h]).entries.contains(q),
{
    let (g, h) = shelves_in_order(entries, dirs, p, k, q, l);
    let shelves = shelved(entries, dirs).0;
    let all = all_shelves(entries, dirs);
    assert(all[g] == shelves[g] && all[h] == shelves[h]);
}

/// The shelves of folders stand in their order.
proof fn shelves_in_order(
    entries: Seq<SeriesEntry>,
    dirs: Seq<Seq<char>>,
    p: usize,
    k: int,
    q: usize,
    l: int,
) -> (r: (int, int))
    requires
        p < entries.len() <= usize::MAX,
        q < entries.len(),
        0 <= k < l < dirs.len(),
        lies_under(entries[p as int].path@, dirs[k]),
        lies_under(entries[q as int].path@, dirs[l]),
        forall|j: int| 0 <= j < k ==> !lies_under(entries[p as int].path@, #[trigger] dirs[j]),
        forall|j: int| 0 <= j < l ==> !lies_under(entries[q as int].path@, #[trigger] dirs[j]),
    ensures
        0 <= r.0 < r.1 < shelved(entries, dirs).0.len(),
        shelved(entries, dirs).0[r.0].entries.contains(p),
        shelved(entries, dirs).0[r.1].entries.contains(q),
    decreases dirs.len(),
{
    let few = dirs.drop_last();
    let (before, rest) = shelved(entries, few);
    let shelves = shelved(entries, dirs).0;
    assert forall|j: int| 0 <= j < few.len() implies few[j] == dirs[j] by {}
    if l < few.len() {
        assert forall|j: int| 0 <= j < k implies !lies_under(
            entries[p as int].path@,
            #[trigger] few[j],
        ) by {
            assert(few[j] == dirs[j]);
        }
        assert forall|j: int| 0 <= j < l implies !lies_under(
            entries[q as int].path@,
            #[trigger] few[j],
        ) by {
            assert(few[j] == dirs[j]);
        }
        let (g, h) = shelves_in_order(entries, few, p, k, q, l);
        assert(shelves[g] == before[g] && shelves[h] == before[h]);
        (g, h)
    } else {
        let matched = sorted_out(rest, entries, dirs.last(), true);
        shelved_is(entries, few, p);
        shelved_is(entries, few, q);
        assert(lies_under(entries[p as int].path@, few[k]));
        assert(!claimed(entries, few, k, p)) by {
            if claimed(entries, few, k, p) {
                let j = choose|j: int|
                    0 <= j < k && lies_under(entries[p as int].path@, #[trigger] few[j]);
                assert(few[j] == dirs[j]);
            }
        }
        let g = choose|g: int|
            0 <= g < before.len() && (#[trigger] before[g]).title == shelf_title(few[k])
                && before[g].entries.contains(p);
        assert(!claimed(entries, few, few.len() as int, q)) by {
            if claimed(entries, few, few.len() as int, q) {
                let j = choose|j: int|
                    0 <= j < few.len() && lies_under(entries[q as int].path@, #[trigger] few[j]);
                assert(few[j] == dirs[j]);
            }
        }
        assert(rest.contains(q));
        sorted_out_is(rest, entries, dirs.last(), true, q);
        assert(matched.contains(q));
        assert(shelves[g] == before[g]);
        assert(shelves[before.len() as int].entries == matched);
        (g, before.len() as int)
    }
}

} // verus!
