//! What the window shows: the header, the drawer's panels and the lists, as
//! plain items that a toolkit can draw.
use crate::app::{chapter_of, App, AppView, ContextPage, Layout, Model};
use crate::comicinfo::{nothing_in, ComicInfo, InfoView};
use crate::comicvine::ComicVineMatch;
use crate::epub::EpubBook;
use crate::metadata::{ParsedFilename, ParsedView, SeriesMetadata};
use crate::number::{counted_text, decimal, decimal_text, signed_decimal, signed_text};
use crate::settings::Settings;
use crate::text::{chars_of, concat3, join, join_texts, opt_text, shorten, shortened, text_copy, texts};
use vstd::prelude::*;

verus! {

/// What pressing an item means.
#[derive(Clone, Copy, Debug, PartialEq, Eq, Structural)]
pub enum Press {
    GoToLibrary,
    OpenFile,
    OpenFolder,
    AddLibraryFolder,
    ToggleSettings,
    ToggleInfo,
    ToggleFullscreen,
    ToggleChapterSelect,
    ToggleLayout,
    ToggleTheater,
    ToggleZoom,
    ToggleFetch,
    PrevPage,
    NextPage,
    CopyPage,
    FitPage,
    SubmitPath,
}

/// Something that is shown.
pub enum Item {
    /// A title.
    Title(String),
    /// A text of the given size.
    Text { text: String, size: u16 },
    /// A text of the usual size.
    Label(String),
    /// A button with an icon.
    Icon { icon: String, press: Press },
    /// A button with a label.
    Button { label: String, press: Press },
    /// A button with a label that stands out.
    Suggested { label: String, press: Press },
    /// The field for searching the library, with what is in it.
    Search(String),
    /// A line between items.
    Divider,
    /// A sign that something is on its way.
    Spinner,
    /// The cover of the ComicVine match, or of the book.
    Cover,
    /// A text that can be scrolled.
    Scroll(String),
    /// The title of a section of settings.
    Section(String),
    /// The choice of the background, with the place of the one that is chosen.
    BackgroundChoice(usize),
    /// The slider for the opacity of the background.
    OpacitySlider,
    /// A switch.
    Toggle { label: String, on: bool, press: Press },
    /// A library folder, with a button to remove it.
    Folder(String),
    /// The field for a folder's path, with what is in it.
    PathInput(String),
}

/// The model of an item.
pub enum ItemView {
    Title(Seq<char>),
    Text { text: Seq<char>, size: u16 },
    Label(Seq<char>),
    Icon { icon: Seq<char>, press: Press },
    Button { label: Seq<char>, press: Press },
    Suggested { label: Seq<char>, press: Press },
    Search(Seq<char>),
    Divider,
    Spinner,
    Cover,
    Scroll(Seq<char>),
    Section(Seq<char>),
    BackgroundChoice(nat),
    OpacitySlider,
    Toggle { label: Seq<char>, on: bool, press: Press },
    Folder(Seq<char>),
    PathInput(Seq<char>),
}

impl View for Item {
    type V = ItemView;

    open spec fn view(&self) -> ItemView {
        match self {
            Item::Title(t) => ItemView::Title(t@),
            Item::Text { text, size } => ItemView::Text { text: text@, size: *size },
            Item::Label(t) => ItemView::Label(t@),
            Item::Icon { icon, press } => ItemView::Icon { icon: icon@, press: *press },
            Item::Button { label, press } => ItemView::Button { label: label@, press: *press },
            Item::Suggested { label, press } => ItemView::Suggested { label: label@, press: *press },
            Item::Search(t) => ItemView::Search(t@),
            Item::Divider => ItemView::Divider,
            Item::Spinner => ItemView::Spinner,
            Item::Cover => ItemView::Cover,
            Item::Scroll(t) => ItemView::Scroll(t@),
            Item::Section(t) => ItemView::Section(t@),
            Item::BackgroundChoice(i) => ItemView::BackgroundChoice(*i as nat),
            Item::OpacitySlider => ItemView::OpacitySlider,
            Item::Toggle { label, on, press } => ItemView::Toggle {
                label: label@,
                on: *on,
                press: *press,
            },
            Item::Folder(t) => ItemView::Folder(t@),
            Item::PathInput(t) => ItemView::PathInput(t@),
        }
    }
}

/// The models of items.
pub open spec fn item_views(v: Seq<Item>) -> Seq<ItemView> {
    v.map_values(|i: Item| i@)
}

/// No items.
fn no_items() -> (r: Vec<Item>)
    ensures
        item_views(r@) == Seq::<ItemView>::empty(),
{
    let r: Vec<Item> = Vec::new();
    assert(item_views(r@) =~= Seq::empty());
    r
}

/// Adds an item.
fn put(out: &mut Vec<Item>, item: Item)
    ensures
        item_views(final(out)@) == item_views(old(out)@).push(item@),
{
    let ghost was = item_views(out@);
    out.push(item);
    assert(item_views(out@) =~= was.push(item@));
}

/// Adds items.
fn put_all(out: &mut Vec<Item>, items: Vec<Item>)
    ensures
        item_views(final(out)@) == item_views(old(out)@) + item_views(items@),
{
    let ghost was = out@;
    let ghost more = items@;
    let mut items = items;
    out.append(&mut items);
    assert(item_views(out@) =~= item_views(was) + item_views(more));
}

/// A button with an icon.
fn icon(name: &str, press: Press) -> (r: Item)
    ensures
        r@ == (ItemView::Icon { icon: name@, press }),
{
    Item::Icon { icon: text_copy(name), press }
}

/// A line of the given size: a text behind a caption.
pub open spec fn line(caption: Seq<char>, text: Seq<char>, size: u16) -> ItemView {
    ItemView::Text { text: caption + text, size }
}

/// A line, where there is something to show.
pub open spec fn line_if(caption: Seq<char>, text: Option<Seq<char>>, size: u16) -> Seq<ItemView> {
    match text {
        Some(t) => seq![line(caption, t, size)],
        None => Seq::empty(),
    }
}

/// Adds a line.
fn put_line(out: &mut Vec<Item>, caption: &str, text: &str, size: u16)
    ensures
        item_views(final(out)@) == item_views(old(out)@).push(line(caption@, text@, size)),
{
    let mut t = text_copy(caption);
    t.append(text);
    put(out, Item::Text { text: t, size });
}

/// Adds a line, where there is something to show.
fn put_line_if(out: &mut Vec<Item>, caption: &str, text: &Option<String>, size: u16)
    ensures
        item_views(final(out)@) == item_views(old(out)@) + line_if(caption@, opt_text(*text), size),
{
    let ghost was = item_views(out@);
    match text {
        Some(t) => {
            put_line(out, caption, t.as_str(), size);
        },
        None => {},
    }
    assert(item_views(out@) =~= was + line_if(caption@, opt_text(*text), size));
}

/// A text of the given size.
fn text_item(t: &str, size: u16) -> (r: Item)
    ensures
        r@ == (ItemView::Text { text: t@, size }),
{
    Item::Text { text: text_copy(t), size }
}

// ── The header ───────────────────────────────────────────────────────────────

/// The start of the header: the way back to the library.
pub open spec fn header_start_of(m: Model) -> Seq<ItemView> {
    if m.app_view == AppView::Reader {
        seq![ItemView::Icon { icon: "go-home-symbolic"@, press: Press::GoToLibrary }]
    } else {
        Seq::empty()
    }
}

/// The controls that comics and books share.
pub open spec fn common_controls(m: Model) -> Seq<ItemView> {
    seq![
        ItemView::Icon { icon: "zoom-fit-best-symbolic"@, press: Press::FitPage },
        ItemView::Icon { icon: "dialog-information-symbolic"@, press: Press::ToggleInfo },
        ItemView::Icon {
            icon: if m.fullscreen {
                "view-restore-symbolic"@
            } else {
                "view-fullscreen-symbolic"@
            },
            press: Press::ToggleFullscreen,
        },
        ItemView::Icon { icon: "emblem-system-symbolic"@, press: Press::ToggleSettings },
        ItemView::Divider,
        ItemView::Icon { icon: "document-open-symbolic"@, press: Press::OpenFile },
    ]
}

/// The controls of the library.
pub open spec fn library_controls(m: Model) -> Seq<ItemView> {
    seq![
        ItemView::Search(m.library_search),
        ItemView::Button { label: "Open File"@, press: Press::OpenFile },
        ItemView::Button { label: "Add Series"@, press: Press::OpenFolder },
        ItemView::Suggested { label: "Add Library Folder"@, press: Press::AddLibraryFolder },
        ItemView::Icon { icon: "emblem-system-symbolic"@, press: Press::ToggleSettings },
    ]
}

/// The buttons for turning pages, with a counter between them.
pub open spec fn page_turner(counter: Seq<char>) -> Seq<ItemView> {
    seq![
        ItemView::Icon { icon: "go-previous-symbolic"@, press: Press::PrevPage },
        ItemView::Label(counter),
        ItemView::Icon { icon: "go-next-symbolic"@, press: Press::NextPage },
        ItemView::Divider,
    ]
}

/// The controls of a book.
pub open spec fn book_controls(m: Model, book: EpubBook) -> Seq<ItemView> {
    page_turner(
        "Chapter "@ + decimal((m.epub_chapter + 1) as nat) + " / "@ + decimal(
            book.chapters@.len(),
        ),
    ) + (if book.chapters@.len() > 1 {
        seq![
            ItemView::Button {
                label: if m.show_chapter_select {
                    "Chapters ▾"@
                } else {
                    "Chapters"@
                },
                press: Press::ToggleChapterSelect,
            },
        ]
    } else {
        Seq::empty()
    })
}

/// Where the reader is in a comic: the page within its chapter, and the chapter
/// if there are several.
pub open spec fn page_counter(m: Model) -> Seq<char> {
    match chapter_of(m.chapters, m.current_page, 0) {
        Some(i) => {
            let page = decimal((m.current_page - m.chapters[i].start + 1) as nat) + " / "@
                + decimal(m.chapters[i].page_count);
            if m.chapters.len() == 1 {
                page
            } else {
                "Ch."@ + decimal((i + 1) as nat) + "  ·  "@ + page
            }
        },
        None => decimal((m.current_page + 1) as nat) + " / "@ + decimal(m.sources.len()),
    }
}

/// The controls of a comic.
pub open spec fn comic_controls(m: Model) -> Seq<ItemView> {
    if m.sources.len() == 0 {
        Seq::empty()
    } else {
        page_turner(page_counter(m)) + (if m.chapters.len() > 1 {
            seq![ItemView::Icon { icon: "view-list-symbolic"@, press: Press::ToggleChapterSelect }]
        } else {
            Seq::empty()
        }) + seq![
            ItemView::Icon { icon: "view-dual-symbolic"@, press: Press::ToggleLayout },
            ItemView::Icon { icon: "zoom-in-symbolic"@, press: Press::ToggleZoom },
            ItemView::Icon { icon: "edit-copy-symbolic"@, press: Press::CopyPage },
            ItemView::Divider,
        ]
    }
}

/// The end of the header.
pub open spec fn header_end_of(m: Model) -> Seq<ItemView> {
    match m.app_view {
        AppView::Library => library_controls(m),
        AppView::Reader => (match m.epub_book {
            Some(book) => book_controls(m, book),
            None => comic_controls(m),
        }) + common_controls(m),
    }
}

impl App {
    /// The start of the header.
    pub fn header_start(&self) -> (r: Vec<Item>)
        ensures
            item_views(r@) == header_start_of(self@),
    {
        let mut out = no_items();
        if self.in_reader() {
            put(&mut out, icon("go-home-symbolic", Press::GoToLibrary));
        }
        assert(item_views(out@) =~= header_start_of(self@));
        out
    }

    /// The controls that comics and books share.
    fn reader_common_controls(&self) -> (r: Vec<Item>)
        ensures
            item_views(r@) == common_controls(self@),
    {
        reveal(App::model);
        let mut out = no_items();
        put(&mut out, icon("zoom-fit-best-symbolic", Press::FitPage));
        put(&mut out, icon("dialog-information-symbolic", Press::ToggleInfo));
        if self.fullscreen {
            put(&mut out, icon("view-restore-symbolic", Press::ToggleFullscreen));
        } else {
            put(&mut out, icon("view-fullscreen-symbolic", Press::ToggleFullscreen));
        }
        put(&mut out, icon("emblem-system-symbolic", Press::ToggleSettings));
        put(&mut out, Item::Divider);
        put(&mut out, icon("document-open-symbolic", Press::OpenFile));
        assert(item_views(out@) =~= common_controls(self@));
        out
    }

    /// The controls of the library.
    fn library_header(&self) -> (r: Vec<Item>)
        ensures
            item_views(r@) == library_controls(self@),
    {
        reveal(App::model);
        let mut out = no_items();
        put(&mut out, Item::Search(self.library_search.clone()));
        put(
            &mut out,
            Item::Button { label: "Open File".to_owned(), press: Press::OpenFile },
        );
        put(
            &mut out,
            Item::Button { label: "Add Series".to_owned(), press: Press::OpenFolder },
        );
        put(
            &mut out,
            Item::Suggested {
                label: "Add Library Folder".to_owned(),
                press: Press::AddLibraryFolder,
            },
        );
        put(&mut out, icon("emblem-system-symbolic", Press::ToggleSettings));
        assert(item_views(out@) =~= library_controls(self@));
        out
    }

    /// The controls of a book.
    fn book_header(&self, book: &EpubBook) -> (r: Vec<Item>)
        ensures
            item_views(r@) == book_controls(self@, *book),
    {
        reveal(App::model);
        let number = counted_text(self.epub_chapter);
        let total = decimal_text(book.chapters.len() as u128);
        let mut counter = concat3("Chapter ", number.as_str(), " / ");
        counter.append(total.as_str());
        let mut out = turner(counter);
        let ghost front = item_views(out@);
        if book.chapters.len() > 1 {
            let label = if self.show_chapter_select {
                "Chapters ▾".to_owned()
            } else {
                "Chapters".to_owned()
            };
            put(&mut out, Item::Button { label, press: Press::ToggleChapterSelect });
        }
        assert(item_views(out@) =~= book_controls(self@, *book));
        out
    }

    /// Where the reader is in a comic.
    fn counter(&self) -> (r: String)
        ensures
            r@ == page_counter(self@),
    {
        let here = self.current_chapter();
        reveal(App::model);
        match here {
            Some((i, page)) => {
                assert(self@.chapters[i as int] == self.chapters@[i as int]@);
                let number = counted_text(page);
                let total = decimal_text(self.chapters[i].page_count as u128);
                let place = concat3(number.as_str(), " / ", total.as_str());
                if self.chapters.len() == 1 {
                    place
                } else {
                    let chapter = counted_text(i);
                    let mut t = concat3("Ch.", chapter.as_str(), "  ·  ");
                    t.append(place.as_str());
                    t
                }
            },
            None => {
                let number = counted_text(self.current_page);
                let total = decimal_text(self.sources.len() as u128);
                concat3(number.as_str(), " / ", total.as_str())
            },
        }
    }

    /// The controls of a comic.
    fn comic_header(&self) -> (r: Vec<Item>)
        ensures
            item_views(r@) == comic_controls(self@),
    {
        if self.page_count() == 0 {
            return no_items();
        }
        let counter = self.counter();
        let mut out = turner(counter);
        if self.chapter_count() > 1 {
            put(&mut out, icon("view-list-symbolic", Press::ToggleChapterSelect));
        }
        put(&mut out, icon("view-dual-symbolic", Press::ToggleLayout));
        put(&mut out, icon("zoom-in-symbolic", Press::ToggleZoom));
        put(&mut out, icon("edit-copy-symbolic", Press::CopyPage));
        put(&mut out, Item::Divider);
        assert(item_views(out@) =~= comic_controls(self@));
        out
    }

    /// What is open, if it is a book.
    fn book(&self) -> (r: Option<&EpubBook>)
        ensures
            match r {
                Some(b) => self@.epub_book == Some(*b),
                None => self@.epub_book is None,
            },
    {
        reveal(App::model);
        match &self.epub_book {
            Some(b) => Some(b),
            None => None,
        }
    }

    /// The end of the header.
    pub fn header_end(&self) -> (r: Vec<Item>)
        ensures
            item_views(r@) == header_end_of(self@),
    {
        if !self.in_reader() {
            return self.library_header();
        }
        let mut out = match self.book() {
            Some(book) => self.book_header(book),
            None => self.comic_header(),
        };
        put_all(&mut out, self.reader_common_controls());
        out
    }
}

/// The buttons for turning pages, with a counter between them.
fn turner(counter: String) -> (r: Vec<Item>)
    ensures
        item_views(r@) == page_turner(counter@),
{
    let mut out = no_items();
    put(&mut out, icon("go-previous-symbolic", Press::PrevPage));
    put(&mut out, Item::Label(counter));
    put(&mut out, icon("go-next-symbolic", Press::NextPage));
    put(&mut out, Item::Divider);
    assert(item_views(out@) =~= page_turner(counter@));
    out
}

// ── The drawer ───────────────────────────────────────────────────────────────

/// A panel of the drawer.
#[derive(Clone, Copy, Debug, PartialEq, Eq, Structural)]
pub enum Panel {
    Settings,
    ComicInfo,
    BookInfo,
}

impl Panel {
    /// The title of a panel.
    pub fn title(self) -> (r: &'static str)
        ensures
            r@ == (if self == Panel::Settings {
                "Settings"@
            } else {
                "Details"@
            }),
    {
        match self {
            Panel::Settings => "Settings",
            Panel::ComicInfo => "Details",
            Panel::BookInfo => "Details",
        }
    }
}

/// The panel that the drawer shows, if it is open.
pub open spec fn panel_of(m: Model) -> Option<Panel> {
    if !m.show_context {
        None
    } else {
        match m.context_page {
            ContextPage::Settings => Some(Panel::Settings),
            ContextPage::Info => if m.epub_book is Some {
                Some(Panel::BookInfo)
            } else {
                Some(Panel::ComicInfo)
            },
        }
    }
}

impl App {
    /// The panel that the drawer shows, if it is open.
    pub fn context_drawer(&self) -> (r: Option<Panel>)
        ensures
            r == panel_of(self@),
    {
        reveal(App::model);
        if !self.show_context {
            return None;
        }
        match self.context_page {
            ContextPage::Settings => Some(Panel::Settings),
            ContextPage::Info => {
                if self.epub_book.is_some() {
                    Some(Panel::BookInfo)
                } else {
                    Some(Panel::ComicInfo)
                }
            },
        }
    }
}

// ── Details of a comic ───────────────────────────────────────────────────────

/// The chapter and the page.
pub open spec fn place_lines(m: Model) -> Seq<ItemView> {
    match chapter_of(m.chapters, m.current_page, 0) {
        Some(i) => seq![
            ItemView::Title(
                if m.chapters.len() == 1 {
                    m.chapters[i].name
                } else {
                    "Chapter "@ + decimal((i + 1) as nat) + " — "@ + m.chapters[i].name
                },
            ),
            ItemView::Text {
                text: "Page "@ + decimal((m.current_page - m.chapters[i].start + 1) as nat)
                    + " of "@ + decimal(m.chapters[i].page_count),
                size: 13,
            },
            ItemView::Divider,
        ],
        None => Seq::empty(),
    }
}

/// What a comic's own description says, where it says something.
pub open spec fn described_lines(info: Option<InfoView>) -> Seq<ItemView> {
    match info {
        Some(i) => if nothing_in(i) {
            Seq::empty()
        } else {
            seq![ItemView::Title("ComicInfo.xml"@)] + line_if("Series: "@, i.series, 12) + line_if(
                "Number: "@,
                i.number,
                12,
            ) + line_if("Volume: "@, i.volume, 12) + line_if(
                "Year: "@,
                match i.year {
                    Some(y) => Some(signed_decimal(y)),
                    None => None,
                },
                12,
            ) + line_if("Publisher: "@, i.publisher, 12) + line_if("Writer: "@, i.writer, 12)
                + line_if("Genre: "@, i.genre, 12) + seq![ItemView::Divider]
        },
        None => Seq::empty(),
    }
}

/// A number as text, or a dash.
pub open spec fn number_or_dash(n: Option<nat>) -> Seq<char> {
    match n {
        Some(v) => decimal(v),
        None => "—"@,
    }
}

/// What the file name says.
pub open spec fn parsed_lines(parsed: Option<ParsedView>) -> Seq<ItemView> {
    seq![ItemView::Title("Debug: Metadata Matching"@)] + (match parsed {
        Some(p) => seq![
            line("Parsed series: "@, p.series, 12),
            line("Parsed issue: "@, number_or_dash(p.issue), 12),
            line("Parsed year: "@, number_or_dash(p.year), 12),
        ],
        None => Seq::empty(),
    }) + seq![ItemView::Divider]
}

/// A line for a text that is not empty.
pub open spec fn line_unless_empty(caption: Seq<char>, text: Seq<char>, size: u16) -> Seq<
    ItemView,
> {
    if text.len() == 0 {
        Seq::empty()
    } else {
        seq![line(caption, text, size)]
    }
}

/// A number, where there is one, as text with something behind it.
pub open spec fn number_and(n: Option<u32>, behind: Seq<char>) -> Option<Seq<char>> {
    match n {
        Some(v) => Some(decimal(v as nat) + behind),
        None => None,
    }
}

/// What AniList knows of a series.
pub open spec fn series_lines(meta: SeriesMetadata) -> Seq<ItemView> {
    seq![ItemView::Text { text: meta.title@, size: 13 }] + line_unless_empty(
        "Status: "@,
        meta.status@,
        12,
    ) + line_if("Chapters: "@, number_and(meta.chapter_count, Seq::empty()), 12) + line_if(
        "Score: "@,
        number_and(meta.score, "/100"@),
        12,
    ) + (if meta.genres@.len() == 0 {
        Seq::empty()
    } else {
        seq![line("Genres: "@, join(texts(meta.genres@), ", "@), 12)]
    })
}

/// What AniList knows.
pub open spec fn anilist_lines(m: Model) -> Seq<ItemView> {
    seq![ItemView::Title("AniList (manga/anime)"@)] + (if m.metadata_loading {
        seq![ItemView::Text { text: "Fetching…"@, size: 12 }, ItemView::Spinner]
    } else {
        match m.metadata {
            Some(meta) => series_lines(meta),
            None => seq![ItemView::Text { text: "No match."@, size: 12 }],
        }
    }) + seq![ItemView::Divider]
}

/// What ComicVine knows of an issue.
pub open spec fn match_lines(found: ComicVineMatch, has_cover: bool) -> Seq<ItemView> {
    (if has_cover {
        seq![ItemView::Cover]
    } else {
        Seq::empty()
    }) + seq![ItemView::Text { text: found.name@, size: 13 }] + line_if(
        "Volume: "@,
        opt_text(found.volume),
        12,
    ) + line_if("Issue #: "@, opt_text(found.issue_number), 12) + line_if(
        "Cover date: "@,
        opt_text(found.cover_date),
        12,
    ) + (match found.description {
        Some(d) => seq![ItemView::Text { text: shortened(d@, 200, 200), size: 12 }],
        None => Seq::empty(),
    }) + (match found.site_url {
        Some(u) => seq![ItemView::Text { text: u@, size: 11 }],
        None => Seq::empty(),
    })
}

/// What ComicVine knows.
pub open spec fn comicvine_lines(m: Model) -> Seq<ItemView> {
    seq![ItemView::Title("ComicVine (Western comics)"@)] + (if m.comicvine_loading {
        seq![ItemView::Text { text: "Fetching…"@, size: 12 }, ItemView::Spinner]
    } else {
        match m.comicvine {
            Some(Ok(found)) => match_lines(found, m.comicvine_cover),
            Some(Err(e)) => seq![ItemView::Text { text: e@, size: 12 }],
            None => seq![ItemView::Text { text: "No match."@, size: 12 }],
        }
    })
}

/// What the series is about, where AniList knows it.
pub open spec fn synopsis_lines(m: Model) -> Seq<ItemView> {
    match m.metadata {
        Some(meta) => if meta.description@.len() == 0 {
            Seq::empty()
        } else {
            seq![
                ItemView::Divider,
                ItemView::Title("Synopsis"@),
                ItemView::Scroll(meta.description@),
            ]
        },
        None => Seq::empty(),
    }
}

/// The details of a comic.
pub open spec fn info_panel(m: Model) -> Seq<ItemView> {
    place_lines(m) + described_lines(m.comic_info) + parsed_lines(m.parsed_filename)
        + anilist_lines(m) + comicvine_lines(m) + synopsis_lines(m)
}

/// Whether a text is empty.
fn is_blank(t: &str) -> (r: bool)
    ensures
        r == (t@.len() == 0),
{
    let v = chars_of(t);
    v.len() == 0
}

/// A number as text, or a dash.
fn number_or_dash_text(n: Option<u32>) -> (r: String)
    ensures
        r@ == number_or_dash(crate::metadata::opt_nat(n)),
{
    match n {
        Some(v) => decimal_text(v as u128),
        None => "—".to_owned(),
    }
}

/// A number, where there is one, as text with something behind it.
fn number_and_text(n: Option<u32>, behind: &str) -> (r: Option<String>)
    ensures
        opt_text(r) == number_and(n, behind@),
{
    match n {
        Some(v) => {
            let mut t = decimal_text(v as u128);
            t.append(behind);
            Some(t)
        },
        None => None,
    }
}

/// What a comic's own description says.
fn show_described(info: &ComicInfo) -> (r: Vec<Item>)
    ensures
        item_views(r@) == described_lines(Some(info@)),
{
    let mut out = no_items();
    if info.is_empty() {
        return out;
    }
    put(&mut out, Item::Title("ComicInfo.xml".to_owned()));
    put_line_if(&mut out, "Series: ", &info.series, 12);
    put_line_if(&mut out, "Number: ", &info.number, 12);
    put_line_if(&mut out, "Volume: ", &info.volume, 12);
    let year = match info.year {
        Some(y) => Some(signed_text(y)),
        None => None,
    };
    put_line_if(&mut out, "Year: ", &year, 12);
    put_line_if(&mut out, "Publisher: ", &info.publisher, 12);
    put_line_if(&mut out, "Writer: ", &info.writer, 12);
    put_line_if(&mut out, "Genre: ", &info.genre, 12);
    put(&mut out, Item::Divider);
    assert(item_views(out@) =~= described_lines(Some(info@)));
    out
}

/// What the file name says.
fn show_parsed(parsed: &Option<ParsedFilename>) -> (r: Vec<Item>)
    ensures
        item_views(r@) == parsed_lines(
            match parsed {
                Some(p) => Some(p@),
                None => None,
            },
        ),
{
    let mut out = no_items();
    put(&mut out, Item::Title("Debug: Metadata Matching".to_owned()));
    if let Some(p) = parsed {
        put_line(&mut out, "Parsed series: ", p.series.as_str(), 12);
        let issue = number_or_dash_text(p.issue);
        put_line(&mut out, "Parsed issue: ", issue.as_str(), 12);
        let year = number_or_dash_text(p.year);
        put_line(&mut out, "Parsed year: ", year.as_str(), 12);
    }
    put(&mut out, Item::Divider);
    assert(item_views(out@) =~= parsed_lines(
        match parsed {
            Some(p) => Some(p@),
            None => None,
        },
    ));
    out
}

/// What AniList knows of a series.
fn show_series(meta: &SeriesMetadata) -> (r: Vec<Item>)
    ensures
        item_views(r@) == series_lines(*meta),
{
    let mut out = no_items();
    put(&mut out, text_item(meta.title.as_str(), 13));
    if !is_blank(meta.status.as_str()) {
        put_line(&mut out, "Status: ", meta.status.as_str(), 12);
    }
    let chapters = number_and_text(meta.chapter_count, "");
    proof {
        reveal_strlit("");
        assert(""@ =~= Seq::<char>::empty());
    }
    put_line_if(&mut out, "Chapters: ", &chapters, 12);
    let score = number_and_text(meta.score, "/100");
    put_line_if(&mut out, "Score: ", &score, 12);
    if meta.genres.len() > 0 {
        let genres = join_texts(&meta.genres, ", ");
        put_line(&mut out, "Genres: ", genres.as_str(), 12);
    }
    assert(item_views(out@) =~= series_lines(*meta));
    out
}

/// What ComicVine knows of an issue.
fn show_match(found: &ComicVineMatch, has_cover: bool) -> (r: Vec<Item>)
    ensures
        item_views(r@) == match_lines(*found, has_cover),
{
    let mut out = no_items();
    if has_cover {
        put(&mut out, Item::Cover);
    }
    put(&mut out, text_item(found.name.as_str(), 13));
    put_line_if(&mut out, "Volume: ", &found.volume, 12);
    put_line_if(&mut out, "Issue #: ", &found.issue_number, 12);
    put_line_if(&mut out, "Cover date: ", &found.cover_date, 12);
    if let Some(d) = &found.description {
        put(&mut out, Item::Text { text: shorten(d.as_str(), 200, 200), size: 12 });
    }
    if let Some(u) = &found.site_url {
        put(&mut out, text_item(u.as_str(), 11));
    }
    assert(item_views(out@) =~= match_lines(*found, has_cover));
    out
}

impl App {
    /// The chapter and the page.
    fn show_place(&self) -> (r: Vec<Item>)
        ensures
            item_views(r@) == place_lines(self@),
    {
        let mut out = no_items();
        let here = self.current_chapter();
        reveal(App::model);
        if let Some((i, page)) = here {
            assert(self@.chapters[i as int] == self.chapters@[i as int]@);
            let ch = &self.chapters[i];
            let heading = if self.chapters.len() == 1 {
                ch.name.clone()
            } else {
                let number = counted_text(i);
                let mut t = concat3("Chapter ", number.as_str(), " — ");
                t.append(ch.name.as_str());
                t
            };
            put(&mut out, Item::Title(heading));
            let number = counted_text(page);
            let total = decimal_text(ch.page_count as u128);
            let mut t = concat3("Page ", number.as_str(), " of ");
            t.append(total.as_str());
            put(&mut out, Item::Text { text: t, size: 13 });
            put(&mut out, Item::Divider);
        }
        assert(item_views(out@) =~= place_lines(self@));
        out
    }

    /// What a comic's own description says.
    fn show_description(&self) -> (r: Vec<Item>)
        ensures
            item_views(r@) == described_lines(self@.comic_info),
    {
        reveal(App::model);
        match &self.comic_info {
            Some(info) => show_described(info),
            None => no_items(),
        }
    }

    /// What the file name says.
    fn show_filename(&self) -> (r: Vec<Item>)
        ensures
            item_views(r@) == parsed_lines(self@.parsed_filename),
    {
        reveal(App::model);
        show_parsed(&self.parsed_filename)
    }

    /// What AniList knows.
    fn show_anilist(&self) -> (r: Vec<Item>)
        ensures
            item_views(r@) == anilist_lines(self@),
    {
        reveal(App::model);
        let mut out = no_items();
        put(&mut out, Item::Title("AniList (manga/anime)".to_owned()));
        if self.metadata_loading {
            put(&mut out, text_item("Fetching…", 12));
            put(&mut out, Item::Spinner);
        } else {
            match &self.metadata {
                Some(meta) => {
                    put_all(&mut out, show_series(meta));
                },
                None => {
                    put(&mut out, text_item("No match.", 12));
                },
            }
        }
        put(&mut out, Item::Divider);
        assert(item_views(out@) =~= anilist_lines(self@));
        out
    }

    /// What ComicVine knows.
    fn show_comicvine(&self) -> (r: Vec<Item>)
        ensures
            item_views(r@) == comicvine_lines(self@),
    {
        reveal(App::model);
        let mut out = no_items();
        put(&mut out, Item::Title("ComicVine (Western comics)".to_owned()));
        if self.comicvine_loading {
            put(&mut out, text_item("Fetching…", 12));
            put(&mut out, Item::Spinner);
        } else {
            match &self.comicvine {
                Some(Ok(found)) => {
                    put_all(&mut out, show_match(found, self.comicvine_cover));
                },
                Some(Err(e)) => {
                    put(&mut out, text_item(e.as_str(), 12));
                },
                None => {
                    put(&mut out, text_item("No match.", 12));
                },
            }
        }
        assert(item_views(out@) =~= comicvine_lines(self@));
        out
    }

    /// What the series is about.
    fn show_synopsis(&self) -> (r: Vec<Item>)
        ensures
            item_views(r@) == synopsis_lines(self@),
    {
        reveal(App::model);
        let mut out = no_items();
        if let Some(meta) = &self.metadata {
            if !is_blank(meta.description.as_str()) {
                put(&mut out, Item::Divider);
                put(&mut out, Item::Title("Synopsis".to_owned()));
                put(&mut out, Item::Scroll(meta.description.clone()));
            }
        }
        assert(item_views(out@) =~= synopsis_lines(self@));
        out
    }

    /// The details of a comic.
    pub fn build_info_panel(&self) -> (r: Vec<Item>)
        ensures
            item_views(r@) == info_panel(self@),
    {
        let mut out = self.show_place();
        put_all(&mut out, self.show_description());
        put_all(&mut out, self.show_filename());
        put_all(&mut out, self.show_anilist());
        put_all(&mut out, self.show_comicvine());
        put_all(&mut out, self.show_synopsis());
        out
    }
}

// ── Details of a book ────────────────────────────────────────────────────────

/// The details of a book, at the given chapter.
pub open spec fn book_panel(book: EpubBook, chapter: int) -> Seq<ItemView> {
    (if book.cover is Some {
        seq![ItemView::Cover]
    } else {
        Seq::empty()
    }) + seq![ItemView::Title(book.title@)] + (match book.author {
        Some(a) => seq![ItemView::Text { text: a@, size: 13 }],
        None => Seq::empty(),
    }) + seq![ItemView::Divider] + (if 0 <= chapter < book.chapters@.len() {
        seq![
            ItemView::Text {
                text: "Chapter "@ + decimal((chapter + 1) as nat) + " of "@ + decimal(
                    book.chapters@.len(),
                ),
                size: 13,
            },
            ItemView::Text { text: book.chapters@[chapter].title@, size: 13 },
        ]
    } else {
        Seq::empty()
    })
}

/// The details of a book, at the given chapter.
pub fn build_epub_info_panel(book: &EpubBook, chapter: usize) -> (r: Vec<Item>)
    ensures
        item_views(r@) == book_panel(*book, chapter as int),
{
    let mut out = no_items();
    if book.cover.is_some() {
        put(&mut out, Item::Cover);
    }
    put(&mut out, Item::Title(book.title.clone()));
    if let Some(a) = &book.author {
        put(&mut out, text_item(a.as_str(), 13));
    }
    put(&mut out, Item::Divider);
    if chapter < book.chapters.len() {
        let number = counted_text(chapter);
        let total = decimal_text(book.chapters.len() as u128);
        let mut t = concat3("Chapter ", number.as_str(), " of ");
        t.append(total.as_str());
        put(&mut out, Item::Text { text: t, size: 13 });
        put(&mut out, text_item(book.chapters[chapter].title.as_str(), 13));
    }
    assert(item_views(out@) =~= book_panel(*book, chapter as int));
    out
}

// ── Settings ─────────────────────────────────────────────────────────────────

/// The settings on how things look.
pub open spec fn appearance_section(m: Model) -> Seq<ItemView> {
    seq![
        ItemView::Section("Appearance"@),
        ItemView::BackgroundChoice(m.settings.background.place()),
        ItemView::OpacitySlider,
        ItemView::Toggle {
            label: "Theater mode"@,
            on: m.theater_mode,
            press: Press::ToggleTheater,
        },
    ]
}

/// The settings on reading.
pub open spec fn reading_section(m: Model) -> Seq<ItemView> {
    seq![
        ItemView::Section("Reading"@),
        ItemView::Toggle {
            label: "Two-page spread"@,
            on: m.layout == Layout::Dual,
            press: Press::ToggleLayout,
        },
        ItemView::Toggle {
            label: "Look up metadata online"@,
            on: m.settings.fetch_metadata,
            press: Press::ToggleFetch,
        },
    ]
}

/// The library folders, and the fields to add one.
pub open spec fn folders_section(m: Model) -> Seq<ItemView> {
    seq![ItemView::Section("Library folders"@)] + (if m.library_dirs.len() == 0 {
        seq![
            ItemView::Text {
                text: "No library folders yet. Add one to have its comics scanned in automatically."@,
                size: 12,
            },
        ]
    } else {
        m.library_dirs.map_values(|d: Seq<char>| ItemView::Folder(d))
    }) + seq![
        ItemView::PathInput(m.library_path_input),
        ItemView::Button { label: "Add"@, press: Press::SubmitPath },
        ItemView::Button { label: "Browse…"@, press: Press::AddLibraryFolder },
    ]
}

/// The settings.
pub open spec fn settings_panel(m: Model) -> Seq<ItemView> {
    appearance_section(m) + reading_section(m) + folders_section(m)
}

impl App {
    /// The settings on how things look.
    fn show_appearance(&self) -> (r: Vec<Item>)
        ensures
            item_views(r@) == appearance_section(self@),
    {
        reveal(App::model);
        let mut out = no_items();
        put(&mut out, Item::Section("Appearance".to_owned()));
        put(&mut out, Item::BackgroundChoice(self.settings.background.index()));
        put(&mut out, Item::OpacitySlider);
        put(
            &mut out,
            Item::Toggle {
                label: "Theater mode".to_owned(),
                on: self.theater_mode,
                press: Press::ToggleTheater,
            },
        );
        assert(item_views(out@) =~= appearance_section(self@));
        out
    }

    /// The settings on reading.
    fn show_reading(&self) -> (r: Vec<Item>)
        ensures
            item_views(r@) == reading_section(self@),
    {
        reveal(App::model);
        let mut out = no_items();
        put(&mut out, Item::Section("Reading".to_owned()));
        put(
            &mut out,
            Item::Toggle {
                label: "Two-page spread".to_owned(),
                on: self.layout == Layout::Dual,
                press: Press::ToggleLayout,
            },
        );
        put(
            &mut out,
            Item::Toggle {
                label: "Look up metadata online".to_owned(),
                on: self.settings.fetch_metadata,
                press: Press::ToggleFetch,
            },
        );
        assert(item_views(out@) =~= reading_section(self@));
        out
    }

    /// The library folders.
    fn show_dirs(&self) -> (r: Vec<Item>)
        ensures
            item_views(r@) == self@.library_dirs.map_values(|d: Seq<char>| ItemView::Folder(d)),
    {
        reveal(App::model);
        let ghost all = texts(self.library_dirs@);
        let ghost show = |d: Seq<char>| ItemView::Folder(d);
        let mut out = no_items();
        assert(item_views(out@) =~= all.take(0).map_values(show));
        for i in 0..self.library_dirs.len()
            invariant
                all == texts(self.library_dirs@),
                show == |d: Seq<char>| ItemView::Folder(d),
                item_views(out@) == all.take(i as int).map_values(show),
        {
            put(&mut out, Item::Folder(self.library_dirs[i].clone()));
            assert(all.take(i + 1).map_values(show) =~= all.take(i as int).map_values(show).push(
                show(all[i as int]),
            ));
        }
        assert(all.take(all.len() as int) =~= all);
        out
    }

    /// The library folders, and the fields to add one.
    fn show_folders(&self) -> (r: Vec<Item>)
        ensures
            item_views(r@) == folders_section(self@),
    {
        let mut out = no_items();
        put(&mut out, Item::Section("Library folders".to_owned()));
        let dirs = self.show_dirs();
        assert(item_views(dirs@).len() == dirs@.len());
        if dirs.len() == 0 {
            put(
                &mut out,
                text_item(
                    "No library folders yet. Add one to have its comics scanned in automatically.",
                    12,
                ),
            );
        } else {
            put_all(&mut out, dirs);
        }
        reveal(App::model);
        put(&mut out, Item::PathInput(self.library_path_input.clone()));
        put(&mut out, Item::Button { label: "Add".to_owned(), press: Press::SubmitPath });
        put(
            &mut out,
            Item::Button { label: "Browse…".to_owned(), press: Press::AddLibraryFolder },
        );
        assert(item_views(out@) =~= folders_section(self@));
        out
    }

    /// The settings.
    pub fn build_settings_panel(&self) -> (r: Vec<Item>)
        ensures
            item_views(r@) == settings_panel(self@),
    {
        let mut out = self.show_appearance();
        put_all(&mut out, self.show_reading());
        put_all(&mut out, self.show_folders());
        out
    }
}

// ── Laws ─────────────────────────────────────────────────────────────────────

/// The counter tells the page within its chapter, counted from one, and how many the
/// chapter has; where there are several chapters, which of them it is, counted from one;
/// and where the page belongs to none, its place among all pages.
pub proof fn the_counter_counts_from_one(m: Model, i: int)
    ensures
        0 <= i < m.chapters.len() && m.chapters[i].start <= m.current_page < m.chapters[i].start
            + m.chapters[i].page_count && (forall|j: int|
            0 <= j < i ==> !((#[trigger] m.chapters[j]).start <= m.current_page
                < m.chapters[j].start + m.chapters[j].page_count)) ==> {
            let page = decimal((m.current_page - m.chapters[i].start + 1) as nat);
            let total = decimal(m.chapters[i].page_count);
            if m.chapters.len() == 1 {
                page_counter(m) == page + " / "@ + total
            } else {
                page_counter(m) == "Ch."@ + decimal((i + 1) as nat) + "  ·  "@ + (page + " / "@
                    + total)
            }
        },
        (forall|j: int|
            0 <= j < m.chapters.len() ==> !((#[trigger] m.chapters[j]).start <= m.current_page
                < m.chapters[j].start + m.chapters[j].page_count)) ==> page_counter(m) == decimal(
            (m.current_page + 1) as nat,
        ) + " / "@ + decimal(m.sources.len()),
{
    crate::laws::first_chapter_of(m.chapters, m.current_page, 0, i);
}

/// The reader's header leads back to the library, and the library's header does not; the
/// library's header shows the search, and opens files and folders.
pub proof fn headers_lead_where_they_say(m: Model)
    ensures
        m.app_view == AppView::Reader ==> header_start_of(m).len() == 1 && header_start_of(m)[0]
            is Icon && header_start_of(m)[0]->Icon_press == Press::GoToLibrary,
        m.app_view == AppView::Library ==> header_start_of(m).len() == 0 && header_end_of(m)[0]
            == ItemView::Search(m.library_search) && header_end_of(m).len() == 5,
        m.app_view == AppView::Library ==> (forall|i: int|
            0 <= i < 5 ==> !((#[trigger] header_end_of(m)[i]) is Label)),
        m.app_view == AppView::Reader && m.epub_book is None && m.sources.len() > 0
            ==> header_end_of(m)[1] == ItemView::Label(page_counter(m)) && presses(
            header_end_of(m)[0],
            Press::PrevPage,
        ) && presses(header_end_of(m)[2], Press::NextPage),
        m.app_view == AppView::Reader && m.epub_book is None && m.sources.len() == 0
            ==> header_end_of(m).len() == 6,
        m.app_view == AppView::Reader && m.epub_book is Some ==> presses(
            header_end_of(m)[0],
            Press::PrevPage,
        ) && presses(header_end_of(m)[2], Press::NextPage) && header_end_of(m)[1]
            == ItemView::Label(
            "Chapter "@ + decimal((m.epub_chapter + 1) as nat) + " / "@ + decimal(
                m.epub_book->0.chapters@.len(),
            ),
        ),
{
}

/// Whether pressing an item means this.
pub open spec fn presses(i: ItemView, p: Press) -> bool {
    match i {
        ItemView::Icon { press, .. } => press == p,
        ItemView::Button { press, .. } => press == p,
        ItemView::Suggested { press, .. } => press == p,
        ItemView::Toggle { press, .. } => press == p,
        _ => false,
    }
}

/// Whether one of the items means this.
pub open spec fn offers(items: Seq<ItemView>, p: Press) -> bool {
    exists|i: int| 0 <= i < items.len() && presses(#[trigger] items[i], p)
}

/// The list of chapters is offered exactly where there are several, in a comic and in a
/// book; the layout, zooming and copying only in a comic with pages; the details, the
/// settings, the whole screen and opening another file always while reading.
pub proof fn the_reader_offers_what_can_be_done(m: Model)
    requires
        m.app_view == AppView::Reader,
    ensures
        m.epub_book is None && m.sources.len() > 0 ==> (offers(
            header_end_of(m),
            Press::ToggleChapterSelect,
        ) <==> m.chapters.len() > 1),
        m.epub_book is Some ==> (offers(header_end_of(m), Press::ToggleChapterSelect)
            <==> m.epub_book->0.chapters@.len() > 1),
        m.epub_book is None && m.sources.len() > 0 ==> offers(header_end_of(m), Press::ToggleLayout)
            && offers(header_end_of(m), Press::ToggleZoom) && offers(
            header_end_of(m),
            Press::CopyPage,
        ),
        m.epub_book is Some || m.sources.len() == 0 ==> !offers(header_end_of(m), Press::CopyPage)
            && !offers(header_end_of(m), Press::ToggleZoom) && !offers(
            header_end_of(m),
            Press::ToggleLayout,
        ),
        offers(header_end_of(m), Press::ToggleInfo),
        offers(header_end_of(m), Press::ToggleSettings),
        offers(header_end_of(m), Press::ToggleFullscreen),
        offers(header_end_of(m), Press::FitPage),
        offers(header_end_of(m), Press::OpenFile),
{
    let all = header_end_of(m);
    let own = match m.epub_book {
        Some(book) => book_controls(m, book),
        None => comic_controls(m),
    };
    let common = common_controls(m);
    assert(all == own + common);
    let k = own.len() as int;
    assert(all[k] == common[0] && all[k + 1] == common[1] && all[k + 2] == common[2] && all[k + 3]
        == common[3] && all[k + 4] == common[4] && all[k + 5] == common[5]);
    assert(presses(all[k], Press::FitPage));
    assert(presses(all[k + 1], Press::ToggleInfo));
    assert(presses(all[k + 2], Press::ToggleFullscreen));
    assert(presses(all[k + 3], Press::ToggleSettings));
    assert(presses(all[k + 5], Press::OpenFile));
    assert forall|i: int| 0 <= i < own.len() implies all[i] == own[i] by {}
    if m.epub_book is None && m.sources.len() > 0 {
        assert(own.len() == (if m.chapters.len() > 1 {
            9int
        } else {
            8int
        }));
        assert(presses(all[k - 4], Press::ToggleLayout));
        assert(presses(all[k - 3], Press::ToggleZoom));
        assert(presses(all[k - 2], Press::CopyPage));
        if m.chapters.len() > 1 {
            assert(presses(all[4], Press::ToggleChapterSelect));
        }
    } else if m.epub_book is Some {
        if m.epub_book->0.chapters@.len() > 1 {
            assert(presses(all[4], Press::ToggleChapterSelect));
        }
    }
}

/// The drawer shows the settings, or the details of what is open: of a book where one is
/// open, else of a comic; a closed drawer shows nothing.
pub proof fn the_drawer_shows_what_is_open(m: Model)
    ensures
        !m.show_context <==> panel_of(m) is None,
        m.show_context && m.context_page == ContextPage::Settings ==> panel_of(m) == Some(
            Panel::Settings,
        ),
        m.show_context && m.context_page == ContextPage::Info && m.epub_book is Some ==> panel_of(
            m,
        ) == Some(Panel::BookInfo),
        m.show_context && m.context_page == ContextPage::Info && m.epub_book is None ==> panel_of(
            m,
        ) == Some(Panel::ComicInfo),
{
}

/// What a comic's own description says is shown field by field, each behind its caption
/// and only where it is there, in this order; a description that says nothing is not shown.
pub proof fn described_fields_are_shown(i: InfoView, t: Seq<char>, y: int)
    ensures
        i.series == Some(t) ==> described_lines(Some(i))[1] == line("Series: "@, t, 12),
        i.number == Some(t) ==> described_lines(Some(i)).contains(line("Number: "@, t, 12)),
        i.volume == Some(t) ==> described_lines(Some(i)).contains(line("Volume: "@, t, 12)),
        i.year == Some(y) ==> described_lines(Some(i)).contains(
            line("Year: "@, signed_decimal(y), 12),
        ),
        i.publisher == Some(t) ==> described_lines(Some(i)).contains(line("Publisher: "@, t, 12)),
        i.writer == Some(t) ==> described_lines(Some(i)).contains(line("Writer: "@, t, 12)),
        i.genre == Some(t) ==> described_lines(Some(i)).contains(line("Genre: "@, t, 12)),
        !nothing_in(i) ==> described_lines(Some(i)).len() == 2 + shown(i.series) + shown(i.number)
            + shown(i.volume) + (if i.year is Some {
            1int
        } else {
            0int
        }) + shown(i.publisher) + shown(i.writer) + shown(i.genre),
        nothing_in(i) ==> described_lines(Some(i)).len() == 0,
        described_lines(None).len() == 0,
{
    let year = match i.year {
        Some(y) => Some(signed_decimal(y)),
        None => None,
    };
    let p = seq![ItemView::Title("ComicInfo.xml"@)];
    let q1 = line_if("Series: "@, i.series, 12);
    let q2 = line_if("Number: "@, i.number, 12);
    let q3 = line_if("Volume: "@, i.volume, 12);
    let q4 = line_if("Year: "@, year, 12);
    let q5 = line_if("Publisher: "@, i.publisher, 12);
    let q6 = line_if("Writer: "@, i.writer, 12);
    let q7 = line_if("Genre: "@, i.genre, 12);
    let q8 = seq![ItemView::Divider];
    lines_are_kept(p, q1, q2, q3, q4, q5, q6, q7, q8);
}

/// Lines are among the lines that they stand in.
proof fn lines_are_kept(
    p: Seq<ItemView>,
    q1: Seq<ItemView>,
    q2: Seq<ItemView>,
    q3: Seq<ItemView>,
    q4: Seq<ItemView>,
    q5: Seq<ItemView>,
    q6: Seq<ItemView>,
    q7: Seq<ItemView>,
    q8: Seq<ItemView>,
)
    ensures
        ({
            let all = p + q1 + q2 + q3 + q4 + q5 + q6 + q7 + q8;
            &&& all.len() == p.len() + q1.len() + q2.len() + q3.len() + q4.len() + q5.len()
                + q6.len() + q7.len() + q8.len()
            &&& q1.len() > 0 ==> all[p.len() as int] == q1[0]
            &&& q2.len() > 0 ==> all.contains(q2[0])
            &&& q3.len() > 0 ==> all.contains(q3[0])
            &&& q4.len() > 0 ==> all.contains(q4[0])
            &&& q5.len() > 0 ==> all.contains(q5[0])
            &&& q6.len() > 0 ==> all.contains(q6[0])
            &&& q7.len() > 0 ==> all.contains(q7[0])
        }),
{
    let p1 = p + q1;
    let p2 = p1 + q2;
    let p3 = p2 + q3;
    let p4 = p3 + q4;
    let p5 = p4 + q5;
    let p6 = p5 + q6;
    let p7 = p6 + q7;
    more_lines(p1, q2);
    more_lines(p2, q3);
    more_lines(p3, q4);
    more_lines(p4, q5);
    more_lines(p5, q6);
    more_lines(p6, q7);
    more_lines(p7, q8);
}

/// Lines with more behind them.
proof fn more_lines(p: Seq<ItemView>, q: Seq<ItemView>)
    ensures
        forall|x: ItemView| p.contains(x) ==> #[trigger] (p + q).contains(x),
        q.len() > 0 ==> (p + q).contains(q[0]),
        forall|k: int| 0 <= k < p.len() ==> #[trigger] (p + q)[k] == p[k],
{
    assert forall|x: ItemView| p.contains(x) implies #[trigger] (p + q).contains(x) by {
        let k = choose|k: int| 0 <= k < p.len() && p[k] == x;
        assert((p + q)[k] == x);
    }
    if q.len() > 0 {
        assert((p + q)[p.len() as int] == q[0]);
    }
}

/// How many lines a field takes.
pub open spec fn shown(t: Option<Seq<char>>) -> int {
    if t is Some {
        1
    } else {
        0
    }
}

/// A line is its caption with its text behind it.
pub proof fn captions_stand_ahead(caption: Seq<char>, t: Seq<char>, size: u16)
    ensures
        line(caption, t, size) == (ItemView::Text { text: caption + t, size }),
        line_if(caption, Some(t), size) == seq![line(caption, t, size)],
        line_if(caption, None, size).len() == 0,
        t.len() > 0 ==> line_unless_empty(caption, t, size) == seq![line(caption, t, size)],
        t.len() == 0 ==> line_unless_empty(caption, t, size).len() == 0,
{
}

/// While a catalogue is asked, that is shown; then what it knows, or that it knows nothing,
/// or why nothing could be had.
pub proof fn catalogues_show_what_they_know(m: Model)
    ensures
        m.metadata_loading ==> anilist_lines(m).contains(ItemView::Spinner),
        !m.metadata_loading ==> !anilist_lines(m).contains(ItemView::Spinner),
        !m.metadata_loading && m.metadata is Some ==> anilist_lines(m)[1] == (ItemView::Text {
            text: m.metadata->0.title@,
            size: 13,
        }),
        !m.metadata_loading && m.metadata is None ==> anilist_lines(m)[1] == (ItemView::Text {
            text: "No match."@,
            size: 12,
        }),
        m.comicvine_loading ==> comicvine_lines(m).contains(ItemView::Spinner),
        !m.comicvine_loading && m.comicvine is None ==> comicvine_lines(m)[1] == (ItemView::Text {
            text: "No match."@,
            size: 12,
        }),
        !m.comicvine_loading ==> (m.comicvine matches Some(Err(e)) ==> comicvine_lines(m)[1] == (
        ItemView::Text { text: e@, size: 12 })),
        !m.comicvine_loading ==> (m.comicvine matches Some(Ok(found)) ==> comicvine_lines(
            m,
        ).contains(ItemView::Text { text: found.name@, size: 13 }) && (m.comicvine_cover
            ==> comicvine_lines(m)[1] == ItemView::Cover)),
        m.metadata is Some && m.metadata->0.description@.len() > 0 ==> synopsis_lines(m).contains(
            ItemView::Scroll(m.metadata->0.description@),
        ),
        m.metadata is None || m.metadata->0.description@.len() == 0 ==> synopsis_lines(m).len()
            == 0,
{
    let all = anilist_lines(m);
    if m.metadata_loading {
        assert(all[2] == ItemView::Spinner);
    } else {
        assert forall|i: int| 0 <= i < all.len() implies all[i] != ItemView::Spinner by {
            if let Some(meta) = m.metadata {
                no_spinner(meta);
                if 1 <= i < all.len() - 1 {
                    assert(all[i] == series_lines(meta)[i - 1]);
                }
            }
        }
    }
    let vine = comicvine_lines(m);
    if m.comicvine_loading {
        assert(vine[2] == ItemView::Spinner);
    } else if let Some(Ok(found)) = m.comicvine {
        if m.comicvine_cover {
            assert(vine[2] == (ItemView::Text { text: found.name@, size: 13 }));
        } else {
            assert(vine[1] == (ItemView::Text { text: found.name@, size: 13 }));
        }
    }
    if m.metadata is Some && m.metadata->0.description@.len() > 0 {
        assert(synopsis_lines(m)[2] == ItemView::Scroll(m.metadata->0.description@));
    }
}

/// What is known of a series is text alone.
proof fn no_spinner(meta: SeriesMetadata)
    ensures
        forall|i: int|
            0 <= i < series_lines(meta).len() ==> (#[trigger] series_lines(meta)[i]) is Text,
{
}

/// What AniList knows of a series is shown behind captions: the status if there is one, the
/// number of chapters and the score if they are known, and the genres with commas between
/// them.
pub proof fn series_are_described(meta: SeriesMetadata)
    ensures
        meta.status@.len() > 0 ==> series_lines(meta)[1] == (ItemView::Text {
            text: "Status: "@ + meta.status@,
            size: 12,
        }),
        meta.chapter_count is Some ==> series_lines(meta).contains(
            ItemView::Text {
                text: "Chapters: "@ + decimal(meta.chapter_count->0 as nat),
                size: 12,
            },
        ),
        meta.score is Some ==> series_lines(meta).contains(
            ItemView::Text {
                text: "Score: "@ + (decimal(meta.score->0 as nat) + "/100"@),
                size: 12,
            },
        ),
        meta.genres@.len() > 0 ==> series_lines(meta).last() == (ItemView::Text {
            text: "Genres: "@ + join(texts(meta.genres@), ", "@),
            size: 12,
        }),
{
    let all = series_lines(meta);
    let a: int = if meta.status@.len() > 0 {
        1
    } else {
        0
    };
    let b: int = if meta.chapter_count is Some {
        1
    } else {
        0
    };
    if meta.chapter_count is Some {
        let d = decimal(meta.chapter_count->0 as nat);
        assert(d + Seq::<char>::empty() =~= d);
        assert(all[1 + a] == line("Chapters: "@, d, 12));
    }
    if meta.score is Some {
        assert(all[1 + a + b] == line(
            "Score: "@,
            decimal(meta.score->0 as nat) + "/100"@,
            12,
        ));
    }
}

/// What the file's name says is shown with a dash for what it does not say.
pub proof fn parsed_names_are_shown(p: ParsedView)
    ensures
        parsed_lines(Some(p))[1] == line("Parsed series: "@, p.series, 12),
        p.issue matches Some(n) ==> parsed_lines(Some(p))[2] == line(
            "Parsed issue: "@,
            decimal(n),
            12,
        ),
        p.issue is None ==> parsed_lines(Some(p))[2] == line("Parsed issue: "@, "—"@, 12),
        p.year matches Some(n) ==> parsed_lines(Some(p))[3] == line(
            "Parsed year: "@,
            decimal(n),
            12,
        ),
        p.year is None ==> parsed_lines(Some(p))[3] == line("Parsed year: "@, "—"@, 12),
        parsed_lines(None).len() == 2,
        parsed_lines(Some(p)).len() == 5,
{
}

/// The details of a book show its cover if it has one, its title, its author if it is
/// known, and the chapter that is read, counted from one, with its title.
pub proof fn books_are_described(book: EpubBook, chapter: int)
    ensures
        book.cover is Some <==> book_panel(book, chapter)[0] == ItemView::Cover,
        book_panel(book, chapter).contains(ItemView::Title(book.title@)),
        book.author matches Some(a) ==> book_panel(book, chapter).contains(
            ItemView::Text { text: a@, size: 13 },
        ),
        0 <= chapter < book.chapters@.len() ==> book_panel(book, chapter).last() == (ItemView::Text {
            text: book.chapters@[chapter].title@,
            size: 13,
        }) && book_panel(book, chapter)[book_panel(book, chapter).len() - 2] == (ItemView::Text {
            text: "Chapter "@ + decimal((chapter + 1) as nat) + " of "@ + decimal(
                book.chapters@.len(),
            ),
            size: 13,
        }),
        !(0 <= chapter < book.chapters@.len()) ==> book_panel(book, chapter).last()
            == ItemView::Divider,
{
    let all = book_panel(book, chapter);
    let a: int = if book.cover is Some {
        1
    } else {
        0
    };
    assert(all[a] == ItemView::Title(book.title@));
    if book.author is Some {
        assert(all[a + 1] == (ItemView::Text { text: book.author->0@, size: 13 }));
    }
}

/// The switches of the settings show what is set, and the library folders are listed in
/// their order.
pub proof fn settings_show_what_is_set(m: Model, i: int)
    ensures
        settings_panel(m).contains(
            ItemView::Toggle {
                label: "Theater mode"@,
                on: m.theater_mode,
                press: Press::ToggleTheater,
            },
        ),
        settings_panel(m).contains(
            ItemView::Toggle {
                label: "Two-page spread"@,
                on: m.layout == Layout::Dual,
                press: Press::ToggleLayout,
            },
        ),
        settings_panel(m).contains(
            ItemView::Toggle {
                label: "Look up metadata online"@,
                on: m.settings.fetch_metadata,
                press: Press::ToggleFetch,
            },
        ),
        settings_panel(m)[1] == ItemView::BackgroundChoice(
            if m.settings.background == crate::settings::Background::Black {
                1
            } else {
                0
            },
        ),
        0 <= i < m.library_dirs.len() ==> settings_panel(m)[8 + i] == ItemView::Folder(
            m.library_dirs[i],
        ),
        settings_panel(m).contains(ItemView::PathInput(m.library_path_input)),
        settings_panel(m).len() == 11 + (if m.library_dirs.len() == 0 {
            1nat
        } else {
            m.library_dirs.len()
        }),
{
    let all = settings_panel(m);
    assert(all[3] == (ItemView::Toggle {
        label: "Theater mode"@,
        on: m.theater_mode,
        press: Press::ToggleTheater,
    }));
    assert(all[5] == (ItemView::Toggle {
        label: "Two-page spread"@,
        on: m.layout == Layout::Dual,
        press: Press::ToggleLayout,
    }));
    assert(all[6] == (ItemView::Toggle {
        label: "Look up metadata online"@,
        on: m.settings.fetch_metadata,
        press: Press::ToggleFetch,
    }));
    let n: int = if m.library_dirs.len() == 0 {
        1
    } else {
        m.library_dirs.len() as int
    };
    assert(all[8 + n] == ItemView::PathInput(m.library_path_input));
}

/// Where the reader is in a comic is told by the chapter's name and the page within it,
/// counted from one; with the chapter's number where there are several.
pub proof fn the_place_is_told(m: Model, i: int)
    requires
        0 <= i < m.chapters.len(),
        m.chapters[i].start <= m.current_page < m.chapters[i].start + m.chapters[i].page_count,
        forall|j: int|
            0 <= j < i ==> !((#[trigger] m.chapters[j]).start <= m.current_page
                < m.chapters[j].start + m.chapters[j].page_count),
    ensures
        m.chapters.len() == 1 ==> place_lines(m)[0] == ItemView::Title(m.chapters[i].name),
        m.chapters.len() > 1 ==> place_lines(m)[0] == ItemView::Title(
            "Chapter "@ + decimal((i + 1) as nat) + " — "@ + m.chapters[i].name,
        ),
        place_lines(m)[1] == (ItemView::Text {
            text: "Page "@ + decimal((m.current_page - m.chapters[i].start + 1) as nat) + " of "@
                + decimal(m.chapters[i].page_count),
            size: 13,
        }),
{
    crate::laws::first_chapter_of(m.chapters, m.current_page, 0, i);
}

/// A match is shown with its name and, behind captions, what is known of the issue; of a
/// long description the first two hundred characters are shown.
pub proof fn matches_are_described(found: ComicVineMatch, has_cover: bool)
    ensures
        found.volume is Some ==> match_lines(found, has_cover).contains(
            ItemView::Text { text: "Volume: "@ + found.volume->0@, size: 12 },
        ),
        found.issue_number is Some ==> match_lines(found, has_cover).contains(
            ItemView::Text { text: "Issue #: "@ + found.issue_number->0@, size: 12 },
        ),
        found.cover_date is Some ==> match_lines(found, has_cover).contains(
            ItemView::Text { text: "Cover date: "@ + found.cover_date->0@, size: 12 },
        ),
        found.description is Some && found.description->0@.len() <= 200 ==> match_lines(
            found,
            has_cover,
        ).contains(ItemView::Text { text: found.description->0@, size: 12 }),
        found.description is Some && found.description->0@.len() > 200 ==> match_lines(
            found,
            has_cover,
        ).contains(
            ItemView::Text { text: found.description->0@.take(200) + "…"@, size: 12 },
        ),
        found.site_url is Some ==> match_lines(found, has_cover).last() == (ItemView::Text {
            text: found.site_url->0@,
            size: 11,
        }),
{
    let all = match_lines(found, has_cover);
    let a: int = if has_cover {
        1
    } else {
        0
    };
    let b = shown(opt_text(found.volume));
    let c = shown(opt_text(found.issue_number));
    let d = shown(opt_text(found.cover_date));
    if found.volume is Some {
        assert(all[a + 1] == line("Volume: "@, found.volume->0@, 12));
    }
    if found.issue_number is Some {
        assert(all[a + 1 + b] == line("Issue #: "@, found.issue_number->0@, 12));
    }
    if found.cover_date is Some {
        assert(all[a + 1 + b + c] == line("Cover date: "@, found.cover_date->0@, 12));
    }
    if found.description is Some {
        assert(all[a + 1 + b + c + d] == (ItemView::Text {
            text: shortened(found.description->0@, 200, 200),
            size: 12,
        }));
    }
}

/// The details of a comic tell, one after the other: the place, its own description, what
/// its file's name says, what the catalogues know, and what it is about.
pub proof fn details_come_in_their_order(m: Model)
    ensures
        ({
            let a = place_lines(m).len() as int;
            let b = a + described_lines(m.comic_info).len();
            let c = b + parsed_lines(m.parsed_filename).len();
            let d = c + anilist_lines(m).len();
            let e = d + comicvine_lines(m).len();
            let all = info_panel(m);
            &&& all.subrange(0, a) == place_lines(m)
            &&& all.subrange(a, b) == described_lines(m.comic_info)
            &&& all.subrange(b, c) == parsed_lines(m.parsed_filename)
            &&& all.subrange(c, d) == anilist_lines(m)
            &&& all.subrange(d, e) == comicvine_lines(m)
            &&& all.skip(e) == synopsis_lines(m)
        }),
{
    let a = place_lines(m).len() as int;
    let b = a + described_lines(m.comic_info).len();
    let c = b + parsed_lines(m.parsed_filename).len();
    let d = c + anilist_lines(m).len();
    let e = d + comicvine_lines(m).len();
    let all = info_panel(m);
    assert(all.subrange(0, a) =~= place_lines(m));
    assert(all.subrange(a, b) =~= described_lines(m.comic_info));
    assert(all.subrange(b, c) =~= parsed_lines(m.parsed_filename));
    assert(all.subrange(c, d) =~= anilist_lines(m));
    assert(all.subrange(d, e) =~= comicvine_lines(m));
    assert(all.skip(e) =~= synopsis_lines(m));
}

} // verus!
