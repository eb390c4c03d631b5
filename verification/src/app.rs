//! The application: its state, the messages that change it, and the actions
//! that it asks for in turn.
//!
//! Whoever runs the application performs the actions (queries, decoding,
//! windows, dialogs) and hands what came of them back as messages. Pictures
//! stay with the runner: the state only knows which of them are at hand.
use crate::comic::{chapter_views, page_views, ChapterInfo, ChapterView, PageSource, PageView};
use crate::comicinfo::{ComicInfo, InfoView};
use crate::comicvine::ComicVineMatch;
use crate::epub::EpubBook;
use crate::library::SeriesEntry;
use crate::metadata::{ParsedFilename, ParsedView, SeriesMetadata};
use crate::settings::Settings;
use crate::text::{opt_text, texts};
use std::collections::HashSet;
use vstd::prelude::*;

verus! {

broadcast use vstd::std_specs::hash::group_hash_axioms;

/// How many pages are loaded ahead of need, against the reading direction.
pub const PRELOAD_NEAR: usize = 1;

/// How many pages are loaded ahead of need, in the reading direction.
pub const PRELOAD_FAR: usize = 6;

/// How far from the current page decoded pages are kept.
pub const CACHE_RADIUS: usize = 14;

// ── Types ────────────────────────────────────────────────────────────────────

/// What the window shows.
#[derive(Clone, Copy, Debug, PartialEq, Eq, Structural)]
pub enum AppView {
    Library,
    Reader,
}

/// How many pages the reader shows at a time.
#[derive(Clone, Copy, Debug, PartialEq, Eq, Structural)]
pub enum Layout {
    Single,
    Dual,
}

/// Which panel the context drawer shows.
#[derive(Clone, Copy, Debug, PartialEq, Eq, Structural)]
pub enum ContextPage {
    Settings,
    Info,
}

/// A key that was pressed.
#[derive(Clone, Debug)]
pub enum KeyPress {
    ArrowRight,
    ArrowLeft,
    PageDown,
    PageUp,
    Escape,
    Character(String),
    Other,
}

/// What a finger did on the screen.
#[derive(Clone, Copy, Debug, PartialEq, Eq, Structural)]
pub enum TouchEvent {
    Pressed(u64),
    Lifted(u64),
    Lost(u64),
    Moved,
}

/// What was looked up about a comic that is being opened: the page and the
/// chapter at which it was left, whether it is a folder, whether its cover is
/// at hand, and the text of its own description.
#[derive(Clone, Debug)]
pub struct OpenFacts {
    pub saved: Option<(usize, usize)>,
    pub is_dir: bool,
    pub cover_exists: bool,
    pub comic_info: Option<String>,
}

/// What the scan of a library folder found for one entry: enough to register it
/// and to make its cover.
#[derive(Clone, Debug)]
pub struct ScanOutcome {
    pub path: String,
    pub title: String,
    pub count: usize,
    pub is_series: bool,
    pub first_page: Option<PageSource>,
    pub epub_cover: Option<Vec<u8>>,
}

/// What happens to the application.
#[derive(Debug)]
pub enum Message {
    // Navigation
    GoToLibrary,
    GoToReader,
    OpenFile,
    OpenFolder,
    PathSelected(String),
    OpenFromLibrary { path: String, page: usize, chapter: usize },
    // Loading
    Loaded { path: String, sources: Vec<PageSource>, chapters: Vec<ChapterInfo>, facts: OpenFacts },
    EpubLoaded {
        path: String,
        book: Result<EpubBook, String>,
        saved: Option<(usize, usize)>,
        cover_exists: bool,
    },
    /// A page was decoded, or could not be.
    PageDecoded(usize, bool),
    LoadFailed(String),
    Cancelled,
    /// Nothing but one more chance to draw.
    Redraw,
    // Reading
    NextPage,
    PrevPage,
    CloseError,
    // View toggles
    ToggleFullscreen,
    ToggleTheater,
    ToggleLayout,
    ToggleZoom,
    ToggleInfo,
    ToggleChapterSelect,
    SelectChapter(usize),
    // Copying
    CopyPage,
    CopiedPage(Result<(), String>),
    // Metadata
    MetadataLoaded(Result<SeriesMetadata, String>),
    ComicVineLoaded(Result<ComicVineMatch, String>),
    ComicVineCoverReady(bool),
    // Chapter covers
    /// The cover of a chapter was made, or could not be; with the series that a
    /// search for the title finds.
    ChapterCoverReady { chapter_idx: usize, ok: bool, found: Vec<SeriesEntry> },
    /// Which of the chapters have a cover in the cache.
    CoversLooked(Vec<(usize, bool)>),
    // Library
    LibrarySearchChanged(String),
    /// The series that the library lists, and which of them have a cover in the
    /// cache.
    LibraryListed { entries: Vec<SeriesEntry>, on_disk: Vec<bool> },
    LibraryCoverReady { series_id: i64, path: String },
    AddLibraryFolder,
    LibraryFolderSelected(String),
    RemoveLibraryFolder(String),
    LibraryPathInputChanged(String),
    /// The typed path was submitted; with the home directory, and whether the
    /// path is a folder.
    LibraryPathInputSubmitted { home: Option<String>, is_dir: bool },
    LibraryEntryScanned { outcome: Result<ScanOutcome, String>, cover_exists: bool },
    LibraryScanCoverDone,
    // Settings
    ToggleSettings,
    CloseContext,
    SetBackground(usize),
    SetFetchMetadata(bool),
    // Keys, pointer and touch
    Key(KeyPress),
    /// Whether the control key is held.
    ModifiersChanged(bool),
    ZoomBootstrap,
    ZoomBootstrapWheel,
    Touch(TouchEvent),
    // Drag and drop
    FilesDropped(Vec<String>),
    DndDataReceived(String, Vec<u8>),
    // Fit page
    FitPage,
}

/// What the application asks for.
pub enum Action {
    SetHeaderTitle(String),
    SetWindowTitle(String),
    SetFullscreen(bool),
    ShowContext(bool),
    ResetZoom,
    RedrawSoon,
    ChooseFile,
    ChooseFolder,
    ChooseLibraryFolder,
    OpenEpub(String),
    OpenComic(String),
    Decode { index: usize, source: PageSource },
    CopyPage(usize),
    FitPage(usize),
    FetchMetadata(String),
    FetchComicVine { series: String, issue: Option<String>, year: Option<u32> },
    FetchComicVineCover(String),
    /// List the library: everything, or what the search finds.
    QueryLibrary(Option<String>),
    UpsertSeries { path: String, title: String, total: usize, is_series: bool },
    TouchOpened(String),
    SaveProgress { path: String, page: usize, chapter: usize },
    /// Save the metadata at hand for the series at this path.
    SaveMetadata(String),
    SaveSettings,
    AddLibraryDir(String),
    RemoveLibraryDir(String),
    ScanFolder(String),
    /// Load the cover of a series from the cache.
    LoadLibraryCover(i64),
    /// Use the picture in this file as the cover of a series.
    UseLibraryCover { series_id: i64, path: String },
    /// Use the cover of the first chapter as the cover of a series.
    ShareCover(i64),
    MakeLibraryCover { source: PageSource, path: String },
    MakeEpubCover { data: Vec<u8>, path: String },
    /// Find out which of these chapters have a cover in the cache.
    LookForCovers(Vec<usize>),
    /// Load the cover of a chapter from the cache.
    LoadChapterCover(usize),
    MakeChapterCover { chapter: usize, source: PageSource, path: String },
}

/// The model of an action.
pub enum ActionModel {
    SetHeaderTitle(Seq<char>),
    SetWindowTitle(Seq<char>),
    SetFullscreen(bool),
    ShowContext(bool),
    ResetZoom,
    RedrawSoon,
    ChooseFile,
    ChooseFolder,
    ChooseLibraryFolder,
    OpenEpub(Seq<char>),
    OpenComic(Seq<char>),
    Decode { index: int, source: PageView },
    CopyPage(int),
    FitPage(int),
    FetchMetadata(Seq<char>),
    FetchComicVine { series: Seq<char>, issue: Option<Seq<char>>, year: Option<u32> },
    FetchComicVineCover(Seq<char>),
    QueryLibrary(Option<Seq<char>>),
    UpsertSeries { path: Seq<char>, title: Seq<char>, total: int, is_series: bool },
    TouchOpened(Seq<char>),
    SaveProgress { path: Seq<char>, page: int, chapter: int },
    SaveMetadata(Seq<char>),
    SaveSettings,
    AddLibraryDir(Seq<char>),
    RemoveLibraryDir(Seq<char>),
    ScanFolder(Seq<char>),
    LoadLibraryCover(i64),
    UseLibraryCover { series_id: i64, path: Seq<char> },
    ShareCover(i64),
    MakeLibraryCover { source: PageView, path: Seq<char> },
    MakeEpubCover { data: Seq<u8>, path: Seq<char> },
    LookForCovers(Seq<usize>),
    LoadChapterCover(int),
    MakeChapterCover { chapter: int, source: PageView, path: Seq<char> },
}

impl View for Action {
    type V = ActionModel;

    open spec fn view(&self) -> ActionModel {
        match self {
            Action::SetHeaderTitle(t) => ActionModel::SetHeaderTitle(t@),
            Action::SetWindowTitle(t) => ActionModel::SetWindowTitle(t@),
            Action::SetFullscreen(b) => ActionModel::SetFullscreen(*b),
            Action::ShowContext(b) => ActionModel::ShowContext(*b),
            Action::ResetZoom => ActionModel::ResetZoom,
            Action::RedrawSoon => ActionModel::RedrawSoon,
            Action::ChooseFile => ActionModel::ChooseFile,
            Action::ChooseFolder => ActionModel::ChooseFolder,
            Action::ChooseLibraryFolder => ActionModel::ChooseLibraryFolder,
            Action::OpenEpub(p) => ActionModel::OpenEpub(p@),
            Action::OpenComic(p) => ActionModel::OpenComic(p@),
            Action::Decode { index, source } => ActionModel::Decode {
                index: *index as int,
                source: source@,
            },
            Action::CopyPage(i) => ActionModel::CopyPage(*i as int),
            Action::FitPage(i) => ActionModel::FitPage(*i as int),
            Action::FetchMetadata(t) => ActionModel::FetchMetadata(t@),
            Action::FetchComicVine { series, issue, year } => ActionModel::FetchComicVine {
                series: series@,
                issue: opt_text(*issue),
                year: *year,
            },
            Action::FetchComicVineCover(url) => ActionModel::FetchComicVineCover(url@),
            Action::QueryLibrary(q) => ActionModel::QueryLibrary(opt_text(*q)),
            Action::UpsertSeries { path, title, total, is_series } => ActionModel::UpsertSeries {
                path: path@,
                title: title@,
                total: *total as int,
                is_series: *is_series,
            },
            Action::TouchOpened(p) => ActionModel::TouchOpened(p@),
            Action::SaveProgress { path, page, chapter } => ActionModel::SaveProgress {
                path: path@,
                page: *page as int,
                chapter: *chapter as int,
            },
            Action::SaveMetadata(p) => ActionModel::SaveMetadata(p@),
            Action::SaveSettings => ActionModel::SaveSettings,
            Action::AddLibraryDir(p) => ActionModel::AddLibraryDir(p@),
            Action::RemoveLibraryDir(p) => ActionModel::RemoveLibraryDir(p@),
            Action::ScanFolder(p) => ActionModel::ScanFolder(p@),
            Action::LoadLibraryCover(id) => ActionModel::LoadLibraryCover(*id),
            Action::UseLibraryCover { series_id, path } => ActionModel::UseLibraryCover {
                series_id: *series_id,
                path: path@,
            },
            Action::ShareCover(id) => ActionModel::ShareCover(*id),
            Action::MakeLibraryCover { source, path } => ActionModel::MakeLibraryCover {
                source: source@,
                path: path@,
            },
            Action::MakeEpubCover { data, path } => ActionModel::MakeEpubCover {
                data: data@,
                path: path@,
            },
            Action::LookForCovers(list) => ActionModel::LookForCovers(list@),
            Action::LoadChapterCover(i) => ActionModel::LoadChapterCover(*i as int),
            Action::MakeChapterCover { chapter, source, path } => ActionModel::MakeChapterCover {
                chapter: *chapter as int,
                source: source@,
                path: path@,
            },
        }
    }
}

/// The models of actions.
pub open spec fn action_models(v: Seq<Action>) -> Seq<ActionModel> {
    v.map_values(|a: Action| a@)
}

/// The state of the application.
pub struct App {
    pub app_view: AppView,
    // The reader
    pub title: String,
    pub open_path: Option<String>,
    pub sources: Vec<PageSource>,
    pub chapters: Vec<ChapterInfo>,
    /// The pages that are decoded.
    pub cache: HashSet<usize>,
    /// The pages that are being decoded.
    pub pending: HashSet<usize>,
    pub current_page: usize,
    /// The page at which the comic that is being opened was asked for, if it was
    /// opened from the library past its first page.
    pub resume: Option<usize>,
    /// Where the reader is headed: forward if positive, backward if negative.
    pub nav_dir: i8,
    pub loading: bool,
    pub error: Option<String>,
    pub fullscreen: bool,
    pub theater_mode: bool,
    pub layout: Layout,
    pub zoom_active: bool,
    pub show_chapter_select: bool,
    pub metadata: Option<SeriesMetadata>,
    pub metadata_loading: bool,
    pub parsed_filename: Option<ParsedFilename>,
    pub comic_info: Option<ComicInfo>,
    pub comicvine: Option<Result<ComicVineMatch, String>>,
    pub comicvine_loading: bool,
    /// Whether the cover of the ComicVine match is at hand.
    pub comicvine_cover: bool,
    // Books
    pub epub_book: Option<EpubBook>,
    pub epub_chapter: usize,
    // Pointer and touch
    /// Whether the control key is held.
    pub control: bool,
    /// The fingers that are on the screen.
    pub touches: HashSet<u64>,
    // Chapter covers
    /// The chapters whose covers are at hand.
    pub chapter_covers: HashSet<usize>,
    /// The chapters whose covers are being made.
    pub covers_pending: HashSet<usize>,
    // The library
    /// Whether there is a library database.
    pub has_db: bool,
    pub library_entries: Vec<SeriesEntry>,
    pub library_search: String,
    /// The series whose covers are at hand.
    pub library_covers: HashSet<i64>,
    pub library_dirs: Vec<String>,
    pub library_path_input: String,
    // Settings and the window
    pub settings: Settings,
    pub context_page: ContextPage,
    pub show_context: bool,
    /// Whether there is a window yet.
    pub has_window: bool,
}

/// The model of the state.
pub struct Model {
    pub app_view: AppView,
    pub title: Seq<char>,
    pub open_path: Option<Seq<char>>,
    pub sources: Seq<PageView>,
    pub chapters: Seq<ChapterView>,
    pub cache: Set<usize>,
    pub pending: Set<usize>,
    pub current_page: int,
    pub resume: Option<usize>,
    pub nav_dir: int,
    pub loading: bool,
    pub error: Option<Seq<char>>,
    pub fullscreen: bool,
    pub theater_mode: bool,
    pub layout: Layout,
    pub zoom_active: bool,
    pub show_chapter_select: bool,
    pub metadata: Option<SeriesMetadata>,
    pub metadata_loading: bool,
    pub parsed_filename: Option<ParsedView>,
    pub comic_info: Option<InfoView>,
    pub comicvine: Option<Result<ComicVineMatch, String>>,
    pub comicvine_loading: bool,
    pub comicvine_cover: bool,
    pub epub_book: Option<EpubBook>,
    pub epub_chapter: int,
    pub control: bool,
    pub touches: Set<u64>,
    pub chapter_covers: Set<usize>,
    pub covers_pending: Set<usize>,
    pub has_db: bool,
    pub library_entries: Seq<SeriesEntry>,
    pub library_search: Seq<char>,
    pub library_covers: Set<i64>,
    pub library_dirs: Seq<Seq<char>>,
    pub library_path_input: Seq<char>,
    pub settings: Settings,
    pub context_page: ContextPage,
    pub show_context: bool,
    pub has_window: bool,
}

impl View for App {
    type V = Model;

    open spec fn view(&self) -> Model {
        self.model()
    }
}

impl App {
    /// The model of the state.
    #[verifier::opaque]
    pub open spec fn model(self) -> Model {
        Model {
            app_view: self.app_view,
            title: self.title@,
            open_path: opt_text(self.open_path),
            sources: page_views(self.sources@),
            chapters: chapter_views(self.chapters@),
            cache: self.cache@,
            pending: self.pending@,
            current_page: self.current_page as int,
            resume: self.resume,
            nav_dir: self.nav_dir as int,
            loading: self.loading,
            error: opt_text(self.error),
            fullscreen: self.fullscreen,
            theater_mode: self.theater_mode,
            layout: self.layout,
            zoom_active: self.zoom_active,
            show_chapter_select: self.show_chapter_select,
            metadata: self.metadata,
            metadata_loading: self.metadata_loading,
            parsed_filename: match self.parsed_filename {
                Some(p) => Some(p@),
                None => None,
            },
            comic_info: match self.comic_info {
                Some(i) => Some(i@),
                None => None,
            },
            comicvine: self.comicvine,
            comicvine_loading: self.comicvine_loading,
            comicvine_cover: self.comicvine_cover,
            epub_book: self.epub_book,
            epub_chapter: self.epub_chapter as int,
            control: self.control,
            touches: self.touches@,
            chapter_covers: self.chapter_covers@,
            covers_pending: self.covers_pending@,
            has_db: self.has_db,
            library_entries: self.library_entries@,
            library_search: self.library_search@,
            library_covers: self.library_covers@,
            library_dirs: texts(self.library_dirs@),
            library_path_input: self.library_path_input@,
            settings: self.settings,
            context_page: self.context_page,
            show_context: self.show_context,
            has_window: self.has_window,
        }
    }
}

/// What the fields of the state stand for.
pub proof fn model_fields(a: App)
    ensures
        a@.app_view == a.app_view,
        a@.title == a.title@,
        a@.open_path == opt_text(a.open_path),
        a@.sources == page_views(a.sources@),
        a@.chapters == chapter_views(a.chapters@),
        a@.cache == a.cache@,
        a@.pending == a.pending@,
        a@.current_page == a.current_page as int,
        a@.resume == a.resume,
        a@.nav_dir == a.nav_dir as int,
        a@.loading == a.loading,
        a@.error == opt_text(a.error),
        a@.fullscreen == a.fullscreen,
        a@.theater_mode == a.theater_mode,
        a@.layout == a.layout,
        a@.zoom_active == a.zoom_active,
        a@.show_chapter_select == a.show_chapter_select,
        a@.metadata == a.metadata,
        a@.metadata_loading == a.metadata_loading,
        a@.parsed_filename == (match a.parsed_filename {
            Some(p) => Some(p@),
            None => None,
        }),
        a@.comic_info == (match a.comic_info {
            Some(i) => Some(i@),
            None => None,
        }),
        a@.comicvine == a.comicvine,
        a@.comicvine_loading == a.comicvine_loading,
        a@.comicvine_cover == a.comicvine_cover,
        a@.epub_book == a.epub_book,
        a@.epub_chapter == a.epub_chapter as int,
        a@.control == a.control,
        a@.touches == a.touches@,
        a@.chapter_covers == a.chapter_covers@,
        a@.covers_pending == a.covers_pending@,
        a@.has_db == a.has_db,
        a@.library_entries == a.library_entries@,
        a@.library_search == a.library_search@,
        a@.library_covers == a.library_covers@,
        a@.library_dirs == texts(a.library_dirs@),
        a@.library_path_input == a.library_path_input@,
        a@.settings == a.settings,
        a@.context_page == a.context_page,
        a@.show_context == a.show_context,
        a@.has_window == a.has_window,
{
    reveal(App::model);
}

/// Whether chapters lie within the pages: one that has pages begins at one of
/// them.
pub open spec fn fit(chapters: Seq<ChapterView>, total: nat) -> bool {
    forall|i: int|
        0 <= i < chapters.len() && (#[trigger] chapters[i]).page_count > 0 ==> chapters[i].start
            < total
}

/// Whether chapters lie within the pages.
pub fn chapters_fit(chapters: &Vec<ChapterInfo>, total: usize) -> (r: bool)
    ensures
        r == fit(chapter_views(chapters@), total as nat),
{
    let ghost all = chapter_views(chapters@);
    for i in 0..chapters.len()
        invariant
            all == chapter_views(chapters@),
            forall|j: int| 0 <= j < i && (#[trigger] all[j]).page_count > 0 ==> all[j].start < total,
    {
        assert(all[i as int] == chapters@[i as int]@);
        if chapters[i].page_count > 0 && chapters[i].start >= total {
            return false;
        }
    }
    true
}

/// Chapters that divide the pages among themselves lie within them.
pub proof fn dividing_chapters_fit(chapters: Seq<ChapterView>, total: nat)
    requires
        crate::comic::divide(chapters, total),
    ensures
        fit(chapters, total),
        forall|i: int|
            0 <= i < chapters.len() ==> (#[trigger] chapters[i]).start + chapters[i].page_count
                <= total,
{
    assert forall|i: int| 0 <= i < chapters.len() implies (#[trigger] chapters[i]).start
        + chapters[i].page_count <= total by {
        ends_within(chapters, total, i);
    }
}

/// A chapter ends within the pages.
proof fn ends_within(chapters: Seq<ChapterView>, total: nat, i: int)
    requires
        crate::comic::divide(chapters, total),
        0 <= i < chapters.len(),
    ensures
        chapters[i].start + chapters[i].page_count <= total,
    decreases chapters.len() - i,
{
    if i + 1 < chapters.len() {
        ends_within(chapters, total, i + 1);
        assert(chapters[i + 1].start == chapters[i].start + chapters[i].page_count);
    }
}

impl App {
    /// Whether the chapters lie within the pages.
    pub open spec fn well_formed(self) -> bool {
        fit(self@.chapters, self@.sources.len())
    }
}

// ── Sets ─────────────────────────────────────────────────────────────────────

/// No numbers.
pub(crate) fn no_numbers() -> (r: HashSet<usize>)
    ensures
        r@ == Set::<usize>::empty(),
{
    HashSet::new()
}

/// Adds a number.
pub(crate) fn put_number(s: &mut HashSet<usize>, x: usize)
    ensures
        final(s)@ == old(s)@.insert(x),
{
    s.insert(x);
}

/// Takes a number out.
pub(crate) fn drop_number(s: &mut HashSet<usize>, x: usize)
    ensures
        final(s)@ == old(s)@.remove(x),
{
    s.remove(&x);
}

/// Whether a number is there.
pub(crate) fn has_number(s: &HashSet<usize>, x: usize) -> (r: bool)
    ensures
        r == s@.contains(x),
{
    s.contains(&x)
}

/// Adds an identifier.
pub(crate) fn put_id(s: &mut HashSet<i64>, x: i64)
    ensures
        final(s)@ == old(s)@.insert(x),
{
    s.insert(x);
}

/// Whether an identifier is there.
pub(crate) fn has_id(s: &HashSet<i64>, x: i64) -> (r: bool)
    ensures
        r == s@.contains(x),
{
    s.contains(&x)
}

/// Adds a finger, and tells how many there are then.
pub(crate) fn put_finger(s: &mut HashSet<u64>, x: u64) -> (r: usize)
    ensures
        final(s)@ == old(s)@.insert(x),
        r == final(s)@.len(),
{
    s.insert(x);
    s.len()
}

/// Takes a finger away.
pub(crate) fn drop_finger(s: &mut HashSet<u64>, x: u64)
    ensures
        final(s)@ == old(s)@.remove(x),
{
    s.remove(&x);
}

// ── Chapters ─────────────────────────────────────────────────────────────────

/// Whether a page belongs to a chapter.
pub open spec fn in_chapter(ch: ChapterView, page: int) -> bool {
    ch.start <= page < ch.start + ch.page_count
}

/// The first chapter, at or after `from`, that a page belongs to.
pub open spec fn chapter_of(chapters: Seq<ChapterView>, page: int, from: int) -> Option<int>
    decreases chapters.len() - from,
{
    if from < 0 || from >= chapters.len() {
        None
    } else if in_chapter(chapters[from], page) {
        Some(from)
    } else {
        chapter_of(chapters, page, from + 1)
    }
}

/// Each page of a comic belongs to exactly one of its chapters, and that is the
/// one that is found.
pub proof fn page_has_one_chapter(chapters: Seq<ChapterView>, total: nat, page: int)
    requires
        crate::comic::divide(chapters, total),
        0 <= page < total,
    ensures
        chapter_of(chapters, page, 0) is Some,
        forall|i: int|
            0 <= i < chapters.len() ==> (in_chapter(#[trigger] chapters[i], page) <==> chapter_of(
                chapters,
                page,
                0,
            ) == Some(i)),
{
    let k = chapter_found(chapters, total, page, 0);
    assert forall|i: int| 0 <= i < chapters.len() implies (in_chapter(
        #[trigger] chapters[i],
        page,
    ) <==> i == k) by {
        if i < k {
            starts_ordered(chapters, total, i, k);
        } else if k < i {
            starts_ordered(chapters, total, k, i);
        }
    }
}

/// The chapter of a page that does not lie ahead of the chapters from `from` on.
proof fn chapter_found(chapters: Seq<ChapterView>, total: nat, page: int, from: int) -> (k: int)
    requires
        crate::comic::divide(chapters, total),
        0 <= from < chapters.len(),
        chapters[from].start <= page < total,
    ensures
        from <= k < chapters.len(),
        chapter_of(chapters, page, from) == Some(k),
        in_chapter(chapters[k], page),
    decreases chapters.len() - from,
{
    if in_chapter(chapters[from], page) {
        from
    } else {
        if from + 1 < chapters.len() {
            assert(chapters[from + 1].start == chapters[from].start + chapters[from].page_count);
        }
        chapter_found(chapters, total, page, from + 1)
    }
}

/// A chapter ends before a later one starts.
proof fn starts_ordered(chapters: Seq<ChapterView>, total: nat, i: int, j: int)
    requires
        crate::comic::divide(chapters, total),
        0 <= i < j < chapters.len(),
    ensures
        chapters[i].start + chapters[i].page_count <= chapters[j].start,
    decreases j - i,
{
    assert(chapters[j].start == chapters[j - 1].start + chapters[j - 1].page_count);
    if i + 1 < j {
        starts_ordered(chapters, total, i, j - 1);
    }
}

impl App {
    /// The chapter of the current page, and the place of the page in it.
    pub fn current_chapter(&self) -> (r: Option<(usize, usize)>)
        ensures
            match r {
                Some((i, page)) => {
                    &&& i < self.chapters@.len()
                    &&& chapter_of(self@.chapters, self@.current_page, 0) == Some(i as int)
                    &&& in_chapter(self@.chapters[i as int], self@.current_page)
                    &&& page == self@.current_page - self@.chapters[i as int].start
                },
                None => chapter_of(self@.chapters, self@.current_page, 0) is None,
            },
    {
        reveal(App::model);
        let ghost all = self@.chapters;
        for i in 0..self.chapters.len()
            invariant
                all == chapter_views(self.chapters@),
                all == self@.chapters,
                self@.current_page == self.current_page,
                chapter_of(all, self@.current_page, 0) == chapter_of(
                    all,
                    self@.current_page,
                    i as int,
                ),
        {
            assert(all[i as int] == self.chapters@[i as int]@);
            let ch = &self.chapters[i];
            if self.current_page >= ch.start && self.current_page - ch.start < ch.page_count {
                return Some((i, self.current_page - ch.start));
            }
        }
        None
    }

    /// How many pages a step forward or back takes.
    pub fn page_step(&self) -> (r: usize)
        ensures
            r == step_of(self.layout),
    {
        if self.layout == Layout::Dual {
            2
        } else {
            1
        }
    }

    /// The decoded page that is closest to the current one, to stand in for it
    /// while it is being decoded. Of two that are equally close it may be either.
    pub fn nearest_cached(&self) -> (r: Option<usize>)
        ensures
            match r {
                Some(i) => self.cache@.contains(i) && forall|j: usize|
                    #[trigger] self.cache@.contains(j) ==> distance(
                        i as int,
                        self@.current_page,
                    ) <= distance(j as int, self@.current_page),
                None => forall|j: usize| !#[trigger] self.cache@.contains(j),
            },
    {
        reveal(App::model);
        let mut best: Option<usize> = None;
        let ghost cur = self@.current_page;
        for x in iter: self.cache.iter()
            invariant
                cur == self.current_page,
                match best {
                    Some(i) => self.cache@.contains(i) && forall|k: int|
                        0 <= k < iter.index() ==> distance(i as int, cur) <= distance(
                            *(#[trigger] iter.seq()[k]) as int,
                            cur,
                        ),
                    None => iter.index() == 0,
                },
        {
            let d: usize = apart(self.current_page, *x);
            let closer = match best {
                Some(b) => d < apart(self.current_page, b),
                None => true,
            };
            if closer {
                best = Some(*x);
            }
        }
        best
    }
}

/// How many pages a step forward or back takes in a layout.
pub open spec fn step_of(layout: Layout) -> int {
    if layout == Layout::Dual {
        2
    } else {
        1
    }
}

/// How far two pages lie apart.
fn apart(a: usize, b: usize) -> (r: usize)
    ensures
        r == distance(b as int, a as int),
{
    if b < a {
        a - b
    } else {
        b - a
    }
}

/// How far two pages lie apart.
pub open spec fn distance(a: int, b: int) -> int {
    if a < b {
        b - a
    } else {
        a - b
    }
}

} // verus!
