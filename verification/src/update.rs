//! What each message does to the application: the state that follows, and the
//! actions that are asked for, in order.
use crate::app::{
    action_models, fit, Action, ActionModel, App, AppView, ContextPage, KeyPress, Layout, Message,
    Model, OpenFacts,
};
use crate::comic::{chapter_views, page_views, ChapterView, PageView};
use crate::epub::EpubBook;
use crate::opening::{book_loaded, comic_loaded, comicvine_loaded, metadata_loaded, opened_from_library, page_copied,
    page_decoded, page_fitted, path_chosen};
use crate::reading::{can_zoom, chapter_select_toggled, chapter_selected, covers_looked, fullscreen_toggled,
    layout_toggled, next_page, prev_page, theater_toggled, touched, turned_to, zoom_entered, zoom_set};
use crate::reading::{book_turned_to, other_layout};
use crate::window::refreshed;
use crate::settings::{Background, Settings};
use crate::shelf::{chapter_cover_ready, cover_ready, entry_scanned, folder_chosen, folder_removed, listed,
    path_submitted, searched};
use crate::steps::{chain, failed, listing, nothing, only, opening, unchanged};
use crate::tasks::{first_path, first_path_from_uri_list};
use crate::text::{chars_of, contains_text, holds_text, opt_text, same_text, texts};
use vstd::prelude::*;

verus! {

// ── The window ───────────────────────────────────────────────────────────────

/// The library is shown.
#[verifier::opaque]
pub open spec fn library_shown(m: Model) -> (Model, Seq<ActionModel>) {
    let n = Model { app_view: AppView::Library, show_chapter_select: false, ..m };
    (n, seq![ActionModel::SetHeaderTitle("Cosmic Comic — Library"@)] + listing(n))
}

/// The reader is shown.
#[verifier::opaque]
pub open spec fn reader_shown(m: Model) -> (Model, Seq<ActionModel>) {
    (
        Model { app_view: AppView::Reader, ..m },
        seq![ActionModel::SetHeaderTitle(m.title)],
    )
}

/// The drawer shows a page, or is closed if it shows that page already.
#[verifier::opaque]
pub open spec fn drawer_toggled(m: Model, page: ContextPage) -> (Model, Seq<ActionModel>) {
    let showing = m.show_context && m.context_page == page;
    (
        Model {
            context_page: page,
            show_context: !showing,
            show_chapter_select: m.show_chapter_select && !(page == ContextPage::Info && !showing),
            ..m
        },
        seq![ActionModel::ShowContext(!showing)],
    )
}

/// The drawer is closed.
#[verifier::opaque]
pub open spec fn drawer_closed(m: Model) -> (Model, Seq<ActionModel>) {
    (Model { show_context: false, ..m }, seq![ActionModel::ShowContext(false)])
}

/// A background style is chosen by its place in the list of styles.
#[verifier::opaque]
pub open spec fn background_chosen(m: Model, idx: usize) -> (Model, Seq<ActionModel>) {
    if idx == Background::Theme.place() {
        (
            Model { settings: Settings { background: Background::Theme, ..m.settings }, ..m },
            seq![ActionModel::SaveSettings],
        )
    } else if idx == Background::Black.place() {
        (
            Model { settings: Settings { background: Background::Black, ..m.settings }, ..m },
            seq![ActionModel::SaveSettings],
        )
    } else {
        unchanged(m)
    }
}

/// Looking up metadata is switched on or off.
#[verifier::opaque]
pub open spec fn fetching_set(m: Model, enabled: bool) -> (Model, Seq<ActionModel>) {
    (
        Model { settings: Settings { fetch_metadata: enabled, ..m.settings }, ..m },
        seq![ActionModel::SaveSettings],
    )
}

/// Something was dropped on the window: the first of the files is opened.
#[verifier::opaque]
pub open spec fn files_dropped(m: Model, paths: Seq<Seq<char>>) -> (Model, Seq<ActionModel>) {
    if paths.len() > 0 {
        opening(m, paths[0])
    } else {
        unchanged(m)
    }
}

/// Data was dropped on the window: the first file of a list of addresses is
/// opened.
#[verifier::opaque]
pub open spec fn data_dropped(m: Model, mime: Seq<char>, data: Seq<u8>) -> (
    Model,
    Seq<ActionModel>,
) {
    if contains_text(mime, "uri-list"@) && first_path(data) is Some {
        opening(m, first_path(data)->0)
    } else {
        unchanged(m)
    }
}

impl App {
    /// Shows the library.
    fn show_library(&mut self) -> (r: Vec<Action>)
        ensures
            (final(self)@, action_models(r@)) == library_shown(old(self)@),
    {
        reveal(library_shown);
        let ghost n = Model { app_view: AppView::Library, show_chapter_select: false, ..self@ };
        self.app_view = AppView::Library;
        self.show_chapter_select = false;
        assert(self@ == n) by {
            reveal(App::model);
        }
        let list = self.reload_library();
        chain(only(Action::SetHeaderTitle("Cosmic Comic — Library".to_owned())), list)
    }

    /// Shows the reader.
    fn show_reader(&mut self) -> (r: Vec<Action>)
        ensures
            (final(self)@, action_models(r@)) == reader_shown(old(self)@),
    {
        reveal(reader_shown);
        let ghost n = Model { app_view: AppView::Reader, ..self@ };
        self.app_view = AppView::Reader;
        assert(self@ == n) by {
            reveal(App::model);
        }
        only(Action::SetHeaderTitle(self.title_at_hand()))
    }

    /// Shows a page in the drawer, or closes the drawer if it shows that page
    /// already.
    fn toggle_drawer(&mut self, page: ContextPage) -> (r: Vec<Action>)
        ensures
            (final(self)@, action_models(r@)) == drawer_toggled(old(self)@, page),
    {
        reveal(drawer_toggled);
        let showing = self.shows_page(page);
        let chapters = self.shows_chapters() && !(page == ContextPage::Info && !showing);
        self.set_drawer(page, !showing, chapters);
        only(Action::ShowContext(!showing))
    }

    /// Whether the drawer shows a page.
    fn shows_page(&self, page: ContextPage) -> (r: bool)
        ensures
            r == (self@.show_context && self@.context_page == page),
    {
        reveal(App::model);
        self.show_context && self.context_page == page
    }

    /// Sets what the drawer shows, and whether the list of chapters is shown.
    fn set_drawer(&mut self, page: ContextPage, show: bool, chapters: bool)
        ensures
            final(self)@ == (Model {
                context_page: page,
                show_context: show,
                show_chapter_select: chapters,
                ..old(self)@
            }),
    {
        let ghost n = Model {
            context_page: page,
            show_context: show,
            show_chapter_select: chapters,
            ..self@
        };
        self.context_page = page;
        self.show_context = show;
        self.show_chapter_select = chapters;
        assert(self@ == n) by {
            reveal(App::model);
        }
    }

    /// Closes the drawer.
    fn close_drawer(&mut self) -> (r: Vec<Action>)
        ensures
            (final(self)@, action_models(r@)) == drawer_closed(old(self)@),
    {
        reveal(drawer_closed);
        let ghost m = self@;
        self.show_context = false;
        assert(self@ == (Model { show_context: false, ..m })) by {
            reveal(App::model);
        }
        only(Action::ShowContext(false))
    }

    /// The preferences.
    fn preferences(&self) -> (r: Settings)
        ensures
            r == self@.settings,
    {
        reveal(App::model);
        self.settings
    }

    /// Chooses a background style by its place in the list of styles.
    fn choose_background(&mut self, idx: usize) -> (r: Vec<Action>)
        ensures
            (final(self)@, action_models(r@)) == background_chosen(old(self)@, idx),
    {
        reveal(background_chosen);
        match Background::from_index(idx) {
            Some(background) => {
                let settings = Settings { background, ..self.preferences() };
                self.set_settings(settings);
                only(Action::SaveSettings)
            },
            None => {
                assert(Background::Theme.place() != idx && Background::Black.place() != idx);
                nothing()
            },
        }
    }

    /// Switches looking up metadata on or off.
    fn set_fetching(&mut self, enabled: bool) -> (r: Vec<Action>)
        ensures
            (final(self)@, action_models(r@)) == fetching_set(old(self)@, enabled),
    {
        reveal(fetching_set);
        let settings = Settings { fetch_metadata: enabled, ..self.preferences() };
        self.set_settings(settings);
        only(Action::SaveSettings)
    }

    /// Opens the first of the files that were dropped.
    fn drop_files(&mut self, paths: Vec<String>) -> (r: Vec<Action>)
        ensures
            (final(self)@, action_models(r@)) == files_dropped(old(self)@, texts(paths@)),
    {
        reveal(files_dropped);
        assert(texts(paths@).len() == paths@.len());
        if paths.len() > 0 {
            assert(texts(paths@)[0] == paths@[0]@);
            self.open_now(paths[0].clone())
        } else {
            nothing()
        }
    }

    /// Opens the first file of a list of addresses that was dropped.
    fn drop_data(&mut self, mime: &str, data: &[u8]) -> (r: Vec<Action>)
        ensures
            (final(self)@, action_models(r@)) == data_dropped(old(self)@, mime@, data@),
    {
        reveal(data_dropped);
        let v = chars_of(mime);
        if holds_text(v.as_slice(), "uri-list") {
            if let Some(path) = first_path_from_uri_list(data) {
                return self.open_now(path);
            }
        }
        nothing()
    }

    /// Closes the error that is shown.
    fn close_error(&mut self)
        ensures
            final(self)@ == (Model { error: None, ..old(self)@ }),
    {
        let ghost n = Model { error: None, ..self@ };
        self.error = None;
        assert(self@ == n) by {
            reveal(App::model);
        }
    }

    /// Notes whether the control key is held.
    fn set_control(&mut self, held: bool)
        ensures
            final(self)@ == (Model { control: held, ..old(self)@ }),
    {
        let ghost n = Model { control: held, ..self@ };
        self.control = held;
        assert(self@ == n) by {
            reveal(App::model);
        }
    }

    /// Notes that the cover of the ComicVine match is at hand.
    fn comicvine_cover_arrived(&mut self)
        ensures
            final(self)@ == (Model { comicvine_cover: true, ..old(self)@ }),
    {
        let ghost n = Model { comicvine_cover: true, ..self@ };
        self.comicvine_cover = true;
        assert(self@ == n) by {
            reveal(App::model);
        }
    }

    /// Whether the control key is held.
    fn holds_control(&self) -> (r: bool)
        ensures
            r == self@.control,
    {
        reveal(App::model);
        self.control
    }

    /// Whether the page is zoomed.
    fn is_zoomed(&self) -> (r: bool)
        ensures
            r == self@.zoom_active,
    {
        reveal(App::model);
        self.zoom_active
    }

    /// Whether the list of chapters is shown.
    fn shows_chapters(&self) -> (r: bool)
        ensures
            r == self@.show_chapter_select,
    {
        reveal(App::model);
        self.show_chapter_select
    }
}

// ── Keys ─────────────────────────────────────────────────────────────────────

/// Whether a text is a letter, small or capital.
pub open spec fn letter(c: Seq<char>, small: Seq<char>, capital: Seq<char>) -> bool {
    c == small || c == capital
}

/// What a character does while reading.
#[verifier::opaque]
pub open spec fn character_pressed(m: Model, c: Seq<char>) -> (Model, Seq<ActionModel>) {
    if m.control && c == "0"@ {
        zoom_set(m, false)
    } else if letter(c, "f"@, "F"@) {
        fullscreen_toggled(m)
    } else if letter(c, "t"@, "T"@) {
        theater_toggled(m)
    } else if letter(c, "l"@, "L"@) {
        layout_toggled(m)
    } else if letter(c, "m"@, "M"@) {
        zoom_set(m, !m.zoom_active)
    } else if letter(c, "i"@, "I"@) {
        drawer_toggled(m, ContextPage::Info)
    } else if letter(c, "s"@, "S"@) {
        drawer_toggled(m, ContextPage::Settings)
    } else if letter(c, "c"@, "C"@) && m.chapters.len() > 1 {
        chapter_select_toggled(m)
    } else if letter(c, "p"@, "P"@) {
        (m, page_copied(m))
    } else {
        unchanged(m)
    }
}

/// What the escape key does: it ends zooming, or else conceals the list of
/// chapters.
#[verifier::opaque]
pub open spec fn escape_pressed(m: Model) -> (Model, Seq<ActionModel>) {
    if m.zoom_active {
        zoom_set(m, false)
    } else {
        unchanged(Model { show_chapter_select: false, ..m })
    }
}

/// What a key does.
#[verifier::opaque]
pub open spec fn key_pressed(m: Model, key: KeyPress) -> (Model, Seq<ActionModel>) {
    match key {
        KeyPress::ArrowRight | KeyPress::PageDown => if m.app_view == AppView::Reader {
            next_page(m)
        } else {
            unchanged(m)
        },
        KeyPress::ArrowLeft | KeyPress::PageUp => if m.app_view == AppView::Reader {
            prev_page(m)
        } else {
            unchanged(m)
        },
        KeyPress::Escape => escape_pressed(m),
        KeyPress::Character(c) => if m.app_view == AppView::Reader {
            character_pressed(m, c@)
        } else {
            unchanged(m)
        },
        KeyPress::Other => unchanged(m),
    }
}

/// Whether a text is a letter, small or capital.
fn is_letter(c: &str, small: &str, capital: &str) -> (r: bool)
    ensures
        r == letter(c@, small@, capital@),
{
    same_text(c, small) || same_text(c, capital)
}

impl App {
    /// Does what a character does while reading.
    fn press_character(&mut self, c: &str) -> (r: Vec<Action>)
        ensures
            (final(self)@, action_models(r@)) == character_pressed(old(self)@, c@),
    {
        reveal(character_pressed);
        if self.holds_control() && same_text(c, "0") {
            return self.set_zoom(false);
        }
        if is_letter(c, "f", "F") {
            return self.toggle_fullscreen();
        }
        if is_letter(c, "t", "T") {
            return self.toggle_theater();
        }
        if is_letter(c, "l", "L") {
            return self.toggle_layout();
        }
        if is_letter(c, "m", "M") {
            let active = !self.is_zoomed();
            return self.set_zoom(active);
        }
        if is_letter(c, "i", "I") {
            return self.toggle_drawer(ContextPage::Info);
        }
        if is_letter(c, "s", "S") {
            return self.toggle_drawer(ContextPage::Settings);
        }
        if is_letter(c, "c", "C") && self.chapter_count() > 1 {
            return self.toggle_chapter_select();
        }
        if is_letter(c, "p", "P") {
            return self.copy_current();
        }
        nothing()
    }

    /// Does what the escape key does.
    fn press_escape(&mut self) -> (r: Vec<Action>)
        ensures
            (final(self)@, action_models(r@)) == escape_pressed(old(self)@),
    {
        reveal(escape_pressed);
        if self.is_zoomed() {
            self.set_zoom(false)
        } else {
            self.conceal_chapters();
            nothing()
        }
    }

    /// Conceals the list of chapters.
    fn conceal_chapters(&mut self)
        ensures
            final(self)@ == (Model { show_chapter_select: false, ..old(self)@ }),
    {
        let ghost n = Model { show_chapter_select: false, ..self@ };
        self.show_chapter_select = false;
        assert(self@ == n) by {
            reveal(App::model);
        }
    }

    /// Does what a key does.
    pub fn handle_key(&mut self, key: &KeyPress) -> (r: Vec<Action>)
        ensures
            (final(self)@, action_models(r@)) == key_pressed(old(self)@, *key),
    {
        reveal(key_pressed);
        match key {
            KeyPress::ArrowRight | KeyPress::PageDown => {
                if self.in_reader() {
                    self.go_next()
                } else {
                    nothing()
                }
            },
            KeyPress::ArrowLeft | KeyPress::PageUp => {
                if self.in_reader() {
                    self.go_prev()
                } else {
                    nothing()
                }
            },
            KeyPress::Escape => self.press_escape(),
            KeyPress::Character(c) => {
                if self.in_reader() {
                    self.press_character(c.as_str())
                } else {
                    nothing()
                }
            },
            KeyPress::Other => nothing(),
        }
    }
}

// ── Messages ─────────────────────────────────────────────────────────────────

/// What a message does.
pub open spec fn updated(m: Model, message: Message) -> (Model, Seq<ActionModel>) {
    match message {
        Message::GoToLibrary => library_shown(m),
        Message::GoToReader => reader_shown(m),
        Message::OpenFile => (m, seq![ActionModel::ChooseFile]),
        Message::OpenFolder => (m, seq![ActionModel::ChooseFolder]),
        Message::PathSelected(url) => path_chosen(m, url@),
        Message::OpenFromLibrary { path, page, chapter } => opened_from_library(
            m,
            path@,
            page,
        ),
        Message::Loaded { path, sources, chapters, facts } => comic_loaded(
            m,
            path@,
            page_views(sources@),
            chapter_views(chapters@),
            facts,
        ),
        Message::EpubLoaded { path, book, saved, cover_exists } => book_loaded(
            m,
            path@,
            book,
            saved,
            cover_exists,
        ),
        Message::PageDecoded(index, ok) => page_decoded(m, index, ok),
        Message::LoadFailed(why) => failed(Model { loading: false, ..m }, why@),
        Message::Cancelled => unchanged(Model { loading: false, ..m }),
        Message::Redraw => unchanged(m),
        Message::NextPage => next_page(m),
        Message::PrevPage => prev_page(m),
        Message::CloseError => unchanged(Model { error: None, ..m }),
        Message::ToggleFullscreen => fullscreen_toggled(m),
        Message::ToggleTheater => theater_toggled(m),
        Message::ToggleLayout => layout_toggled(m),
        Message::ToggleZoom => zoom_set(m, !m.zoom_active),
        Message::ToggleInfo => drawer_toggled(m, ContextPage::Info),
        Message::ToggleChapterSelect => chapter_select_toggled(m),
        Message::SelectChapter(ch_idx) => chapter_selected(m, ch_idx as int),
        Message::CopyPage => (m, page_copied(m)),
        Message::CopiedPage(r) => match r {
            Ok(_) => unchanged(m),
            Err(e) => failed(m, e@),
        },
        Message::MetadataLoaded(result) => metadata_loaded(m, result),
        Message::ComicVineLoaded(result) => comicvine_loaded(m, result),
        Message::ComicVineCoverReady(ok) => if ok {
            unchanged(Model { comicvine_cover: true, ..m })
        } else {
            unchanged(m)
        },
        Message::ChapterCoverReady { chapter_idx, ok, found } => chapter_cover_ready(
            m,
            chapter_idx,
            ok,
            found@,
        ),
        Message::CoversLooked(list) => covers_looked(m, list@),
        Message::LibrarySearchChanged(query) => searched(m, query@),
        Message::LibraryListed { entries, on_disk } => listed(m, entries@, on_disk@),
        Message::LibraryCoverReady { series_id, path } => cover_ready(m, series_id, path@),
        Message::AddLibraryFolder => (m, seq![ActionModel::ChooseLibraryFolder]),
        Message::LibraryFolderSelected(url) => folder_chosen(m, url@),
        Message::RemoveLibraryFolder(path) => folder_removed(m, path@),
        Message::LibraryPathInputChanged(text) => unchanged(
            Model { library_path_input: text@, ..m },
        ),
        Message::LibraryPathInputSubmitted { home, is_dir } => path_submitted(
            m,
            opt_text(home),
            is_dir,
        ),
        Message::LibraryEntryScanned { outcome, cover_exists } => (
            m,
            entry_scanned(m, outcome, cover_exists),
        ),
        Message::LibraryScanCoverDone => (m, listing(m)),
        Message::ToggleSettings => drawer_toggled(m, ContextPage::Settings),
        Message::CloseContext => drawer_closed(m),
        Message::SetBackground(idx) => background_chosen(m, idx),
        Message::SetFetchMetadata(enabled) => fetching_set(m, enabled),
        Message::Key(key) => key_pressed(m, key),
        Message::ModifiersChanged(held) => unchanged(Model { control: held, ..m }),
        Message::ZoomBootstrap => if can_zoom(m) {
            zoom_entered(m)
        } else {
            unchanged(m)
        },
        Message::ZoomBootstrapWheel => if can_zoom(m) && m.control {
            zoom_entered(m)
        } else {
            unchanged(m)
        },
        Message::Touch(event) => touched(m, event),
        Message::FilesDropped(paths) => files_dropped(m, texts(paths@)),
        Message::DndDataReceived(mime, data) => data_dropped(m, mime@, data@),
        Message::FitPage => (m, page_fitted(m)),
    }
}

/// A comic that was listed takes the place of the one before; no page is asked
/// for any more.
proof fn comic_replaces(
    m: Model,
    path: Seq<char>,
    sources: Seq<PageView>,
    chapters: Seq<ChapterView>,
    facts: OpenFacts,
)
    ensures
        comic_loaded(m, path, sources, chapters, facts).0.sources == sources,
        comic_loaded(m, path, sources, chapters, facts).0.chapters == chapters,
        comic_loaded(m, path, sources, chapters, facts).0.resume is None,
{
    reveal(comic_loaded);
    reveal(crate::opening::comic_state);
    refreshed_keeps(crate::opening::comic_state(m, path, sources, chapters, facts));
}

/// A book takes the place of a comic, unless it could not be opened.
proof fn book_replaces(
    m: Model,
    path: Seq<char>,
    book: Result<EpubBook, String>,
    saved: Option<(usize, usize)>,
    cover_exists: bool,
)
    ensures
        match book {
            Ok(_) => {
                &&& book_loaded(m, path, book, saved, cover_exists).0.sources.len() == 0
                &&& book_loaded(m, path, book, saved, cover_exists).0.chapters.len() == 0
                &&& book_loaded(m, path, book, saved, cover_exists).0.resume is None
            },
            Err(_) => {
                &&& book_loaded(m, path, book, saved, cover_exists).0.sources == m.sources
                &&& book_loaded(m, path, book, saved, cover_exists).0.chapters == m.chapters
                &&& book_loaded(m, path, book, saved, cover_exists).0.resume == m.resume
            },
        },
{
    reveal(book_loaded);
    reveal(crate::opening::book_state);
}

/// What most messages leave of a comic: its pages and its chapters; and no page
/// is asked for that was not asked for before.
spec fn kept(m: Model, n: Model) -> bool {
    &&& n.chapters == m.chapters
    &&& n.sources == m.sources
    &&& n.resume is None || n.resume == m.resume
}

/// Choosing what is shown, and the preferences, leave the comic as it is.
proof fn views_keep(m: Model, message: Message)
    requires
        message is GoToLibrary || message is GoToReader || message is ToggleInfo || message is
            ToggleSettings || message is CloseContext || message is SetBackground || message is
            SetFetchMetadata,
    ensures
        kept(m, updated(m, message).0),
{
    reveal(library_shown);
    reveal(reader_shown);
    reveal(drawer_toggled);
    reveal(drawer_closed);
    reveal(background_chosen);
    reveal(fetching_set);
}

/// Switching how a comic is read leaves it as it is.
proof fn switches_keep(m: Model, message: Message)
    requires
        message is Touch || message is ToggleFullscreen || message is ToggleTheater || message is
            ToggleChapterSelect || message is ToggleZoom || message is ZoomBootstrap || message is
            ZoomBootstrapWheel,
    ensures
        kept(m, updated(m, message).0),
{
    reveal(touched);
    reveal(fullscreen_toggled);
    reveal(theater_toggled);
    reveal(chapter_select_toggled);
}

/// Choosing or dropping something leaves the comic as it is until that is
/// loaded.
proof fn choices_keep(m: Model, message: Message)
    requires
        message is PathSelected || message is FilesDropped || message is DndDataReceived,
    ensures
        kept(m, updated(m, message).0),
{
    reveal(path_chosen);
    reveal(files_dropped);
    reveal(data_dropped);
}

/// What arrives for a comic leaves its pages and chapters as they are.
proof fn arrivals_keep(m: Model, message: Message)
    requires
        message is PageDecoded || message is MetadataLoaded || message is ComicVineLoaded ||
            message is ChapterCoverReady,
    ensures
        kept(m, updated(m, message).0),
{
    reveal(page_decoded);
    reveal(metadata_loaded);
    reveal(comicvine_loaded);
    reveal(chapter_cover_ready);
}

/// What happens to the library leaves the comic as it is.
proof fn shelf_keeps(m: Model, message: Message)
    requires
        message is LibrarySearchChanged || message is LibraryListed || message is
            LibraryCoverReady || message is LibraryFolderSelected || message is
            RemoveLibraryFolder || message is LibraryPathInputSubmitted,
    ensures
        kept(m, updated(m, message).0),
{
    reveal(searched);
    reveal(listed);
    reveal(cover_ready);
    reveal(folder_chosen);
    reveal(folder_removed);
    reveal(path_submitted);
    reveal(crate::shelf::folder_added);
}

/// Moving about in a comic leaves it as it is.
proof fn steps_keep(m: Model, message: Message)
    requires
        message is NextPage || message is PrevPage || message is SelectChapter || message is
            ToggleLayout || message is CoversLooked || message is Key,
    ensures
        kept(m, updated(m, message).0),
{
    match message {
        Message::NextPage => turns_fit(m),
        Message::PrevPage => turns_fit(m),
        Message::SelectChapter(ch_idx) => {
            reveal(chapter_selected);
            turn_keeps(
                Model { show_chapter_select: false, ..m },
                m.chapters[ch_idx as int].start as int,
                1,
            );
            book_turn_keeps(Model { show_chapter_select: false, ..m }, ch_idx as int);
        },
        Message::ToggleLayout => layout_keeps(m),
        Message::CoversLooked(list) => covers_keep(m, list@),
        Message::Key(key) => keys_fit(m, key),
        _ => {},
    }
}

/// What asks for something, reports it or takes a text over leaves the comic as
/// it is.
proof fn rest_keeps(m: Model, message: Message)
    requires
        message is OpenFile || message is OpenFolder || message is LoadFailed || message is
            Cancelled || message is Redraw || message is CloseError || message is CopyPage || message
            is CopiedPage || message is ComicVineCoverReady || message is AddLibraryFolder || message
            is LibraryPathInputChanged || message is LibraryEntryScanned || message is
            LibraryScanCoverDone || message is ModifiersChanged || message is FitPage,
    ensures
        kept(m, updated(m, message).0),
{
}

/// What a message does asks for no page but where a series is opened from the
/// library, and leaves the comic unless another is taken over.
pub(crate) proof fn updates_keep(m: Model, message: Message)
    ensures
        message is Loaded || message is EpubLoaded || {
            &&& updated(m, message).0.chapters == m.chapters
            &&& updated(m, message).0.sources == m.sources
        },
        message is OpenFromLibrary || updated(m, message).0.resume is None || updated(
            m,
            message,
        ).0.resume == m.resume,
{
    match message {
        Message::Loaded { path, sources, chapters, facts } => comic_replaces(
            m,
            path@,
            page_views(sources@),
            chapter_views(chapters@),
            facts,
        ),
        Message::EpubLoaded { path, book, saved, cover_exists } => book_replaces(
            m,
            path@,
            book,
            saved,
            cover_exists,
        ),
        Message::NextPage | Message::PrevPage | Message::SelectChapter(_) | Message::ToggleLayout
        | Message::CoversLooked(_) | Message::Key(_) => steps_keep(m, message),
        Message::OpenFromLibrary { .. } => reveal(opened_from_library),
        Message::GoToLibrary | Message::GoToReader | Message::ToggleInfo |
        Message::ToggleSettings | Message::CloseContext | Message::SetBackground(_) |
        Message::SetFetchMetadata(_) => views_keep(m, message),
        Message::Touch(_) | Message::ToggleFullscreen | Message::ToggleTheater |
        Message::ToggleChapterSelect | Message::ToggleZoom | Message::ZoomBootstrap |
        Message::ZoomBootstrapWheel => switches_keep(m, message),
        Message::PathSelected(_) | Message::FilesDropped(_) | Message::DndDataReceived(..) => choices_keep(m, message),
        Message::PageDecoded(..) | Message::MetadataLoaded(_) | Message::ComicVineLoaded(_) |
        Message::ChapterCoverReady { .. } => arrivals_keep(m, message),
        Message::LibrarySearchChanged(_) | Message::LibraryListed { .. } |
        Message::LibraryCoverReady { .. } | Message::LibraryFolderSelected(_) |
        Message::RemoveLibraryFolder(_) | Message::LibraryPathInputSubmitted { .. } => shelf_keeps(m, message),
        _ => rest_keeps(m, message),
    }
}

/// What a message does leaves the chapters within the pages.
proof fn updates_fit(m: Model, message: Message)
    requires
        fit(m.chapters, m.sources.len()),
        acceptable(message),
    ensures
        fit(updated(m, message).0.chapters, updated(m, message).0.sources.len()),
{
    match message {
        Message::Loaded { path, sources, chapters, facts } => comic_replaces(
            m,
            path@,
            page_views(sources@),
            chapter_views(chapters@),
            facts,
        ),
        Message::EpubLoaded { path, book, saved, cover_exists } => book_replaces(
            m,
            path@,
            book,
            saved,
            cover_exists,
        ),
        _ => updates_keep(m, message),
    }
}

/// Bringing the window of pages up to date leaves the comic as it is, and the
/// reader where it is.
pub(crate) proof fn refreshed_keeps(m: Model)
    ensures
        refreshed(m).0.chapters == m.chapters,
        refreshed(m).0.sources == m.sources,
        refreshed(m).0.current_page == m.current_page,
        refreshed(m).0.resume == m.resume,
        refreshed(m).0.layout == m.layout,
        refreshed(m).0.settings == m.settings,
        refreshed(m).0.open_path == m.open_path,
        refreshed(m).0.epub_book == m.epub_book,
        refreshed(m).0.epub_chapter == m.epub_chapter,
{
    reveal(refreshed);
}

/// Turning to a page leads there, and leaves the comic as it is.
pub(crate) proof fn turn_keeps(m: Model, page: int, nav_dir: int)
    ensures
        turned_to(m, page, nav_dir).0.chapters == m.chapters,
        turned_to(m, page, nav_dir).0.sources == m.sources,
        turned_to(m, page, nav_dir).0.current_page == page,
        turned_to(m, page, nav_dir).0.resume == m.resume,
        turned_to(m, page, nav_dir).0.layout == m.layout,
        turned_to(m, page, nav_dir).0.epub_book == m.epub_book,
{
    reveal(turned_to);
    refreshed_keeps(Model { current_page: page, nav_dir, ..m });
}

/// Turning to a chapter of a book leaves the comic as it is.
proof fn book_turn_keeps(m: Model, chapter: int)
    ensures
        book_turned_to(m, chapter).0.chapters == m.chapters,
        book_turned_to(m, chapter).0.sources == m.sources,
        book_turned_to(m, chapter).0.current_page == m.current_page,
        book_turned_to(m, chapter).0.resume == m.resume,
{
    reveal(book_turned_to);
}

/// A step forward or back leaves the chapters within the pages.
proof fn turns_fit(m: Model)
    ensures
        next_page(m).0.chapters == m.chapters,
        next_page(m).0.sources == m.sources,
        next_page(m).0.resume == m.resume,
        prev_page(m).0.chapters == m.chapters,
        prev_page(m).0.sources == m.sources,
        prev_page(m).0.resume == m.resume,
{
    reveal(next_page);
    reveal(prev_page);
    assert forall|page: int, dir: int| (#[trigger] turned_to(m, page, dir)).0.chapters == m.chapters
        && turned_to(m, page, dir).0.sources == m.sources && turned_to(m, page, dir).0.resume
        == m.resume by {
        turn_keeps(m, page, dir);
    }
    assert forall|chapter: int| (#[trigger] book_turned_to(m, chapter)).0.chapters == m.chapters
        && book_turned_to(m, chapter).0.sources == m.sources && book_turned_to(m, chapter).0.resume
        == m.resume by {
        book_turn_keeps(m, chapter);
    }
}

/// Switching the layout leaves the comic as it is, and leads to the page at
/// which the other layout starts.
pub(crate) proof fn layout_keeps(m: Model)
    ensures
        layout_toggled(m).0.chapters == m.chapters,
        layout_toggled(m).0.sources == m.sources,
        layout_toggled(m).0.resume == m.resume,
        layout_toggled(m).0.layout == other_layout(m).layout,
        layout_toggled(m).0.current_page == other_layout(m).current_page,
        layout_toggled(m).0.settings.dual_page == (layout_toggled(m).0.layout == Layout::Dual),
{
    reveal(layout_toggled);
    let n = other_layout(m);
    refreshed_keeps(
        Model { settings: Settings { dual_page: n.layout == Layout::Dual, ..n.settings }, ..n },
    );
}

/// Looking covers up leaves the comic as it is.
proof fn covers_keep(m: Model, list: Seq<(usize, bool)>)
    ensures
        covers_looked(m, list).0.chapters == m.chapters,
        covers_looked(m, list).0.sources == m.sources,
        covers_looked(m, list).0.resume == m.resume,
    decreases list.len(),
{
    if list.len() > 0 {
        covers_keep(m, list.drop_last());
        reveal(crate::reading::cover_looked);
    }
}

/// A key leaves the chapters within the pages.
proof fn keys_fit(m: Model, key: KeyPress)
    ensures
        key_pressed(m, key).0.chapters == m.chapters,
        key_pressed(m, key).0.sources == m.sources,
        key_pressed(m, key).0.resume == m.resume,
{
    reveal(key_pressed);
    reveal(character_pressed);
    reveal(escape_pressed);
    reveal(fullscreen_toggled);
    reveal(theater_toggled);
    reveal(drawer_toggled);
    reveal(chapter_select_toggled);
    turns_fit(m);
    layout_keeps(m);
}

/// Whether a message can be taken: the chapters of a comic that is loaded lie
/// within its pages.
pub open spec fn acceptable(message: Message) -> bool {
    match message {
        Message::Loaded { path, sources, chapters, facts } => fit(
            chapter_views(chapters@),
            sources@.len(),
        ),
        _ => true,
    }
}

impl App {
    /// Does what a message does, and tells what is asked for in turn.
    pub fn update(&mut self, message: Message) -> (r: Vec<Action>)
        requires
            old(self).well_formed(),
            acceptable(message),
        ensures
            (final(self)@, action_models(r@)) == updated(old(self)@, message),
            final(self).well_formed(),
    {
        proof {
            updates_fit(self@, message);
        }
        self.take_message(message)
    }

    /// Does what a message does.
    fn take_message(&mut self, message: Message) -> (r: Vec<Action>)
        requires
            old(self).well_formed(),
        ensures
            (final(self)@, action_models(r@)) == updated(old(self)@, message),
    {
        match message {
            Message::GoToLibrary => self.show_library(),
            Message::GoToReader => self.show_reader(),
            Message::OpenFile => only(Action::ChooseFile),
            Message::OpenFolder => only(Action::ChooseFolder),
            Message::PathSelected(url) => self.path_selected(url.as_str()),
            Message::OpenFromLibrary { path, page, chapter } => self.open_from_library(path, page),
            Message::Loaded { path, sources, chapters, facts } => self.load_comic(
                path,
                sources,
                chapters,
                facts,
            ),
            Message::EpubLoaded { path, book, saved, cover_exists } => self.load_book(
                path,
                book,
                saved,
                cover_exists,
            ),
            Message::PageDecoded(index, ok) => self.take_page(index, ok),
            Message::LoadFailed(why) => {
                self.stop_loading();
                self.fail(why)
            },
            Message::Cancelled => {
                self.stop_loading();
                nothing()
            },
            Message::Redraw => nothing(),
            Message::NextPage => self.go_next(),
            Message::PrevPage => self.go_prev(),
            Message::CloseError => {
                self.close_error();
                nothing()
            },
            Message::ToggleFullscreen => self.toggle_fullscreen(),
            Message::ToggleTheater => self.toggle_theater(),
            Message::ToggleLayout => self.toggle_layout(),
            Message::ToggleZoom => {
                let active = !self.is_zoomed();
                self.set_zoom(active)
            },
            Message::ToggleInfo => self.toggle_drawer(ContextPage::Info),
            Message::ToggleChapterSelect => self.toggle_chapter_select(),
            Message::SelectChapter(ch_idx) => self.select_chapter(ch_idx),
            Message::CopyPage => self.copy_current(),
            Message::CopiedPage(r) => match r {
                Ok(_) => nothing(),
                Err(e) => self.fail(e),
            },
            Message::MetadataLoaded(result) => self.take_metadata(result),
            Message::ComicVineLoaded(result) => self.take_comicvine(result),
            Message::ComicVineCoverReady(ok) => {
                if ok {
                    self.comicvine_cover_arrived();
                }
                nothing()
            },
            Message::ChapterCoverReady { chapter_idx, ok, found } => self.chapter_cover_done(
                chapter_idx,
                ok,
                &found,
            ),
            Message::CoversLooked(list) => self.look_covers(&list),
            Message::LibrarySearchChanged(query) => self.search_library(query),
            Message::LibraryListed { entries, on_disk } => self.library_listed(entries, &on_disk),
            Message::LibraryCoverReady { series_id, path } => self.library_cover_ready(
                series_id,
                path,
            ),
            Message::AddLibraryFolder => only(Action::ChooseLibraryFolder),
            Message::LibraryFolderSelected(url) => self.folder_selected(url.as_str()),
            Message::RemoveLibraryFolder(path) => self.remove_library_folder(path),
            Message::LibraryPathInputChanged(text) => {
                self.set_path_input(text);
                nothing()
            },
            Message::LibraryPathInputSubmitted { home, is_dir } => match &home {
                Some(h) => self.submit_path(Some(h.as_str()), is_dir),
                None => self.submit_path(None, is_dir),
            },
            Message::LibraryEntryScanned { outcome, cover_exists } => self.take_scan(
                outcome,
                cover_exists,
            ),
            Message::LibraryScanCoverDone => self.reload_library(),
            Message::ToggleSettings => self.toggle_drawer(ContextPage::Settings),
            Message::CloseContext => self.close_drawer(),
            Message::SetBackground(idx) => self.choose_background(idx),
            Message::SetFetchMetadata(enabled) => self.set_fetching(enabled),
            Message::Key(key) => self.handle_key(&key),
            Message::ModifiersChanged(held) => {
                self.set_control(held);
                nothing()
            },
            Message::ZoomBootstrap => self.bootstrap_zoom(true),
            Message::ZoomBootstrapWheel => {
                let held = self.holds_control();
                self.bootstrap_zoom(held)
            },
            Message::Touch(event) => self.handle_touch(event),
            Message::FilesDropped(paths) => self.drop_files(paths),
            Message::DndDataReceived(mime, data) => self.drop_data(mime.as_str(), data.as_slice()),
            Message::FitPage => self.fit_current(),
        }
    }
}

} // verus!
