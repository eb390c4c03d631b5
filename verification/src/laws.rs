//! What holds of the application as a whole, whatever message comes.
use crate::app::{
    chapter_of, step_of, ActionModel, KeyPress, Layout, Message, Model, TouchEvent,
};
use crate::comic::{chapter_views, page_views, ChapterView};
use crate::comicvine::ComicVineMatch;
use crate::epub::EpubBook;
use crate::metadata::SeriesMetadata;
use crate::opening::{
    book_loaded, book_state, comic_loaded, comic_state, opened_from_library, path_chosen,
};
use crate::reading::{
    book_turned_to, chapter_select_toggled, chapter_selected, fullscreen_toggled, layout_toggled,
    next_page, other_layout, prev_page, theater_toggled, turned_to,
};
use crate::settings::Settings;
use crate::steps::{last_place, progress, smaller, unchanged};
use crate::update::{
    character_pressed, data_dropped, drawer_toggled, files_dropped, key_pressed, layout_keeps,
    refreshed_keeps, turn_keeps, updated, updates_keep,
};
use crate::window::refreshed;
use vstd::prelude::*;

verus! {

/// Whether the current page is one of the pages.
pub open spec fn on_a_page(m: Model) -> bool {
    0 <= m.current_page < m.sources.len()
}

// ── Reading ──────────────────────────────────────────────────────────────────

/// Turning pages, selecting a chapter that has pages, and switching the layout
/// never lead off the comic's pages.
pub proof fn reading_stays_on_the_pages(m: Model, message: Message)
    requires
        on_a_page(m),
        message is NextPage || message is PrevPage || message is ToggleLayout || (message matches
            Message::SelectChapter(i) && (i < m.chapters.len() ==> m.chapters[i as int].start
            < m.sources.len())),
    ensures
        on_a_page(updated(m, message).0),
        updated(m, message).0.sources == m.sources,
{
    match message {
        Message::NextPage => {
            reveal(next_page);
            reveal(book_turned_to);
            let new = smaller(m.current_page + step_of(m.layout), last_place(m.sources.len()));
            turn_keeps(m, new, 1);
        },
        Message::PrevPage => {
            reveal(prev_page);
            reveal(book_turned_to);
            let new = if m.current_page < step_of(m.layout) {
                0
            } else {
                m.current_page - step_of(m.layout)
            };
            turn_keeps(m, new, -1);
        },
        Message::SelectChapter(i) => {
            reveal(chapter_selected);
            reveal(book_turned_to);
            let n = Model { show_chapter_select: false, ..m };
            turn_keeps(n, m.chapters[i as int].start as int, 1);
        },
        Message::ToggleLayout => layout_keeps(m),
        _ => {},
    }
}

/// A step back undoes a step forward, unless the step forward was cut short by
/// the end of the comic.
pub proof fn back_undoes_forward(m: Model)
    requires
        m.epub_book is None,
        0 <= m.current_page,
        m.current_page + step_of(m.layout) < m.sources.len(),
    ensures
        updated(updated(m, Message::NextPage).0, Message::PrevPage).0.current_page
            == m.current_page,
{
    reveal(next_page);
    reveal(prev_page);
    let new = m.current_page + step_of(m.layout);
    let there = updated(m, Message::NextPage).0;
    turn_keeps(m, new, 1);
    assert(there.current_page == new);
    turn_keeps(there, m.current_page, -1);
}

/// In a book, too, a step back undoes a step forward that was not cut short by
/// the end.
pub proof fn back_undoes_forward_in_a_book(m: Model)
    requires
        m.epub_book is Some,
        0 <= m.epub_chapter,
        m.epub_chapter + 1 < m.epub_book->0.chapters@.len(),
    ensures
        updated(updated(m, Message::NextPage).0, Message::PrevPage).0.epub_chapter
            == m.epub_chapter,
{
    reveal(next_page);
    reveal(prev_page);
    reveal(book_turned_to);
}

/// Two pages at a time start at an even page.
pub proof fn two_pages_start_even(m: Model)
    requires
        m.layout == Layout::Single,
        m.current_page >= 0,
    ensures
        updated(m, Message::ToggleLayout).0.layout == Layout::Dual,
        updated(m, Message::ToggleLayout).0.current_page % 2 == 0,
{
    layout_keeps(m);
}

/// Switching the whole screen, zooming or the list of chapters back and forth
/// ends where it began.
pub proof fn switching_twice_changes_nothing(m: Model)
    ensures
        updated(updated(m, Message::ToggleFullscreen).0, Message::ToggleFullscreen).0 == m,
        updated(updated(m, Message::ToggleZoom).0, Message::ToggleZoom).0 == m,
        updated(updated(m, Message::ToggleChapterSelect).0, Message::ToggleChapterSelect).0 == m,
{
    reveal(fullscreen_toggled);
    reveal(chapter_select_toggled);
}

/// Switching theater mode back and forth ends where it began; the preference is
/// the mode that is on.
pub proof fn theater_twice_changes_nothing(m: Model)
    ensures
        updated(updated(m, Message::ToggleTheater).0, Message::ToggleTheater).0 == (Model {
            settings: crate::settings::Settings { theater_mode: m.theater_mode, ..m.settings },
            ..m
        }),
{
    reveal(theater_toggled);
}

/// Switching the layout back and forth ends at the layout where it began; the
/// preference is the layout that is shown.
pub proof fn layout_twice_changes_nothing(m: Model)
    ensures
        updated(updated(m, Message::ToggleLayout).0, Message::ToggleLayout).0.layout == m.layout,
        updated(m, Message::ToggleLayout).0.layout != m.layout,
        updated(m, Message::ToggleLayout).0.settings.dual_page == (updated(
            m,
            Message::ToggleLayout,
        ).0.layout == Layout::Dual),
{
    layout_keeps(m);
    layout_keeps(updated(m, Message::ToggleLayout).0);
}

/// Opening the settings or the details twice closes the drawer again.
pub proof fn drawer_twice_is_closed(m: Model)
    requires
        !m.show_context,
    ensures
        updated(m, Message::ToggleSettings).0.show_context,
        updated(m, Message::ToggleInfo).0.show_context,
        !updated(updated(m, Message::ToggleSettings).0, Message::ToggleSettings).0.show_context,
        !updated(updated(m, Message::ToggleInfo).0, Message::ToggleInfo).0.show_context,
        updated(updated(m, Message::ToggleSettings).0, Message::ToggleInfo).0.show_context,
{
    reveal(drawer_toggled);
}

// ── Progress ─────────────────────────────────────────────────────────────────

/// The progress that is saved in a state.
pub open spec fn progress_saved(m: Model, actions: Seq<ActionModel>) -> bool {
    exists|k: int|
        0 <= k < actions.len() && #[trigger] actions[k] == (ActionModel::SaveProgress {
            path: m.open_path->0,
            page: if m.epub_book is Some {
                0
            } else {
                m.current_page
            },
            chapter: if m.epub_book is Some {
                m.epub_chapter
            } else {
                match chapter_of(m.chapters, m.current_page, 0) {
                    Some(i) => i,
                    None => 0,
                }
            },
        })
}

/// Whenever turning pages or selecting a chapter leads to another place, that
/// place is saved, if there is a library.
pub proof fn a_new_place_is_saved(m: Model, message: Message)
    requires
        message is NextPage || message is PrevPage || message is SelectChapter,
        m.has_db,
        m.open_path is Some,
        updated(m, message).0.current_page != m.current_page || updated(m, message).0.epub_chapter
            != m.epub_chapter,
    ensures
        progress_saved(updated(m, message).0, updated(m, message).1),
{
    reveal(next_page);
    reveal(prev_page);
    reveal(chapter_selected);
    match message {
        Message::NextPage => {
            match m.epub_book {
                Some(book) => {
                    book_turn_saves(
                        m,
                        smaller(m.epub_chapter + 1, last_place(book.chapters@.len())),
                    );
                },
                None => {
                    turn_saves(
                        m,
                        smaller(m.current_page + step_of(m.layout), last_place(m.sources.len())),
                        1,
                    );
                },
            }
        },
        Message::PrevPage => {
            book_turn_saves(m, m.epub_chapter - 1);
            turn_saves(
                m,
                if m.current_page < step_of(m.layout) {
                    0
                } else {
                    m.current_page - step_of(m.layout)
                },
                -1,
            );
        },
        Message::SelectChapter(i) => {
            let n = Model { show_chapter_select: false, ..m };
            book_turn_saves(n, i as int);
            turn_saves(n, m.chapters[i as int].start as int, 1);
        },
        _ => {},
    }
}

/// Turning to a page saves it.
proof fn turn_saves(m: Model, page: int, nav_dir: int)
    requires
        m.has_db,
        m.open_path is Some,
    ensures
        progress_saved(turned_to(m, page, nav_dir).0, turned_to(m, page, nav_dir).1),
{
    reveal(turned_to);
    reveal(progress);
    let n = Model { current_page: page, nav_dir, ..m };
    refreshed_keeps(n);
    assert(turned_to(m, page, nav_dir).1[0] == progress(n)[0]);
}

/// Turning to a chapter of a book saves it.
proof fn book_turn_saves(m: Model, chapter: int)
    requires
        m.has_db,
        m.open_path is Some,
    ensures
        progress_saved(book_turned_to(m, chapter).0, book_turned_to(m, chapter).1),
{
    reveal(book_turned_to);
    reveal(progress);
    assert(book_turned_to(m, chapter).1[0] == progress(Model { epub_chapter: chapter, ..m })[0]);
}

/// A comic that is opened with no page asked for resumes at the page that was
/// saved for it, as long as it still has that page, wherever the reader was
/// before; and a book at the chapter that was saved.
pub proof fn reading_resumes_where_it_was_left(m: Model, message: Message)
    requires
        m.has_db,
        message is Loaded ==> m.resume is None,
    ensures
        match message {
            Message::Loaded { path, sources, chapters, facts } => facts.saved is Some
                && (facts.saved->0).0 < sources@.len() ==> updated(m, message).0.current_page
                == (facts.saved->0).0,
            Message::EpubLoaded { path, book, saved, cover_exists } => book is Ok && saved is Some
                && (saved->0).1 < book->Ok_0.chapters@.len() ==> updated(m, message).0.epub_chapter
                == (saved->0).1,
            _ => true,
        },
{
    match message {
        Message::Loaded { path, sources, chapters, facts } => {
            reveal(comic_loaded);
            reveal(comic_state);
            refreshed_keeps(
                comic_state(m, path@, page_views(sources@), chapter_views(chapters@), facts),
            );
        },
        Message::EpubLoaded { path, book, saved, cover_exists } => {
            reveal(book_loaded);
            reveal(book_state);
        },
        _ => {},
    }
}

/// A page is asked for only where a series is opened from the library; whatever
/// else is opened, by choosing it or by dropping it, asks for none.
pub proof fn only_the_library_asks_for_a_page(m: Model, message: Message)
    ensures
        !(message is OpenFromLibrary) && m.resume is None ==> updated(m, message).0.resume is None,
        (message is PathSelected || message is FilesDropped || message is DndDataReceived)
            && updated(m, message).1.len() > 0 ==> updated(m, message).0.resume is None,
{
    updates_keep(m, message);
    reveal(path_chosen);
    reveal(files_dropped);
    reveal(data_dropped);
}

/// A comic that is chosen or dropped, whatever is being read and at whichever
/// page, resumes once it is listed at the page that was saved for it.
pub proof fn a_chosen_comic_resumes_at_its_own_page(m: Model, choice: Message, loaded: Message)
    requires
        m.has_db,
        choice is PathSelected || choice is FilesDropped || choice is DndDataReceived,
        updated(m, choice).1.len() > 0,
        loaded is Loaded,
        loaded->facts.saved is Some,
        (loaded->facts.saved->0).0 < loaded->sources@.len(),
    ensures
        updated(updated(m, choice).0, loaded).0.current_page == (loaded->facts.saved->0).0,
{
    only_the_library_asks_for_a_page(m, choice);
    let n = updated(m, choice).0;
    assert(n.has_db) by {
        reveal(path_chosen);
        reveal(files_dropped);
        reveal(data_dropped);
    }
    reading_resumes_where_it_was_left(n, loaded);
}

/// A series that is opened from the library resumes at the page that was asked
/// for, as long as it still has that page.
pub proof fn the_library_opens_at_the_page_asked_for(m: Model, choice: Message, loaded: Message)
    requires
        choice is OpenFromLibrary,
        0 < choice->page < loaded->sources@.len(),
        loaded is Loaded,
    ensures
        updated(updated(m, choice).0, loaded).0.current_page == choice->page,
{
    if let Message::Loaded { path, sources, chapters, facts } = loaded {
        reveal(opened_from_library);
        reveal(comic_loaded);
        reveal(comic_state);
        refreshed_keeps(
            comic_state(
                updated(m, choice).0,
                path@,
                page_views(sources@),
                chapter_views(chapters@),
                facts,
            ),
        );
    }
}

/// A comic that has pages is opened on one of them, whatever was asked for or
/// saved.
pub proof fn a_comic_opens_on_a_page(m: Model, message: Message)
    requires
        message is Loaded,
        message->sources@.len() > 0,
    ensures
        on_a_page(updated(m, message).0),
{
    if let Message::Loaded { path, sources, chapters, facts } = message {
        reveal(comic_loaded);
        reveal(comic_state);
        refreshed_keeps(
            comic_state(m, path@, page_views(sources@), chapter_views(chapters@), facts),
        );
    }
}

// ── Keys ─────────────────────────────────────────────────────────────────────

/// While the library is shown, no key but escape does anything.
pub proof fn keys_read_only_in_the_reader(m: Model, key: KeyPress)
    requires
        m.app_view == crate::app::AppView::Library,
        !(key is Escape),
    ensures
        updated(m, Message::Key(key)) == unchanged(m),
{
    reveal(key_pressed);
}

/// The arrow keys and the page keys do in the reader what the buttons do.
pub proof fn keys_turn_pages(m: Model)
    requires
        m.app_view == crate::app::AppView::Reader,
    ensures
        updated(m, Message::Key(KeyPress::ArrowRight)) == updated(m, Message::NextPage),
        updated(m, Message::Key(KeyPress::PageDown)) == updated(m, Message::NextPage),
        updated(m, Message::Key(KeyPress::ArrowLeft)) == updated(m, Message::PrevPage),
        updated(m, Message::Key(KeyPress::PageUp)) == updated(m, Message::PrevPage),
{
    reveal(key_pressed);
}

/// The letters T and L do in the reader what the switches for theater mode and
/// the layout do: the preference is remembered.
pub proof fn letters_keep_preferences(m: Model, c: String)
    requires
        m.app_view == crate::app::AppView::Reader,
    ensures
        c@ == "t"@ || c@ == "T"@ ==> updated(m, Message::Key(KeyPress::Character(c))) == updated(
            m,
            Message::ToggleTheater,
        ),
        c@ == "l"@ || c@ == "L"@ ==> updated(m, Message::Key(KeyPress::Character(c))) == updated(
            m,
            Message::ToggleLayout,
        ),
{
    reveal(key_pressed);
    reveal(character_pressed);
    reveal_strlit("0");
    reveal_strlit("f");
    reveal_strlit("F");
    reveal_strlit("t");
    reveal_strlit("T");
    reveal_strlit("l");
    reveal_strlit("L");
    if c@ == "t"@ || c@ == "T"@ || c@ == "l"@ || c@ == "L"@ {
        assert("0"@[0] == '0' && "f"@[0] == 'f' && "F"@[0] == 'F' && "t"@[0] == 't' && "T"@[0]
            == 'T' && "l"@[0] == 'l' && "L"@[0] == 'L');
    }
}

// ── What each message does ───────────────────────────────────────────────────

/// One step forward turns as many pages as are shown, or to the last page if fewer are
/// left; on the last page nothing happens. The reader is then headed forward.
pub proof fn forward_turns_as_many_pages_as_are_shown(m: Model)
    requires
        on_a_page(m),
        m.epub_book is None,
    ensures
        ({
            let step = if m.layout == Layout::Dual {
                2int
            } else {
                1int
            };
            let (n, actions) = updated(m, Message::NextPage);
            &&& m.current_page + step < m.sources.len() ==> n.current_page == m.current_page + step
            &&& m.current_page + step >= m.sources.len() ==> n.current_page == m.sources.len() - 1
            &&& n.current_page != m.current_page ==> n.nav_dir == 1
            &&& m.current_page == m.sources.len() - 1 ==> n == m && actions.len() == 0
            &&& n.epub_chapter == m.epub_chapter && n.layout == m.layout && n.settings
                == m.settings && n.app_view == m.app_view && n.title == m.title && n.open_path
                == m.open_path && n.zoom_active == m.zoom_active && n.chapters == m.chapters
        }),
{
    reveal(next_page);
    let new = smaller(m.current_page + step_of(m.layout), last_place(m.sources.len()));
    turn_keeps(m, new, 1);
    turn_changes(m, new, 1);
}

/// One step back turns as many pages as are shown, or to the first page if fewer are
/// left; on the first page nothing happens. The reader is then headed back.
pub proof fn back_turns_as_many_pages_as_are_shown(m: Model)
    requires
        on_a_page(m),
        m.epub_book is None,
    ensures
        ({
            let step = if m.layout == Layout::Dual {
                2int
            } else {
                1int
            };
            let (n, actions) = updated(m, Message::PrevPage);
            &&& m.current_page >= step ==> n.current_page == m.current_page - step
            &&& m.current_page < step ==> n.current_page == 0
            &&& n.current_page != m.current_page ==> n.nav_dir == -1
            &&& m.current_page == 0 ==> n == m && actions.len() == 0
            &&& n.epub_chapter == m.epub_chapter && n.layout == m.layout && n.settings
                == m.settings && n.app_view == m.app_view && n.title == m.title && n.open_path
                == m.open_path && n.zoom_active == m.zoom_active && n.chapters == m.chapters
        }),
{
    reveal(prev_page);
    let new = if m.current_page < step_of(m.layout) {
        0
    } else {
        m.current_page - step_of(m.layout)
    };
    turn_keeps(m, new, -1);
    turn_changes(m, new, -1);
}

/// What turning to a page changes.
proof fn turn_changes(m: Model, page: int, nav_dir: int)
    ensures
        ({
            let n = turned_to(m, page, nav_dir).0;
            n == Model { current_page: page, nav_dir, cache: n.cache, pending: n.pending, ..m }
        }),
{
    reveal(turned_to);
    reveal(refreshed);
}

/// In a book a step turns one chapter, and stops at the first and the last.
pub proof fn a_step_in_a_book_is_a_chapter(m: Model)
    requires
        m.epub_book is Some,
        0 <= m.epub_chapter < m.epub_book->0.chapters@.len(),
    ensures
        updated(m, Message::NextPage).0 == (Model {
            epub_chapter: if m.epub_chapter + 1 < m.epub_book->0.chapters@.len() {
                m.epub_chapter + 1
            } else {
                m.epub_chapter
            },
            ..m
        }),
        updated(m, Message::PrevPage).0 == (Model {
            epub_chapter: if m.epub_chapter > 0 {
                m.epub_chapter - 1
            } else {
                0
            },
            ..m
        }),
{
    reveal(next_page);
    reveal(prev_page);
    reveal(book_turned_to);
}

/// Selecting a chapter leads to its first page, or in a book to the chapter itself, and
/// closes the list; a chapter that a comic does not have leads nowhere.
pub proof fn a_selected_chapter_is_shown_from_its_start(m: Model, i: usize)
    ensures
        m.epub_book is Some ==> updated(m, Message::SelectChapter(i)).0 == (Model {
            epub_chapter: i as int,
            show_chapter_select: false,
            ..m
        }),
        m.epub_book is None && i < m.chapters.len() ==> updated(
            m,
            Message::SelectChapter(i),
        ).0.current_page == m.chapters[i as int].start && !updated(
            m,
            Message::SelectChapter(i),
        ).0.show_chapter_select && updated(m, Message::SelectChapter(i)).0.nav_dir == 1,
        m.epub_book is None && i >= m.chapters.len() ==> updated(m, Message::SelectChapter(i)).0
            == m && updated(m, Message::SelectChapter(i)).1.len() == 0,
{
    reveal(chapter_selected);
    reveal(book_turned_to);
    let n = Model { show_chapter_select: false, ..m };
    turn_changes(n, m.chapters[i as int].start as int, 1);
}

/// The place that is saved is the page, with the chapter that the page belongs to; of a
/// book it is the chapter. Nothing is saved without a library, or while nothing is open.
pub proof fn the_place_is_saved_with_its_chapter(m: Model, i: int)
    ensures
        m.has_db && m.open_path is Some && m.epub_book is None && 0 <= i < m.chapters.len() && m.chapters[i].start
            <= m.current_page < m.chapters[i].start + m.chapters[i].page_count && (forall|j: int|
            0 <= j < i ==> !((#[trigger] m.chapters[j]).start <= m.current_page
                < m.chapters[j].start + m.chapters[j].page_count)) ==> progress(m) == seq![
            ActionModel::SaveProgress {
                path: m.open_path->0,
                page: m.current_page,
                chapter: i,
            },
        ],
        m.has_db && m.open_path is Some && m.epub_book is Some ==> progress(m) == seq![
            ActionModel::SaveProgress { path: m.open_path->0, page: 0, chapter: m.epub_chapter },
        ],
        !m.has_db || m.open_path is None ==> progress(m).len() == 0,
{
    reveal(progress);
    first_chapter_of(m.chapters, m.current_page, 0, i);
}

/// The chapter that is found is the first that holds the page, and one is found exactly
/// if one holds it.
pub proof fn first_chapter_of(chapters: Seq<ChapterView>, page: int, from: int, i: int)
    requires
        0 <= from,
    ensures
        from <= i < chapters.len() && chapters[i].start <= page < chapters[i].start
            + chapters[i].page_count && (forall|j: int|
            from <= j < i ==> !((#[trigger] chapters[j]).start <= page < chapters[j].start
                + chapters[j].page_count)) ==> chapter_of(chapters, page, from) == Some(i),
        (forall|j: int|
            from <= j < chapters.len() ==> !((#[trigger] chapters[j]).start <= page
                < chapters[j].start + chapters[j].page_count)) ==> chapter_of(
            chapters,
            page,
            from,
        ) is None,
    decreases chapters.len() - from,
{
    if from < chapters.len() {
        first_chapter_of(chapters, page, from + 1, i);
    }
}

/// Switching the layout changes one page into two and two into one; two pages begin at an
/// even one. The preference follows, and is saved.
pub proof fn the_layout_is_switched_and_remembered(m: Model)
    requires
        0 <= m.current_page,
    ensures
        ({
            let (n, actions) = updated(m, Message::ToggleLayout);
            &&& m.layout == Layout::Single ==> n.layout == Layout::Dual && n.settings.dual_page
                && n.current_page == m.current_page - m.current_page % 2
            &&& m.layout == Layout::Dual ==> n.layout == Layout::Single && !n.settings.dual_page
                && n.current_page == m.current_page
            &&& actions.contains(ActionModel::SaveSettings)
            &&& n.settings.background == m.settings.background && n.settings.theater_mode
                == m.settings.theater_mode && n.settings.fetch_metadata == m.settings.fetch_metadata
            &&& n.sources == m.sources && n.app_view == m.app_view && n.zoom_active == m.zoom_active
        }),
{
    layout_switched(m);
}

/// What switching the layout changes.
proof fn layout_switched(m: Model)
    requires
        0 <= m.current_page,
    ensures
        ({
            let (n, actions) = layout_toggled(m);
            &&& m.layout == Layout::Single ==> n.layout == Layout::Dual && n.settings.dual_page
                && n.current_page == m.current_page - m.current_page % 2
            &&& m.layout == Layout::Dual ==> n.layout == Layout::Single && !n.settings.dual_page
                && n.current_page == m.current_page
            &&& actions.contains(ActionModel::SaveSettings)
            &&& n.settings.background == m.settings.background && n.settings.theater_mode
                == m.settings.theater_mode && n.settings.fetch_metadata == m.settings.fetch_metadata
            &&& n.sources == m.sources && n.app_view == m.app_view && n.zoom_active == m.zoom_active
        }),
{
    reveal(layout_toggled);
    let n = other_layout(m);
    let s = Model {
        settings: Settings { dual_page: n.layout == Layout::Dual, ..n.settings },
        ..n
    };
    window_changes(s);
    assert(layout_toggled(m).1[0] == ActionModel::SaveSettings);
}

/// What bringing the window of pages up to date changes.
proof fn window_changes(m: Model)
    ensures
        refreshed(m).0 == (Model {
            cache: refreshed(m).0.cache,
            pending: refreshed(m).0.pending,
            ..m
        }),
{
    reveal(refreshed);
}

/// The other switches flip what they are named after, and nothing else: the whole screen,
/// theater mode (which is remembered and saved), and zooming (which starts afresh).
pub proof fn switches_flip_what_they_are_named_after(m: Model)
    ensures
        updated(m, Message::ToggleFullscreen).0 == (Model { fullscreen: !m.fullscreen, ..m }),
        m.has_window ==> updated(m, Message::ToggleFullscreen).1 == seq![
            ActionModel::SetFullscreen(!m.fullscreen),
        ],
        !m.has_window ==> updated(m, Message::ToggleFullscreen).1.len() == 0,
        updated(m, Message::ToggleTheater).0 == (Model {
            theater_mode: !m.theater_mode,
            settings: updated(m, Message::ToggleTheater).0.settings,
            ..m
        }),
        updated(m, Message::ToggleTheater).0.settings.theater_mode != m.theater_mode,
        updated(m, Message::ToggleTheater).0.settings.dual_page == m.settings.dual_page,
        updated(m, Message::ToggleTheater).0.settings.fetch_metadata == m.settings.fetch_metadata,
        updated(m, Message::ToggleTheater).0.settings.background == m.settings.background,
        updated(m, Message::ToggleTheater).1 == seq![ActionModel::SaveSettings],
        updated(m, Message::ToggleZoom) == (
            Model { zoom_active: !m.zoom_active, ..m },
            seq![ActionModel::ResetZoom],
        ),
{
    reveal(fullscreen_toggled);
    reveal(theater_toggled);
}

/// The background that is chosen is taken over and saved, and no other preference changes;
/// a style that is not offered changes nothing.
pub proof fn a_chosen_background_is_saved(m: Model, i: usize)
    ensures
        i > 1 ==> updated(m, Message::SetBackground(i)) == (m, Seq::<ActionModel>::empty()),
        i == 0 ==> updated(m, Message::SetBackground(i)) == (
            Model {
                settings: Settings {
                    background: crate::settings::Background::Theme,
                    ..m.settings
                },
                ..m
            },
            seq![ActionModel::SaveSettings],
        ),
        i == 1 ==> updated(m, Message::SetBackground(i)) == (
            Model {
                settings: Settings {
                    background: crate::settings::Background::Black,
                    ..m.settings
                },
                ..m
            },
            seq![ActionModel::SaveSettings],
        ),
{
    assert(updated(m, Message::SetBackground(i)) == crate::update::background_chosen(m, i));
    reveal(crate::update::background_chosen);
}

/// Whether metadata is looked up is taken over and saved, and no other preference changes.
pub proof fn the_wish_to_look_up_is_saved(m: Model, on: bool)
    ensures
        updated(m, Message::SetFetchMetadata(on)).0.settings.fetch_metadata == on,
        updated(m, Message::SetFetchMetadata(on)).0.settings.background == m.settings.background
            && updated(m, Message::SetFetchMetadata(on)).0.settings.dual_page
            == m.settings.dual_page && updated(
            m,
            Message::SetFetchMetadata(on),
        ).0.settings.theater_mode == m.settings.theater_mode,
        updated(m, Message::SetFetchMetadata(on)).1 == seq![ActionModel::SaveSettings],
{
    reveal(crate::update::fetching_set);
}

/// A panel of the drawer is shown by its own button, in place of the other; the button of
/// the panel that is shown closes the drawer. Showing the details conceals the list of
/// chapters.
pub proof fn the_drawer_shows_one_panel(m: Model)
    ensures
        ({
            let (n, actions) = updated(m, Message::ToggleSettings);
            let was = m.show_context && m.context_page == crate::app::ContextPage::Settings;
            &&& n.show_context == !was
            &&& n.context_page == crate::app::ContextPage::Settings
            &&& n.show_chapter_select == m.show_chapter_select
            &&& actions == seq![ActionModel::ShowContext(!was)]
        }),
        ({
            let (n, actions) = updated(m, Message::ToggleInfo);
            let was = m.show_context && m.context_page == crate::app::ContextPage::Info;
            &&& n.show_context == !was
            &&& n.context_page == crate::app::ContextPage::Info
            &&& n.show_chapter_select == (m.show_chapter_select && was)
            &&& actions == seq![ActionModel::ShowContext(!was)]
        }),
        updated(m, Message::CloseContext) == (
            Model { show_context: false, ..m },
            seq![ActionModel::ShowContext(false)],
        ),
{
    reveal(drawer_toggled);
    reveal(crate::update::drawer_closed);
}

/// A file that is chosen or dropped, or the first of several, is opened in the reader; an
/// earlier error is forgotten. What is chosen and is no local file is refused with an
/// error, and nothing else changes.
pub proof fn chosen_files_are_opened(m: Model, url: String, paths: Vec<String>)
    ensures
        (match crate::weburl::url_of(url@) {
            Some(u) => u.scheme == "file"@ && u.file_path is Some,
            None => false,
        }) ==> {
            let (n, actions) = updated(m, Message::PathSelected(url));
            &&& actions == seq![
                crate::tasks::opening_of(crate::weburl::url_of(url@)->0.file_path->0),
            ]
            &&& n.loading && n.error is None && n.app_view == crate::app::AppView::Reader
        },
        (match crate::weburl::url_of(url@) {
            Some(u) => u.scheme != "file"@ || u.file_path is None,
            None => true,
        }) ==> {
            let (n, actions) = updated(m, Message::PathSelected(url));
            &&& actions.len() == 0
            &&& n.error is Some
            &&& n == Model { error: n.error, ..m }
        },
        paths@.len() > 0 ==> {
            let (n, actions) = updated(m, Message::FilesDropped(paths));
            &&& actions == seq![crate::tasks::opening_of(paths@[0]@)]
            &&& n.loading && n.error is None && n.app_view == crate::app::AppView::Reader
        },
        paths@.len() == 0 ==> updated(m, Message::FilesDropped(paths)).0 == m && updated(
            m,
            Message::FilesDropped(paths),
        ).1.len() == 0,
{
    reveal(path_chosen);
    reveal(files_dropped);
}

/// Data that is dropped is opened if it is a list of addresses that names a local file,
/// and is passed over otherwise.
pub proof fn dropped_addresses_are_opened(m: Model, mime: String, data: Vec<u8>)
    ensures
        ({
            let (n, actions) = updated(m, Message::DndDataReceived(mime, data));
            if crate::text::contains_text(mime@, "uri-list"@) && crate::tasks::first_path(
                data@,
            ) is Some {
                &&& actions == seq![crate::tasks::opening_of(crate::tasks::first_path(data@)->0)]
                &&& n.loading && n.error is None && n.app_view == crate::app::AppView::Reader
            } else {
                n == m && actions.len() == 0
            }
        }),
{
    reveal(data_dropped);
}

/// A series is opened from the library at the page at which it was left.
pub proof fn series_are_opened_from_the_library(m: Model, path: String, page: usize, chapter: usize)
    ensures
        ({
            let (n, actions) = updated(m, Message::OpenFromLibrary { path, page, chapter });
            &&& actions == seq![crate::tasks::opening_of(path@)]
            &&& n.loading && n.error is None && n.app_view == crate::app::AppView::Reader
            &&& n.current_page == page
            &&& page > 0 ==> n.resume == Some(page)
            &&& page == 0 ==> n.resume is None
        }),
{
    reveal(opened_from_library);
}

/// Once a comic is listed, its pages and chapters are taken over; everything that was
/// known of what was open before is forgotten. It is named after its file.
pub proof fn a_listed_comic_replaces_what_was_open(
    m: Model,
    path: String,
    sources: Vec<crate::comic::PageSource>,
    chapters: Vec<crate::comic::ChapterInfo>,
    facts: crate::app::OpenFacts,
)
    ensures
        ({
            let (n, actions) = updated(m, Message::Loaded { path, sources, chapters, facts });
            &&& n.sources == page_views(sources@)
            &&& n.chapters == chapter_views(chapters@)
            &&& n.open_path == Some(path@)
            &&& n.epub_book is None && n.epub_chapter == 0
            &&& !n.loading && !n.zoom_active && !n.show_chapter_select
            &&& n.cache == Set::<usize>::empty()
            &&& n.chapter_covers == Set::<usize>::empty()
            &&& n.covers_pending == Set::<usize>::empty()
            &&& n.metadata is None && n.comicvine is None && !n.comicvine_cover
            &&& n.metadata_loading == m.settings.fetch_metadata
            &&& n.comicvine_loading == m.settings.fetch_metadata
            &&& n.resume is None
            &&& n.settings == m.settings && n.layout == m.layout && n.library_entries
                == m.library_entries && n.library_dirs == m.library_dirs && n.app_view == m.app_view
                && n.theater_mode == m.theater_mode && n.fullscreen == m.fullscreen
            &&& match crate::paths::name_of(path@) {
                Some(name) => n.title == name,
                None => n.title == "Comic"@,
            }
            &&& n.parsed_filename == Some(crate::metadata::parsed_of(n.title))
            &&& match facts.comic_info {
                Some(xml) => n.comic_info == Some(crate::comicinfo::info_of(xml@)),
                None => n.comic_info is None,
            }
        }),
{
    reveal(comic_loaded);
    reveal(comic_state);
    reveal(refreshed);
    let s = comic_state(m, path@, page_views(sources@), chapter_views(chapters@), facts);
    let n = refreshed(s).0;
    assert(n.cache =~= Set::<usize>::empty());
}

/// A comic that is listed is registered in the library under its cleaned-up title, a cover
/// is made of its first page if there is none, and what is known of it is looked up if that
/// is wanted; without a library nothing is registered.
pub proof fn a_listed_comic_is_registered(
    m: Model,
    path: String,
    sources: Vec<crate::comic::PageSource>,
    chapters: Vec<crate::comic::ChapterInfo>,
    facts: crate::app::OpenFacts,
)
    requires
        sources@.len() <= usize::MAX,
    ensures
        ({
            let (n, actions) = updated(m, Message::Loaded { path, sources, chapters, facts });
            &&& actions.contains(ActionModel::SetHeaderTitle(n.title))
            &&& m.has_window ==> actions.contains(ActionModel::SetWindowTitle(n.title))
            &&& m.has_db ==> actions.contains(ActionModel::TouchOpened(path@))
                && actions.contains(
                ActionModel::UpsertSeries {
                    path: path@,
                    title: crate::metadata::title_of(n.title),
                    total: sources@.len() as int,
                    is_series: facts.is_dir,
                },
            )
            &&& m.has_db && !facts.cover_exists && sources@.len() > 0 ==> actions.contains(
                ActionModel::MakeLibraryCover { source: sources@[0]@, path: path@ },
            )
            &&& m.settings.fetch_metadata ==> actions.contains(
                ActionModel::FetchMetadata(crate::metadata::title_of(n.title)),
            )
        }),
{
    reveal(comic_loaded);
    reveal(comic_state);
    let s = comic_state(m, path@, page_views(sources@), chapter_views(chapters@), facts);
    refreshed_keeps(s);
    assert(refreshed(s).0.title == s.title) by {
        reveal(refreshed);
    }
    let first = seq![ActionModel::ResetZoom, ActionModel::SetHeaderTitle(s.title)];
    let second = crate::opening::registered(
        s.has_db,
        path@,
        crate::metadata::title_of(s.title),
        sources@.len() as int,
        facts.is_dir,
    );
    let third = refreshed(s).1;
    let fourth = crate::opening::first_cover(s, path@, facts.cover_exists);
    let fifth = crate::opening::looked_up(s, facts);
    let sixth = crate::opening::window_named(s);
    let all = updated(m, Message::Loaded { path, sources, chapters, facts }).1;
    assert(all == first + second + third + fourth + fifth + sixth);
    let (a, b, c, d, e) = (
        first.len() as int,
        (first.len() + second.len()) as int,
        (first.len() + second.len() + third.len()) as int,
        (first.len() + second.len() + third.len() + fourth.len()) as int,
        (first.len() + second.len() + third.len() + fourth.len() + fifth.len()) as int,
    );
    assert(all[1] == first[1]);
    if m.has_db {
        assert(all[a] == second[0]);
        assert(all[a + 1] == second[1]);
        if !facts.cover_exists && sources@.len() > 0 {
            assert(all[c] == fourth[0]);
            assert(s.sources[0] == sources@[0]@);
        }
    }
    if m.settings.fetch_metadata {
        assert(all[d] == fifth[0]);
    }
    if m.has_window {
        assert(all[e] == sixth[0]);
    }
}

/// A book that was opened takes the place of what was open; it is named by its title, and
/// registered with its chapters. One that could not be opened leaves an error, and what was
/// open stays.
pub proof fn an_opened_book_replaces_what_was_open(
    m: Model,
    path: String,
    book: EpubBook,
    why: String,
    saved: Option<(usize, usize)>,
    cover_exists: bool,
)
    ensures
        ({
            let (n, actions) = updated(
                m,
                Message::EpubLoaded { path, book: Ok(book), saved, cover_exists },
            );
            &&& n.epub_book == Some(book)
            &&& n.title == book.title@
            &&& n.open_path == Some(path@)
            &&& n.sources.len() == 0 && n.chapters.len() == 0
            &&& !n.loading && !n.zoom_active && !n.show_chapter_select
            &&& n.metadata is None && n.comicvine is None && n.comic_info is None
            &&& saved is None || !m.has_db ==> n.epub_chapter == 0
            &&& actions.contains(ActionModel::SetHeaderTitle(book.title@))
            &&& m.has_db ==> actions.contains(
                ActionModel::UpsertSeries {
                    path: path@,
                    title: book.title@,
                    total: book.chapters@.len() as int,
                    is_series: false,
                },
            ) && actions.contains(ActionModel::TouchOpened(path@))
            &&& m.has_db && !cover_exists && book.cover is Some ==> actions.contains(
                ActionModel::MakeEpubCover { data: book.cover->0@, path: path@ },
            )
        }),
        updated(m, Message::EpubLoaded { path, book: Err(why), saved, cover_exists }) == (
            Model { loading: false, error: Some(why@), ..m },
            Seq::<ActionModel>::empty(),
        ),
{
    reveal(book_loaded);
    reveal(book_state);
    let all = updated(m, Message::EpubLoaded { path, book: Ok(book), saved, cover_exists }).1;
    assert(all[1] == ActionModel::SetHeaderTitle(book.title@));
    if m.has_db {
        assert(all[2] == (ActionModel::UpsertSeries {
            path: path@,
            title: book.title@,
            total: book.chapters@.len() as int,
            is_series: false,
        }));
        assert(all[3] == ActionModel::TouchOpened(path@));
        if !cover_exists && book.cover is Some {
            assert(all[4] == (ActionModel::MakeEpubCover {
                data: book.cover->0@,
                path: path@,
            }));
        }
    }
}

/// A page that was decoded is at hand and no longer awaited, one that could not be decoded
/// is only no longer awaited; the window is drawn once more if it is the current page.
pub proof fn decoded_pages_are_at_hand(m: Model, i: usize)
    ensures
        updated(m, Message::PageDecoded(i, true)).0 == (Model {
            cache: m.cache.insert(i),
            pending: m.pending.remove(i),
            ..m
        }),
        updated(m, Message::PageDecoded(i, false)).0 == (Model {
            pending: m.pending.remove(i),
            ..m
        }),
        i == m.current_page ==> updated(m, Message::PageDecoded(i, true)).1 == seq![
            ActionModel::RedrawSoon,
        ],
        i != m.current_page ==> updated(m, Message::PageDecoded(i, true)).1.len() == 0,
        updated(m, Message::PageDecoded(i, false)).1 == updated(m, Message::PageDecoded(i, true)).1,
{
    reveal(crate::opening::page_decoded);
}

/// What AniList knows is shown once it arrives, and saved if it belongs to something
/// in the library; that nothing was found ends the waiting, too.
pub proof fn findings_are_shown_and_saved(m: Model, meta: SeriesMetadata, why: String)
    ensures
        updated(m, Message::MetadataLoaded(Ok(meta))).0 == (Model {
            metadata: Some(meta),
            metadata_loading: false,
            ..m
        }),
        m.has_db && m.open_path is Some ==> updated(m, Message::MetadataLoaded(Ok(meta))).1
            == seq![ActionModel::SaveMetadata(m.open_path->0)],
        !m.has_db || m.open_path is None ==> updated(
            m,
            Message::MetadataLoaded(Ok(meta)),
        ).1.len() == 0,
        updated(m, Message::MetadataLoaded(Err(why))) == (
            Model { metadata_loading: false, ..m },
            Seq::<ActionModel>::empty(),
        ),
{
    reveal(crate::opening::metadata_loaded);
}

/// What ComicVine knows is shown once it arrives, and its cover is fetched if it has one;
/// the reason why nothing was found is shown, too.
pub proof fn matches_are_shown(m: Model, found: ComicVineMatch, why: String)
    ensures
        updated(m, Message::ComicVineLoaded(Ok(found))).0 == (Model {
            comicvine: Some(Ok(found)),
            comicvine_loading: false,
            ..m
        }),
        found.cover_url is Some ==> updated(m, Message::ComicVineLoaded(Ok(found))).1 == seq![
            ActionModel::FetchComicVineCover(found.cover_url->0@),
        ],
        found.cover_url is None ==> updated(m, Message::ComicVineLoaded(Ok(found))).1.len() == 0,
        updated(m, Message::ComicVineLoaded(Err(why))) == (
            Model { comicvine: Some(Err(why)), comicvine_loading: false, ..m },
            Seq::<ActionModel>::empty(),
        ),
{
    reveal(crate::opening::comicvine_loaded);
}

/// The library is listed whenever it is shown and whenever the search changes: everything
/// if nothing is searched for, else what the search finds; without a library, nothing.
pub proof fn the_library_is_listed_by_its_search(m: Model, query: String)
    ensures
        updated(m, Message::LibrarySearchChanged(query)).0 == (Model {
            library_search: query@,
            ..m
        }),
        m.has_db && query@.len() > 0 ==> updated(m, Message::LibrarySearchChanged(query)).1 == seq![
            ActionModel::QueryLibrary(Some(query@)),
        ],
        m.has_db && query@.len() == 0 ==> updated(m, Message::LibrarySearchChanged(query)).1
            == seq![ActionModel::QueryLibrary(None)],
        !m.has_db ==> updated(m, Message::LibrarySearchChanged(query)).1.len() == 0,
        updated(m, Message::GoToLibrary).0 == (Model {
            app_view: crate::app::AppView::Library,
            show_chapter_select: false,
            ..m
        }),
        m.has_db ==> updated(m, Message::GoToLibrary).1.contains(
            ActionModel::QueryLibrary(
                if m.library_search.len() == 0 {
                    None
                } else {
                    Some(m.library_search)
                },
            ),
        ),
        updated(m, Message::GoToReader) == (
            Model { app_view: crate::app::AppView::Reader, ..m },
            seq![ActionModel::SetHeaderTitle(m.title)],
        ),
{
    reveal(crate::shelf::searched);
    reveal(crate::steps::listing);
    reveal(crate::update::library_shown);
    reveal(crate::update::reader_shown);
    if m.has_db {
        let all = updated(m, Message::GoToLibrary).1;
        assert(all[1] is QueryLibrary);
    }
}

/// Whether a key is this letter, small or capital.
pub open spec fn is_letter(c: Seq<char>, small: char, capital: char) -> bool {
    c == seq![small] || c == seq![capital]
}

/// In the reader the letters do what the buttons do: F takes the whole screen, T switches
/// theater mode, L the layout, M zooming, I shows the details, S the settings, C the list
/// of chapters where there are several, and P copies the page. With control held, 0 ends
/// zooming. Any other character does nothing.
pub proof fn letters_do_what_the_buttons_do(m: Model, c: String)
    requires
        m.app_view == crate::app::AppView::Reader,
    ensures
        ({
            let done = updated(m, Message::Key(KeyPress::Character(c)));
            &&& is_letter(c@, 'f', 'F') ==> done == updated(m, Message::ToggleFullscreen)
            &&& is_letter(c@, 't', 'T') ==> done == updated(m, Message::ToggleTheater)
            &&& is_letter(c@, 'l', 'L') ==> done == updated(m, Message::ToggleLayout)
            &&& is_letter(c@, 'm', 'M') ==> done == updated(m, Message::ToggleZoom)
            &&& is_letter(c@, 'i', 'I') ==> done == updated(m, Message::ToggleInfo)
            &&& is_letter(c@, 's', 'S') ==> done == updated(m, Message::ToggleSettings)
            &&& is_letter(c@, 'p', 'P') ==> done == updated(m, Message::CopyPage)
            &&& is_letter(c@, 'c', 'C') && m.chapters.len() > 1 ==> done == updated(
                m,
                Message::ToggleChapterSelect,
            )
            &&& is_letter(c@, 'c', 'C') && m.chapters.len() <= 1 ==> done.0 == m && done.1.len()
                == 0
            &&& m.control && c@ == seq!['0'] ==> done == (
                Model { zoom_active: false, ..m },
                seq![ActionModel::ResetZoom],
            )
            &&& c@.len() != 1 || (c@.len() == 1 && !"fFtTlLmMiIsScCpP0"@.contains(c@[0])) || (
            !m.control && c@ == seq!['0']) ==> done.0 == m && done.1.len() == 0
        }),
{
    reveal(key_pressed);
    reveal(character_pressed);
    reveal_strlit("0");
    reveal_strlit("f");
    reveal_strlit("F");
    reveal_strlit("t");
    reveal_strlit("T");
    reveal_strlit("l");
    reveal_strlit("L");
    reveal_strlit("m");
    reveal_strlit("M");
    reveal_strlit("i");
    reveal_strlit("I");
    reveal_strlit("s");
    reveal_strlit("S");
    reveal_strlit("c");
    reveal_strlit("C");
    reveal_strlit("p");
    reveal_strlit("P");
    reveal_strlit("fFtTlLmMiIsScCpP0");
    let known = "fFtTlLmMiIsScCpP0"@;
    assert(known[0] == 'f' && known[1] == 'F' && known[2] == 't' && known[3] == 'T' && known[4]
        == 'l' && known[5] == 'L' && known[6] == 'm' && known[7] == 'M' && known[8] == 'i');
    assert(known[9] == 'I' && known[10] == 's' && known[11] == 'S' && known[12] == 'c'
        && known[13] == 'C' && known[14] == 'p' && known[15] == 'P' && known[16] == '0');
    assert("0"@ =~= seq!['0'] && "f"@ =~= seq!['f'] && "F"@ =~= seq!['F'] && "t"@ =~= seq!['t']
        && "T"@ =~= seq!['T'] && "l"@ =~= seq!['l'] && "L"@ =~= seq!['L']);
    assert("m"@ =~= seq!['m'] && "M"@ =~= seq!['M'] && "i"@ =~= seq!['i'] && "I"@ =~= seq!['I']
        && "s"@ =~= seq!['s'] && "S"@ =~= seq!['S']);
    assert("c"@ =~= seq!['c'] && "C"@ =~= seq!['C'] && "p"@ =~= seq!['p'] && "P"@ =~= seq!['P']);
    if c@.len() == 1 {
        assert(c@ =~= seq![c@[0]]);
    }
    assert forall|x: char, y: char| x != y implies #[trigger] seq![x] != #[trigger] seq![y] by {
        assert(seq![x][0] == x && seq![y][0] == y);
    }
}

/// Escape ends zooming; where nothing is zoomed it conceals the list of chapters.
pub proof fn escape_ends_zooming_first(m: Model)
    ensures
        m.zoom_active ==> updated(m, Message::Key(KeyPress::Escape)) == (
            Model { zoom_active: false, ..m },
            seq![ActionModel::ResetZoom],
        ),
        !m.zoom_active ==> updated(m, Message::Key(KeyPress::Escape)) == (
            Model { show_chapter_select: false, ..m },
            Seq::<ActionModel>::empty(),
        ),
{
    reveal(key_pressed);
    reveal(crate::update::escape_pressed);
}

/// Zooming begins with a second finger on the page, with a pinch, or with the wheel while
/// control is held, but only while a comic is read; a third finger does not begin it, and
/// once it has begun it is not begun again.
pub proof fn gestures_begin_to_zoom(m: Model, id: u64)
    ensures
        m.app_view == crate::app::AppView::Reader && !m.zoom_active && m.touches.insert(id).len()
            == 2 ==> updated(m, Message::Touch(TouchEvent::Pressed(id))) == (
            Model { touches: m.touches.insert(id), zoom_active: true, ..m },
            seq![ActionModel::ResetZoom],
        ),
        m.app_view != crate::app::AppView::Reader || m.zoom_active || m.touches.insert(id).len()
            != 2 ==> updated(m, Message::Touch(TouchEvent::Pressed(id))) == (
            Model { touches: m.touches.insert(id), ..m },
            Seq::<ActionModel>::empty(),
        ),
        updated(m, Message::Touch(TouchEvent::Lifted(id))) == (
            Model { touches: m.touches.remove(id), ..m },
            Seq::<ActionModel>::empty(),
        ),
        updated(m, Message::Touch(TouchEvent::Lost(id))) == updated(
            m,
            Message::Touch(TouchEvent::Lifted(id)),
        ),
        m.app_view == crate::app::AppView::Reader && m.sources.len() > 0 && !m.zoom_active
            ==> updated(m, Message::ZoomBootstrap) == (
            Model { zoom_active: true, ..m },
            seq![ActionModel::ResetZoom],
        ),
        m.app_view != crate::app::AppView::Reader || m.sources.len() == 0 || m.zoom_active
            ==> updated(m, Message::ZoomBootstrap).0 == m && updated(
            m,
            Message::ZoomBootstrap,
        ).1.len() == 0,
        m.control ==> updated(m, Message::ZoomBootstrapWheel) == updated(m, Message::ZoomBootstrap),
        !m.control ==> updated(m, Message::ZoomBootstrapWheel).0 == m && updated(
            m,
            Message::ZoomBootstrapWheel,
        ).1.len() == 0,
{
    reveal(crate::reading::touched);
}

/// The current page is copied if it is decoded, and the window is fitted to it if there is
/// a window, too; nothing else changes.
pub proof fn only_decoded_pages_are_copied(m: Model)
    ensures
        updated(m, Message::CopyPage).0 == m,
        updated(m, Message::FitPage).0 == m,
        m.cache.contains(m.current_page as usize) ==> updated(m, Message::CopyPage).1 == seq![
            ActionModel::CopyPage(m.current_page),
        ],
        !m.cache.contains(m.current_page as usize) ==> updated(m, Message::CopyPage).1.len() == 0
            && updated(m, Message::FitPage).1.len() == 0,
        m.cache.contains(m.current_page as usize) && m.has_window ==> updated(m, Message::FitPage).1
            == seq![ActionModel::FitPage(m.current_page)],
        !m.has_window ==> updated(m, Message::FitPage).1.len() == 0,
{
    reveal(crate::opening::page_copied);
    reveal(crate::opening::page_fitted);
}

/// The covers that are looked for when the list of chapters is shown are those of the
/// chapters that have none at hand and none under way.
pub proof fn missing_chapter_covers_are_looked_for(m: Model, i: usize)
    requires
        m.chapters.len() <= usize::MAX,
        m.open_path is Some,
        !m.show_chapter_select,
    ensures
        updated(m, Message::ToggleChapterSelect).0 == (Model { show_chapter_select: true, ..m }),
        updated(m, Message::ToggleChapterSelect).1.len() == 1,
        updated(m, Message::ToggleChapterSelect).1[0] matches ActionModel::LookForCovers(list) && (
        list.contains(i) <==> i < m.chapters.len() && !m.chapter_covers.contains(i)
            && !m.covers_pending.contains(i)),
{
    reveal(chapter_select_toggled);
    reveal(crate::reading::covers_wanted);
    coverless_is(m.chapters.len(), m.chapter_covers, m.covers_pending, i);
}

/// Which chapters have no cover.
proof fn coverless_is(n: nat, covers: Set<usize>, pending: Set<usize>, i: usize)
    requires
        n <= usize::MAX,
    ensures
        crate::reading::coverless(n, covers, pending).contains(i) <==> i < n && !covers.contains(i)
            && !pending.contains(i),
    decreases n,
{
    let all = crate::reading::coverless(n, covers, pending);
    if n > 0 {
        let rest = crate::reading::coverless((n - 1) as nat, covers, pending);
        coverless_is((n - 1) as nat, covers, pending, i);
        if all.contains(i) {
            let k = choose|k: int| 0 <= k < all.len() && all[k] == i;
            if k < rest.len() {
                assert(rest[k] == i);
            }
        }
        if i < n && !covers.contains(i) && !pending.contains(i) {
            if i < n - 1 {
                let k = choose|k: int| 0 <= k < rest.len() && rest[k] == i;
                assert(all[k] == i);
            } else {
                assert(all[rest.len() as int] == i);
            }
        }
    }
}

/// The cover of a chapter that is in the cache is loaded, one that is not is made of the
/// chapter's first page; a chapter without pages gets none, and one that has a cover or
/// awaits one gets no other.
pub proof fn a_cover_is_loaded_or_made(m: Model, i: usize, again: bool)
    requires
        m.open_path is Some,
        i < m.chapters.len(),
        !m.chapter_covers.contains(i),
        !m.covers_pending.contains(i),
    ensures
        crate::reading::cover_looked(m, i, true) == (
            Model { chapter_covers: m.chapter_covers.insert(i), ..m },
            seq![ActionModel::LoadChapterCover(i as int)],
        ),
        m.chapters[i as int].page_count > 0 ==> crate::reading::cover_looked(m, i, false) == (
            Model { covers_pending: m.covers_pending.insert(i), ..m },
            seq![
                ActionModel::MakeChapterCover {
                    chapter: i as int,
                    source: m.sources[m.chapters[i as int].start as int],
                    path: m.open_path->0,
                },
            ],
        ),
        m.chapters[i as int].page_count == 0 ==> crate::reading::cover_looked(m, i, false) == (
            m,
            Seq::<ActionModel>::empty(),
        ),
        crate::reading::cover_looked(
            crate::reading::cover_looked(m, i, true).0,
            i,
            again,
        ).1.len() == 0,
        m.chapters[i as int].page_count > 0 ==> crate::reading::cover_looked(
            crate::reading::cover_looked(m, i, false).0,
            i,
            again,
        ).1.len() == 0,
{
    reveal(crate::reading::cover_looked);
}

/// A comic resumes past its end at its last page; without a library, or where nothing was
/// saved, it begins at its first page; and the same holds of the chapters of a book.
pub proof fn nothing_resumes_past_the_end(m: Model, message: Message)
    requires
        m.resume is None,
    ensures
        match message {
            Message::Loaded { path, sources, chapters, facts } => {
                let page = updated(m, message).0.current_page;
                &&& !m.has_db || facts.saved is None ==> page == 0
                &&& m.has_db && facts.saved is Some && (facts.saved->0).0 >= sources@.len() > 0
                    ==> page == sources@.len() - 1
                &&& sources@.len() == 0 ==> page == 0
            },
            Message::EpubLoaded { path, book: Ok(book), saved, cover_exists } => {
                let chapter = updated(m, message).0.epub_chapter;
                &&& !m.has_db || saved is None ==> chapter == 0
                &&& m.has_db && saved is Some && (saved->0).1 >= book.chapters@.len() > 0
                    ==> chapter == book.chapters@.len() - 1
            },
            _ => true,
        },
{
    match message {
        Message::Loaded { path, sources, chapters, facts } => {
            reveal(comic_loaded);
            reveal(comic_state);
            window_changes(
                comic_state(m, path@, page_views(sources@), chapter_views(chapters@), facts),
            );
        },
        Message::EpubLoaded { path, book, saved, cover_exists } => {
            reveal(book_loaded);
            reveal(book_state);
        },
        _ => {},
    }
}

/// What is asked of ComicVine when a comic is opened is what its description says, or else
/// its file's name; nothing is asked where looking up is not wanted.
pub proof fn comicvine_is_asked_about_the_comic(
    m: Model,
    path: String,
    sources: Vec<crate::comic::PageSource>,
    chapters: Vec<crate::comic::ChapterInfo>,
    facts: crate::app::OpenFacts,
)
    requires
        m.settings.fetch_metadata,
    ensures
        ({
            let (n, actions) = updated(m, Message::Loaded { path, sources, chapters, facts });
            let q = crate::tasks::comicvine_query(
                match facts.comic_info {
                    Some(xml) => Some(crate::comicinfo::info_of(xml@)),
                    None => None,
                },
                crate::metadata::parsed_of(n.title),
            );
            actions.contains(
                ActionModel::FetchComicVine { series: q.series, issue: q.issue, year: q.year },
            )
        }),
{
    reveal(comic_loaded);
    reveal(comic_state);
    let s = comic_state(m, path@, page_views(sources@), chapter_views(chapters@), facts);
    window_changes(s);
    let fifth = crate::opening::looked_up(s, facts);
    let front = seq![ActionModel::ResetZoom, ActionModel::SetHeaderTitle(s.title)]
        + crate::opening::registered(
        s.has_db,
        path@,
        crate::metadata::title_of(s.title),
        sources@.len() as int,
        facts.is_dir,
    ) + refreshed(s).1 + crate::opening::first_cover(s, path@, facts.cover_exists);
    let all = updated(m, Message::Loaded { path, sources, chapters, facts }).1;
    assert(all == front + fifth + crate::opening::window_named(s));
    assert(all[front.len() as int + 1] == fifth[1]);
}

/// Pages that are asked for when a comic is listed are those around the page at which it
/// resumes, each from its own source.
pub proof fn a_listed_comic_asks_for_its_pages(
    m: Model,
    path: String,
    sources: Vec<crate::comic::PageSource>,
    chapters: Vec<crate::comic::ChapterInfo>,
    facts: crate::app::OpenFacts,
    page: int,
)
    requires
        0 <= page < sources@.len() <= usize::MAX,
        updated(m, Message::Loaded { path, sources, chapters, facts }).0.current_page - 1 <= page
            <= updated(m, Message::Loaded { path, sources, chapters, facts }).0.current_page + 6,
    ensures
        updated(m, Message::Loaded { path, sources, chapters, facts }).1.contains(
            ActionModel::Decode { index: page, source: sources@[page]@ },
        ),
{
    reveal(comic_loaded);
    reveal(comic_state);
    let s = comic_state(m, path@, page_views(sources@), chapter_views(chapters@), facts);
    window_changes(s);
    assert(s.current_page >= 0);
    let front = seq![ActionModel::ResetZoom, ActionModel::SetHeaderTitle(s.title)]
        + crate::opening::registered(
        s.has_db,
        path@,
        crate::metadata::title_of(s.title),
        sources@.len() as int,
        facts.is_dir,
    );
    let third = refreshed(s).1;
    let all = updated(m, Message::Loaded { path, sources, chapters, facts }).1;
    assert(all == front + third + crate::opening::first_cover(s, path@, facts.cover_exists)
        + crate::opening::looked_up(s, facts) + crate::opening::window_named(s));
    let list = crate::window::window_pages(s);
    crate::window::pages_are_asked_for_in_the_reading_direction(s, page as usize);
    assert(list.contains(page as usize));
    let k = choose|k: int| 0 <= k < list.len() && list[k] == page as usize;
    crate::window::the_window_is_brought_up_to_date(s, page as usize, k);
    assert(s.sources[page] == sources@[page]@);
    assert(all[front.len() + k] == third[k]);
}

/// A folder that is typed in is added and the field is emptied; what is no folder is
/// refused with an error and stays in the field; nothing typed does nothing.
pub proof fn typed_folders_are_added(m: Model, home: Option<String>)
    ensures
        match crate::shelf::typed_path(m.library_path_input, crate::text::opt_text(home)) {
            None => updated(
                m,
                Message::LibraryPathInputSubmitted { home, is_dir: true },
            ) == (m, Seq::<ActionModel>::empty()) && updated(
                m,
                Message::LibraryPathInputSubmitted { home, is_dir: false },
            ) == (m, Seq::<ActionModel>::empty()),
            Some(path) => {
                let (n, actions) = updated(
                    m,
                    Message::LibraryPathInputSubmitted { home, is_dir: true },
                );
                &&& n.library_path_input.len() == 0
                &&& crate::shelf::is_among(n.library_dirs, path)
                &&& actions.contains(ActionModel::ScanFolder(path))
                &&& updated(m, Message::LibraryPathInputSubmitted { home, is_dir: false }) == (
                    Model { error: Some("not a folder: "@ + path), ..m },
                    Seq::<ActionModel>::empty(),
                )
            },
        },
{
    reveal(crate::shelf::path_submitted);
    if let Some(path) = crate::shelf::typed_path(
        m.library_path_input,
        crate::text::opt_text(home),
    ) {
        let n = Model { library_path_input: Seq::empty(), ..m };
        crate::shelf::an_added_folder_is_listed_once(n, path, path);
        assert(crate::shelf::folder_added(n, path).0.library_path_input.len() == 0) by {
            reveal(crate::shelf::folder_added);
        }
    }
}

/// The application starts with the preferences that were kept: with the path that it was
/// given being opened in the reader, or else in the library, which is then listed; and each
/// library folder is scanned.
pub proof fn the_application_starts_with_its_preferences(
    path: Option<Seq<char>>,
    settings: Settings,
    dirs: Seq<Seq<char>>,
    has_db: bool,
    has_window: bool,
    i: int,
)
    ensures
        ({
            let m = crate::opening::starting_state(path, settings, dirs, has_db, has_window);
            let actions = crate::opening::starting_actions(m, path);
            &&& path is Some ==> m.app_view == crate::app::AppView::Reader && m.loading
                && actions.contains(crate::tasks::opening_of(path->0))
            &&& path is None ==> m.app_view == crate::app::AppView::Library && !m.loading
            &&& path is None && has_db ==> actions.contains(ActionModel::QueryLibrary(None))
            &&& settings.dual_page ==> m.layout == Layout::Dual
            &&& !settings.dual_page ==> m.layout == Layout::Single
            &&& m.theater_mode == settings.theater_mode
            &&& m.settings == settings && m.library_dirs == dirs && m.has_db == has_db
            &&& m.sources.len() == 0 && m.open_path is None && m.epub_book is None && m.error is None
            &&& !m.zoom_active && !m.fullscreen && !m.show_context && !m.show_chapter_select
            &&& 0 <= i < dirs.len() ==> actions.contains(ActionModel::ScanFolder(dirs[i]))
        }),
{
    let m = crate::opening::starting_state(path, settings, dirs, has_db, has_window);
    let actions = crate::opening::starting_actions(m, path);
    reveal(crate::steps::listing);
    let first = seq![ActionModel::SetHeaderTitle(m.title)];
    let second = crate::opening::window_named(m);
    let third = match path {
        Some(p) => seq![crate::tasks::opening_of(p)],
        None => crate::steps::listing(m),
    };
    let fourth = dirs.map_values(|d: Seq<char>| ActionModel::ScanFolder(d));
    assert(actions == first + second + third + fourth);
    if path is Some || has_db {
        assert(actions[(first.len() + second.len()) as int] == third[0]);
    }
    if 0 <= i < dirs.len() {
        assert(actions[first.len() + second.len() + third.len() + i] == fourth[i]);
    }
}

/// Files, folders and library folders are chosen in dialogs; errors are shown until they are
/// closed; and the other small messages change the one thing that they are about.
pub proof fn small_messages_do_what_they_say(m: Model, t: String, on: bool)
    ensures
        updated(m, Message::OpenFile) == (m, seq![ActionModel::ChooseFile]),
        updated(m, Message::OpenFolder) == (m, seq![ActionModel::ChooseFolder]),
        updated(m, Message::AddLibraryFolder) == (m, seq![ActionModel::ChooseLibraryFolder]),
        updated(m, Message::LoadFailed(t)) == (
            Model { loading: false, error: Some(t@), ..m },
            Seq::<ActionModel>::empty(),
        ),
        updated(m, Message::Cancelled) == (
            Model { loading: false, ..m },
            Seq::<ActionModel>::empty(),
        ),
        updated(m, Message::CloseError) == (Model { error: None, ..m }, Seq::<ActionModel>::empty()),
        updated(m, Message::Redraw) == (m, Seq::<ActionModel>::empty()),
        updated(m, Message::CopiedPage(Ok(()))) == (m, Seq::<ActionModel>::empty()),
        updated(m, Message::CopiedPage(Err(t))) == (
            Model { error: Some(t@), ..m },
            Seq::<ActionModel>::empty(),
        ),
        updated(m, Message::ModifiersChanged(on)) == (
            Model { control: on, ..m },
            Seq::<ActionModel>::empty(),
        ),
        updated(m, Message::LibraryPathInputChanged(t)) == (
            Model { library_path_input: t@, ..m },
            Seq::<ActionModel>::empty(),
        ),
        updated(m, Message::ComicVineCoverReady(on)).0 == (Model {
            comicvine_cover: m.comicvine_cover || on,
            ..m
        }),
{
}

/// A folder that is chosen is added to the library if it is a local one, and refused with an
/// error otherwise; the cover of a series that is ready is used.
pub proof fn chosen_folders_are_added(m: Model, url: String, id: i64, path: String)
    ensures
        (match crate::weburl::url_of(url@) {
            Some(u) => u.scheme == "file"@ && u.file_path is Some,
            None => false,
        }) ==> updated(m, Message::LibraryFolderSelected(url)) == crate::shelf::folder_added(
            m,
            crate::weburl::url_of(url@)->0.file_path->0,
        ),
        (match crate::weburl::url_of(url@) {
            Some(u) => u.scheme != "file"@ || u.file_path is None,
            None => true,
        }) ==> {
            let (n, actions) = updated(m, Message::LibraryFolderSelected(url));
            &&& actions.len() == 0
            &&& n.error is Some
            &&& n == Model { error: n.error, ..m }
        },
        updated(m, Message::LibraryCoverReady { series_id: id, path }) == (
            Model { library_covers: m.library_covers.insert(id), ..m },
            seq![ActionModel::UseLibraryCover { series_id: id, path: path@ }],
        ),
{
    reveal(crate::shelf::folder_chosen);
    reveal(crate::shelf::cover_ready);
}

/// What was looked up of several covers is dealt with one after the other.
pub proof fn covers_are_looked_at_one_by_one(
    m: Model,
    a: Seq<(usize, bool)>,
    i: usize,
    on_disk: bool,
)
    ensures
        ({
            let (n, done) = crate::reading::covers_looked(m, a);
            let (u, more) = crate::reading::cover_looked(n, i, on_disk);
            crate::reading::covers_looked(m, a.push((i, on_disk))) == (u, done + more)
        }),
        crate::reading::covers_looked(m, Seq::empty()) == (m, Seq::<ActionModel>::empty()),
{
    assert(a.push((i, on_disk)).drop_last() =~= a);
}

} // verus!
