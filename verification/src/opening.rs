//! What happens when something is opened: the comic or the book is taken over,
//! its progress restored, and what is known about it looked up.
use crate::app::{
    action_models, drop_number, has_number, no_numbers, put_number, Action, ActionModel, App,
    AppView, ContextPage, Layout, Model, OpenFacts,
};
use crate::comic::{chapter_views, copy_bytes, copy_page, page_views, ChapterInfo, ChapterView, PageSource, PageView};
use crate::comicinfo::{info_of, parse, ComicInfo, InfoView};
use crate::comicvine::ComicVineMatch;
use crate::epub::EpubBook;
use crate::metadata::{
    extract_title, parse_filename, parsed_of, title_of, ParsedFilename, SeriesMetadata,
};
use crate::paths::{file_name, name_of};
use crate::settings::Settings;
use crate::shelf::{choose_path, chosen_path};
use crate::steps::{chain, failed, last_of, last_place, listing, nothing, only, opening, smaller, unchanged};
use crate::tasks::{ask_comicvine, comicvine_query, info_view, open_any, opening_of};
use crate::text::{opt_text, text_copy, texts};
use crate::window::refreshed;
use std::collections::HashSet;
use vstd::prelude::*;

verus! {

// ── Choosing ─────────────────────────────────────────────────────────────────

/// A file or folder was chosen.
#[verifier::opaque]
pub open spec fn path_chosen(m: Model, url: Seq<char>) -> (Model, Seq<ActionModel>) {
    match chosen_path(url, "invalid file path: "@) {
        Ok(path) => opening(m, path),
        Err(e) => failed(m, e),
    }
}

/// The page that is asked for where a series is opened from the library: the one
/// at which it was left, unless it was not begun.
pub open spec fn asked_page(page: usize) -> Option<usize> {
    if page > 0 {
        Some(page)
    } else {
        None
    }
}

/// A series of the library is opened, at the page where it was left.
#[verifier::opaque]
pub open spec fn opened_from_library(m: Model, path: Seq<char>, page: usize) -> (
    Model,
    Seq<ActionModel>,
) {
    let (n, actions) = opening(m, path);
    (Model { current_page: page as int, resume: asked_page(page), ..n }, actions)
}

impl App {
    /// Opens what a chosen URL stands for.
    pub(crate) fn path_selected(&mut self, url: &str) -> (r: Vec<Action>)
        ensures
            (final(self)@, action_models(r@)) == path_chosen(old(self)@, url@),
    {
        reveal(path_chosen);
        match choose_path(url, "invalid file path: ") {
            Ok(path) => self.open_now(path),
            Err(e) => self.fail(e),
        }
    }

    /// Opens a series of the library, at the page where it was left.
    pub(crate) fn open_from_library(&mut self, path: String, page: usize) -> (r: Vec<Action>)
        ensures
            (final(self)@, action_models(r@)) == opened_from_library(
                old(self)@,
                path@,
                page,
            ),
    {
        reveal(opened_from_library);
        let r = self.open_now(path);
        let ghost n = Model { current_page: page as int, resume: asked_page(page), ..self@ };
        self.current_page = page;
        self.resume = if page > 0 {
            Some(page)
        } else {
            None
        };
        assert(self@ == n) by {
            reveal(App::model);
        }
        r
    }
}

// ── Comics ───────────────────────────────────────────────────────────────────

/// The title of a comic: the name of its file or folder.
pub open spec fn comic_title(path: Seq<char>) -> Seq<char> {
    match name_of(path) {
        Some(n) => n,
        None => "Comic"@,
    }
}

/// The page at which a comic is opened: the one that was asked for in the
/// library, or else the one at which it was left, but not past the end.
pub open spec fn resumed_page(m: Model, total: nat, saved: Option<(usize, usize)>) -> int {
    match m.resume {
        Some(page) => smaller(page as int, last_place(total)),
        None => if m.has_db {
            match saved {
                Some((page, chapter)) => smaller(page as int, last_place(total)),
                None => 0,
            }
        } else {
            0
        },
    }
}

/// What a comic's own description says, where there is one.
pub open spec fn described(xml: Option<String>) -> Option<InfoView> {
    match xml {
        Some(text) => Some(info_of(text@)),
        None => None,
    }
}

/// The state in which nothing is known yet of what is open.
pub open spec fn cleared(m: Model) -> Model {
    Model {
        loading: false,
        cache: Set::empty(),
        pending: Set::empty(),
        chapter_covers: Set::empty(),
        covers_pending: Set::empty(),
        zoom_active: false,
        metadata: None,
        metadata_loading: false,
        comic_info: None,
        comicvine: None,
        comicvine_loading: false,
        comicvine_cover: false,
        show_chapter_select: false,
        resume: None,
        ..m
    }
}

/// The state once a comic was taken over.
#[verifier::opaque]
pub open spec fn comic_state(
    m: Model,
    path: Seq<char>,
    sources: Seq<PageView>,
    chapters: Seq<ChapterView>,
    facts: OpenFacts,
) -> Model {
    Model {
        sources,
        chapters,
        epub_book: None,
        epub_chapter: 0,
        open_path: Some(path),
        title: comic_title(path),
        current_page: resumed_page(m, sources.len(), facts.saved),
        nav_dir: 1,
        parsed_filename: Some(parsed_of(comic_title(path))),
        comic_info: described(facts.comic_info),
        metadata_loading: m.settings.fetch_metadata,
        comicvine_loading: m.settings.fetch_metadata,
        ..cleared(m)
    }
}

/// What was opened is registered in the library, if there is one.
pub open spec fn registered(
    has_db: bool,
    path: Seq<char>,
    title: Seq<char>,
    total: int,
    is_series: bool,
) -> Seq<ActionModel> {
    if has_db {
        seq![
            ActionModel::UpsertSeries { path, title, total, is_series },
            ActionModel::TouchOpened(path),
        ]
    } else {
        Seq::empty()
    }
}

/// The window is named after what is open.
pub open spec fn window_named(m: Model) -> Seq<ActionModel> {
    if m.has_window {
        seq![ActionModel::SetWindowTitle(m.title)]
    } else {
        Seq::empty()
    }
}

/// The cover of a comic is made of its first page, if the library has none in
/// the cache.
pub open spec fn first_cover(m: Model, path: Seq<char>, cover_exists: bool) -> Seq<ActionModel> {
    if m.has_db && !cover_exists && m.sources.len() > 0 {
        seq![ActionModel::MakeLibraryCover { source: m.sources[0], path }]
    } else {
        Seq::empty()
    }
}

/// What is known about a comic is looked up, if that is wanted.
pub open spec fn looked_up(m: Model, facts: OpenFacts) -> Seq<ActionModel> {
    if m.settings.fetch_metadata {
        let q = comicvine_query(described(facts.comic_info), parsed_of(m.title));
        seq![
            ActionModel::FetchMetadata(title_of(m.title)),
            ActionModel::FetchComicVine { series: q.series, issue: q.issue, year: q.year },
        ]
    } else {
        Seq::empty()
    }
}

/// A comic was listed: it is taken over and registered, the pages around the
/// current one are asked for, and what is known about it is looked up.
#[verifier::opaque]
pub open spec fn comic_loaded(
    m: Model,
    path: Seq<char>,
    sources: Seq<PageView>,
    chapters: Seq<ChapterView>,
    facts: OpenFacts,
) -> (Model, Seq<ActionModel>) {
    let n = comic_state(m, path, sources, chapters, facts);
    (
        refreshed(n).0,
        seq![ActionModel::ResetZoom, ActionModel::SetHeaderTitle(n.title)] + registered(
            n.has_db,
            path,
            title_of(n.title),
            sources.len() as int,
            facts.is_dir,
        ) + refreshed(n).1 + first_cover(n, path, facts.cover_exists) + looked_up(n, facts)
            + window_named(n),
    )
}

impl App {
    /// Forgets what was known of what was open.
    fn clear_open(&mut self)
        ensures
            final(self)@ == cleared(old(self)@),
    {
        let ghost m = self@;
        self.loading = false;
        self.cache = no_numbers();
        self.pending = no_numbers();
        self.chapter_covers = no_numbers();
        self.covers_pending = no_numbers();
        self.zoom_active = false;
        self.metadata = None;
        self.metadata_loading = false;
        self.comic_info = None;
        self.comicvine = None;
        self.comicvine_loading = false;
        self.comicvine_cover = false;
        self.show_chapter_select = false;
        self.resume = None;
        assert(self@ == cleared(m)) by {
            reveal(App::model);
        }
    }

    /// The page at which a comic is opened.
    fn resume_at(&self, total: usize, saved: Option<(usize, usize)>) -> (r: usize)
        ensures
            r == resumed_page(self@, total as nat, saved),
    {
        reveal(App::model);
        let last: usize = last_of(total);
        let wanted: usize = match self.resume {
            Some(page) => page,
            None => if self.has_db {
                match saved {
                    Some((page, _)) => page,
                    None => 0,
                }
            } else {
                0
            },
        };
        if wanted < last {
            wanted
        } else {
            last
        }
    }

    /// Takes a comic over.
    fn take_comic(
        &mut self,
        path: String,
        title: String,
        sources: Vec<PageSource>,
        chapters: Vec<ChapterInfo>,
        parsed: ParsedFilename,
        info: Option<ComicInfo>,
        page: usize,
        fetch: bool,
    )
        ensures
            final(self)@ == (Model {
                sources: page_views(sources@),
                chapters: chapter_views(chapters@),
                epub_book: None,
                epub_chapter: 0,
                open_path: Some(path@),
                title: title@,
                current_page: page as int,
                nav_dir: 1,
                parsed_filename: Some(parsed@),
                comic_info: info_view(info),
                metadata_loading: fetch,
                comicvine_loading: fetch,
                ..cleared(old(self)@)
            }),
    {
        self.clear_open();
        let ghost c = self@;
        self.sources = sources;
        self.chapters = chapters;
        self.epub_book = None;
        self.epub_chapter = 0;
        self.open_path = Some(path);
        self.title = title;
        self.current_page = page;
        self.nav_dir = 1;
        self.parsed_filename = Some(parsed);
        self.comic_info = info;
        self.metadata_loading = fetch;
        self.comicvine_loading = fetch;
        assert(self@ == (Model {
            sources: page_views(sources@),
            chapters: chapter_views(chapters@),
            epub_book: None,
            epub_chapter: 0,
            open_path: Some(path@),
            title: title@,
            current_page: page as int,
            nav_dir: 1,
            parsed_filename: Some(parsed@),
            comic_info: info_view(info),
            metadata_loading: fetch,
            comicvine_loading: fetch,
            ..c
        })) by {
            reveal(App::model);
        }
    }

    /// Whether what is known about a comic is looked up.
    fn fetches(&self) -> (r: bool)
        ensures
            r == self@.settings.fetch_metadata,
    {
        reveal(App::model);
        self.settings.fetch_metadata
    }

    /// The title, once more.
    pub(crate) fn title_at_hand(&self) -> (r: String)
        ensures
            r@ == self@.title,
    {
        reveal(App::model);
        self.title.clone()
    }

    /// Registers what was opened in the library.
    fn register(&self, path: &str, title: String, total: usize, is_series: bool) -> (r: Vec<Action>)
        ensures
            action_models(r@) == registered(
                self@.has_db,
                path@,
                title@,
                total as int,
                is_series,
            ),
    {
        if self.has_library() {
            let r = chain(
                only(Action::UpsertSeries { path: text_copy(path), title, total, is_series }),
                only(Action::TouchOpened(text_copy(path))),
            );
            assert(action_models(r@) =~= registered(true, path@, title@, total as int, is_series));
            r
        } else {
            nothing()
        }
    }

    /// Names the window after what is open.
    fn name_window(&self) -> (r: Vec<Action>)
        ensures
            action_models(r@) == window_named(self@),
    {
        reveal(App::model);
        if self.has_window {
            only(Action::SetWindowTitle(self.title.clone()))
        } else {
            nothing()
        }
    }

    /// Has the cover of a comic made of its first page.
    fn make_first_cover(&self, path: &str, cover_exists: bool) -> (r: Vec<Action>)
        ensures
            action_models(r@) == first_cover(self@, path@, cover_exists),
    {
        reveal(App::model);
        if self.has_db && !cover_exists && self.sources.len() > 0 {
            let source = copy_page(&self.sources[0]);
            assert(self@.sources[0] == source@);
            only(Action::MakeLibraryCover { source, path: text_copy(path) })
        } else {
            nothing()
        }
    }

    /// Names the header after what is open, at the size of the window.
    fn name_header(&self) -> (r: Vec<Action>)
        ensures
            action_models(r@) == seq![
                ActionModel::ResetZoom,
                ActionModel::SetHeaderTitle(self@.title),
            ],
    {
        let title = self.title_at_hand();
        let r = chain(only(Action::ResetZoom), only(Action::SetHeaderTitle(title)));
        assert(action_models(r@) =~= seq![
            ActionModel::ResetZoom,
            ActionModel::SetHeaderTitle(self@.title),
        ]);
        r
    }

    /// Has what is known about a comic looked up.
    fn look_up(&self, query: Action) -> (r: Vec<Action>)
        ensures
            action_models(r@) == (if self@.settings.fetch_metadata {
                seq![ActionModel::FetchMetadata(title_of(self@.title)), query@]
            } else {
                Seq::empty()
            }),
    {
        if self.fetches() {
            let title = self.title_at_hand();
            let r = chain(
                only(Action::FetchMetadata(extract_title(title.as_str()))),
                only(query),
            );
            assert(action_models(r@) =~= seq![
                ActionModel::FetchMetadata(title_of(self@.title)),
                query@,
            ]);
            r
        } else {
            nothing()
        }
    }

    /// Takes over a comic that was listed.
    pub(crate) fn load_comic(
        &mut self,
        path: String,
        sources: Vec<PageSource>,
        chapters: Vec<ChapterInfo>,
        facts: OpenFacts,
    ) -> (r: Vec<Action>)
        ensures
            (final(self)@, action_models(r@)) == comic_loaded(
                old(self)@,
                path@,
                page_views(sources@),
                chapter_views(chapters@),
                facts,
            ),
    {
        reveal(comic_loaded);
        let ghost n = comic_state(
            self@,
            path@,
            page_views(sources@),
            chapter_views(chapters@),
            facts,
        );
        let place = path.clone();
        let total: usize = sources.len();
        let title = match file_name(path.as_str()) {
            Some(t) => t,
            None => "Comic".to_owned(),
        };
        let series = extract_title(title.as_str());
        let parsed = parse_filename(title.as_str());
        let info = match &facts.comic_info {
            Some(xml) => Some(parse(xml.as_str())),
            None => None,
        };
        let query = ask_comicvine(&info, &parsed);
        let page: usize = self.resume_at(total, facts.saved);
        let fetch = self.fetches();
        self.take_comic(path, title, sources, chapters, parsed, info, page, fetch);
        assert(self@ == n) by {
            reveal(comic_state);
        }
        assert(n.title == comic_title(place@) && n.has_db == old(self)@.has_db) by {
            reveal(comic_state);
        }
        let named = self.name_header();
        let registration = self.register(place.as_str(), series, total, facts.is_dir);
        let cover = self.make_first_cover(place.as_str(), facts.cover_exists);
        let lookups = self.look_up(query);
        let window = self.name_window();
        let asked = self.refresh_window();
        let front = chain(chain(named, registration), asked);
        chain(chain(chain(front, cover), lookups), window)
    }
}

// ── Books ────────────────────────────────────────────────────────────────────

/// The chapter at which a book is opened: the one at which it was left, but not
/// past the end.
pub open spec fn resumed_chapter(m: Model, total: nat, saved: Option<(usize, usize)>) -> int {
    if m.has_db {
        match saved {
            Some((page, chapter)) => smaller(chapter as int, last_place(total)),
            None => 0,
        }
    } else {
        0
    }
}

/// The state once a book was taken over.
#[verifier::opaque]
pub open spec fn book_state(
    m: Model,
    path: Seq<char>,
    book: EpubBook,
    saved: Option<(usize, usize)>,
) -> Model {
    Model {
        sources: Seq::empty(),
        chapters: Seq::empty(),
        epub_book: Some(book),
        epub_chapter: resumed_chapter(m, book.chapters@.len(), saved),
        open_path: Some(path),
        title: book.title@,
        ..cleared(m)
    }
}

/// A book was opened, or could not be.
#[verifier::opaque]
pub open spec fn book_loaded(
    m: Model,
    path: Seq<char>,
    book: Result<EpubBook, String>,
    saved: Option<(usize, usize)>,
    cover_exists: bool,
) -> (Model, Seq<ActionModel>) {
    match book {
        Err(e) => failed(Model { loading: false, ..m }, e@),
        Ok(b) => {
            let n = book_state(m, path, b, saved);
            (
                n,
                seq![ActionModel::ResetZoom, ActionModel::SetHeaderTitle(n.title)] + registered(
                    n.has_db,
                    path,
                    n.title,
                    b.chapters@.len() as int,
                    false,
                ) + (match b.cover {
                    Some(data) => if n.has_db && !cover_exists {
                        seq![ActionModel::MakeEpubCover { data: data@, path }]
                    } else {
                        Seq::empty()
                    },
                    None => Seq::empty(),
                }) + window_named(n),
            )
        },
    }
}

impl App {
    /// The chapter at which a book is opened.
    fn resume_in(&self, total: usize, saved: Option<(usize, usize)>) -> (r: usize)
        ensures
            r == resumed_chapter(self@, total as nat, saved),
    {
        let wanted: usize = if self.has_library() {
            match saved {
                Some((_, chapter)) => chapter,
                None => 0,
            }
        } else {
            0
        };
        let last: usize = last_of(total);
        if wanted < last {
            wanted
        } else {
            last
        }
    }

    /// Takes a book over.
    fn take_book(&mut self, path: String, book: EpubBook, chapter: usize)
        ensures
            final(self)@ == (Model {
                sources: Seq::empty(),
                chapters: Seq::empty(),
                epub_book: Some(book),
                epub_chapter: chapter as int,
                open_path: Some(path@),
                title: book.title@,
                ..cleared(old(self)@)
            }),
    {
        self.clear_open();
        let ghost c = self@;
        self.sources = Vec::new();
        self.chapters = Vec::new();
        self.title = book.title.clone();
        self.epub_book = Some(book);
        self.epub_chapter = chapter;
        self.open_path = Some(path);
        assert(page_views(self.sources@) =~= Seq::empty());
        assert(chapter_views(self.chapters@) =~= Seq::empty());
        assert(self@ == (Model {
            sources: Seq::empty(),
            chapters: Seq::empty(),
            epub_book: Some(book),
            epub_chapter: chapter as int,
            open_path: Some(path@),
            title: book.title@,
            ..c
        })) by {
            reveal(App::model);
        }
    }

    /// Notes that nothing is being loaded any more.
    pub(crate) fn stop_loading(&mut self)
        ensures
            final(self)@ == (Model { loading: false, ..old(self)@ }),
    {
        let ghost n = Model { loading: false, ..self@ };
        self.loading = false;
        assert(self@ == n) by {
            reveal(App::model);
        }
    }

    /// Takes over a book that was opened.
    pub(crate) fn load_book(
        &mut self,
        path: String,
        book: Result<EpubBook, String>,
        saved: Option<(usize, usize)>,
        cover_exists: bool,
    ) -> (r: Vec<Action>)
        ensures
            (final(self)@, action_models(r@)) == book_loaded(
                old(self)@,
                path@,
                book,
                saved,
                cover_exists,
            ),
    {
        reveal(book_loaded);
        match book {
            Err(e) => {
                self.stop_loading();
                self.fail(e)
            },
            Ok(b) => {
                let ghost n = book_state(self@, path@, b, saved);
                let place = path.clone();
                let total: usize = b.chapters.len();
                let chapter: usize = self.resume_in(total, saved);
                let cover = match &b.cover {
                    Some(data) => if self.has_library() && !cover_exists {
                        only(Action::MakeEpubCover { data: copy_bytes(data), path: path.clone() })
                    } else {
                        nothing()
                    },
                    None => nothing(),
                };
                self.take_book(path, b, chapter);
                assert(self@ == n) by {
                    reveal(book_state);
                }
                assert(n.has_db == old(self)@.has_db) by {
                    reveal(book_state);
                }
                let named = self.name_header();
                let title = self.title_at_hand();
                let registration = self.register(place.as_str(), title, total, false);
                let window = self.name_window();
                chain(chain(chain(named, registration), cover), window)
            },
        }
    }
}

// ── Pages and lookups ────────────────────────────────────────────────────────

/// A page was decoded, or could not be. Once it is the current one, the window
/// is drawn once more.
#[verifier::opaque]
pub open spec fn page_decoded(m: Model, index: usize, ok: bool) -> (Model, Seq<ActionModel>) {
    let n = Model { pending: m.pending.remove(index), ..m };
    (
        if ok {
            Model { cache: n.cache.insert(index), ..n }
        } else {
            n
        },
        if index == m.current_page {
            seq![ActionModel::RedrawSoon]
        } else {
            Seq::empty()
        },
    )
}

/// What AniList knows arrived, or nothing did.
#[verifier::opaque]
pub open spec fn metadata_loaded(m: Model, result: Result<SeriesMetadata, String>) -> (
    Model,
    Seq<ActionModel>,
) {
    let n = Model { metadata_loading: false, ..m };
    match result {
        Err(_) => unchanged(n),
        Ok(meta) => (
            Model { metadata: Some(meta), ..n },
            if m.has_db && m.open_path is Some {
                seq![ActionModel::SaveMetadata(m.open_path->0)]
            } else {
                Seq::empty()
            },
        ),
    }
}

/// What ComicVine knows arrived, or why nothing did.
#[verifier::opaque]
pub open spec fn comicvine_loaded(m: Model, result: Result<ComicVineMatch, String>) -> (
    Model,
    Seq<ActionModel>,
) {
    (
        Model { comicvine_loading: false, comicvine: Some(result), ..m },
        match result {
            Ok(ComicVineMatch { cover_url: Some(url), .. }) => seq![
                ActionModel::FetchComicVineCover(url@),
            ],
            _ => Seq::empty(),
        },
    )
}

impl App {
    /// Notes that a page is no longer being decoded.
    fn page_arrived(&mut self, index: usize)
        ensures
            final(self)@ == (Model { pending: old(self)@.pending.remove(index), ..old(self)@ }),
    {
        drop_number(&mut self.pending, index);
        reveal(App::model);
    }

    /// Notes that a page is decoded.
    fn put_page(&mut self, index: usize)
        ensures
            final(self)@ == (Model { cache: old(self)@.cache.insert(index), ..old(self)@ }),
    {
        put_number(&mut self.cache, index);
        reveal(App::model);
    }

    /// Whether a page is the current one.
    pub fn is_current(&self, index: usize) -> (r: bool)
        ensures
            r == (index == self@.current_page),
    {
        reveal(App::model);
        index == self.current_page
    }

    /// Takes a page that was decoded.
    pub(crate) fn take_page(&mut self, index: usize, ok: bool) -> (r: Vec<Action>)
        ensures
            (final(self)@, action_models(r@)) == page_decoded(old(self)@, index, ok),
    {
        reveal(page_decoded);
        let current = self.is_current(index);
        self.page_arrived(index);
        if ok {
            self.put_page(index);
        }
        if current {
            only(Action::RedrawSoon)
        } else {
            nothing()
        }
    }

    /// Notes what AniList knows.
    fn set_metadata(&mut self, meta: Option<SeriesMetadata>)
        ensures
            final(self)@ == (Model {
                metadata_loading: false,
                metadata: match meta {
                    Some(data) => Some(data),
                    None => old(self)@.metadata,
                },
                ..old(self)@
            }),
    {
        let ghost m = self@;
        self.metadata_loading = false;
        if let Some(data) = meta {
            self.metadata = Some(data);
        }
        assert(self@ == (Model {
            metadata_loading: false,
            metadata: match meta {
                Some(data) => Some(data),
                None => m.metadata,
            },
            ..m
        })) by {
            reveal(App::model);
        }
    }

    /// Takes what AniList knows.
    pub(crate) fn take_metadata(&mut self, result: Result<SeriesMetadata, String>) -> (r: Vec<
        Action,
    >)
        ensures
            (final(self)@, action_models(r@)) == metadata_loaded(old(self)@, result),
    {
        reveal(metadata_loaded);
        match result {
            Err(_) => {
                self.set_metadata(None);
                nothing()
            },
            Ok(meta) => {
                self.set_metadata(Some(meta));
                if self.has_library() {
                    if let Some(path) = self.path_at_hand() {
                        return only(Action::SaveMetadata(path));
                    }
                }
                nothing()
            },
        }
    }

    /// Notes what ComicVine knows.
    fn set_comicvine(&mut self, result: Result<ComicVineMatch, String>)
        ensures
            final(self)@ == (Model {
                comicvine_loading: false,
                comicvine: Some(result),
                ..old(self)@
            }),
    {
        let ghost m = self@;
        self.comicvine_loading = false;
        self.comicvine = Some(result);
        assert(self@ == (Model { comicvine_loading: false, comicvine: Some(result), ..m })) by {
            reveal(App::model);
        }
    }

    /// Takes what ComicVine knows.
    pub(crate) fn take_comicvine(&mut self, result: Result<ComicVineMatch, String>) -> (r: Vec<
        Action,
    >)
        ensures
            (final(self)@, action_models(r@)) == comicvine_loaded(old(self)@, result),
    {
        reveal(comicvine_loaded);
        let cover = match &result {
            Ok(found) => match &found.cover_url {
                Some(url) => only(Action::FetchComicVineCover(url.clone())),
                None => nothing(),
            },
            Err(_) => nothing(),
        };
        self.set_comicvine(result);
        cover
    }

    /// Whether the current page is decoded.
    fn has_current_page(&self) -> (r: bool)
        ensures
            r == self@.cache.contains(self@.current_page as usize),
    {
        reveal(App::model);
        has_number(&self.cache, self.current_page)
    }
}

/// The current page is copied, if it is decoded.
#[verifier::opaque]
pub open spec fn page_copied(m: Model) -> Seq<ActionModel> {
    if m.cache.contains(m.current_page as usize) {
        seq![ActionModel::CopyPage(m.current_page)]
    } else {
        Seq::empty()
    }
}

/// The window is fitted to the current page, if that is decoded and there is a
/// window.
#[verifier::opaque]
pub open spec fn page_fitted(m: Model) -> Seq<ActionModel> {
    if m.cache.contains(m.current_page as usize) && m.has_window {
        seq![ActionModel::FitPage(m.current_page)]
    } else {
        Seq::empty()
    }
}

impl App {
    /// Copies the current page.
    pub(crate) fn copy_current(&self) -> (r: Vec<Action>)
        ensures
            action_models(r@) == page_copied(self@),
    {
        reveal(page_copied);
        reveal(App::model);
        if self.has_current_page() {
            only(Action::CopyPage(self.current_page))
        } else {
            nothing()
        }
    }

    /// Fits the window to the current page.
    pub(crate) fn fit_current(&self) -> (r: Vec<Action>)
        ensures
            action_models(r@) == page_fitted(self@),
    {
        reveal(page_fitted);
        reveal(App::model);
        if self.has_current_page() && self.has_window {
            only(Action::FitPage(self.current_page))
        } else {
            nothing()
        }
    }
}

// ── Starting ─────────────────────────────────────────────────────────────────

/// The state in which the application starts.
pub open spec fn starting_state(
    path: Option<Seq<char>>,
    settings: Settings,
    dirs: Seq<Seq<char>>,
    has_db: bool,
    has_window: bool,
) -> Model {
    Model {
        app_view: if path is None {
            AppView::Library
        } else {
            AppView::Reader
        },
        title: "Cosmic Comic"@,
        open_path: None,
        sources: Seq::empty(),
        chapters: Seq::empty(),
        cache: Set::empty(),
        pending: Set::empty(),
        current_page: 0,
        resume: None,
        nav_dir: 0,
        loading: path is Some,
        error: None,
        fullscreen: false,
        theater_mode: settings.theater_mode,
        layout: if settings.dual_page {
            Layout::Dual
        } else {
            Layout::Single
        },
        zoom_active: false,
        show_chapter_select: false,
        metadata: None,
        metadata_loading: false,
        parsed_filename: None,
        comic_info: None,
        comicvine: None,
        comicvine_loading: false,
        comicvine_cover: false,
        epub_book: None,
        epub_chapter: 0,
        control: false,
        touches: Set::empty(),
        chapter_covers: Set::empty(),
        covers_pending: Set::empty(),
        has_db,
        library_entries: Seq::empty(),
        library_search: Seq::empty(),
        library_covers: Set::empty(),
        library_dirs: dirs,
        library_path_input: Seq::empty(),
        settings,
        context_page: ContextPage::Settings,
        show_context: false,
        has_window,
    }
}

/// What is asked for at the start: the path that was given is opened, or else
/// the library is listed; and each library folder is scanned.
pub open spec fn starting_actions(m: Model, path: Option<Seq<char>>) -> Seq<ActionModel> {
    seq![ActionModel::SetHeaderTitle(m.title)] + window_named(m) + (match path {
        Some(p) => seq![opening_of(p)],
        None => listing(m),
    }) + m.library_dirs.map_values(|d: Seq<char>| ActionModel::ScanFolder(d))
}

impl App {
    /// The application at its start, on a path that was given or on the library.
    fn start(
        has_path: bool,
        settings: Settings,
        library_dirs: Vec<String>,
        has_db: bool,
        has_window: bool,
        Ghost(path): Ghost<Option<Seq<char>>>,
    ) -> (r: App)
        requires
            has_path == (path is Some),
        ensures
            r@ == starting_state(path, settings, texts(library_dirs@), has_db, has_window),
    {
        broadcast use vstd::std_specs::hash::group_hash_axioms;

        let search = String::new();
        let input = String::new();
        let r = App {
            app_view: if has_path {
                AppView::Reader
            } else {
                AppView::Library
            },
            title: "Cosmic Comic".to_owned(),
            open_path: None,
            sources: Vec::new(),
            chapters: Vec::new(),
            cache: no_numbers(),
            pending: no_numbers(),
            current_page: 0,
            resume: None,
            nav_dir: 0,
            loading: has_path,
            error: None,
            fullscreen: false,
            theater_mode: settings.theater_mode,
            layout: if settings.dual_page {
                Layout::Dual
            } else {
                Layout::Single
            },
            zoom_active: false,
            show_chapter_select: false,
            metadata: None,
            metadata_loading: false,
            parsed_filename: None,
            comic_info: None,
            comicvine: None,
            comicvine_loading: false,
            comicvine_cover: false,
            epub_book: None,
            epub_chapter: 0,
            control: false,
            touches: HashSet::new(),
            chapter_covers: no_numbers(),
            covers_pending: no_numbers(),
            has_db,
            library_entries: Vec::new(),
            library_search: search,
            library_covers: HashSet::new(),
            library_dirs,
            library_path_input: input,
            settings,
            context_page: ContextPage::Settings,
            show_context: false,
            has_window,
        };
        reveal(App::model);
        assert(page_views(r.sources@) =~= Seq::empty());
        assert(chapter_views(r.chapters@) =~= Seq::empty());
        assert(search@ =~= Seq::empty());
        assert(input@ =~= Seq::empty());
        assert(r.library_entries@ =~= Seq::empty());
        r
    }

    /// Has each library folder scanned.
    fn scan_dirs(&self) -> (r: Vec<Action>)
        ensures
            action_models(r@) == self@.library_dirs.map_values(
                |d: Seq<char>| ActionModel::ScanFolder(d),
            ),
    {
        reveal(App::model);
        let ghost all = texts(self.library_dirs@);
        let ghost scan = |d: Seq<char>| ActionModel::ScanFolder(d);
        let mut out = nothing();
        assert(action_models(out@) =~= all.take(0).map_values(scan));
        for i in 0..self.library_dirs.len()
            invariant
                all == texts(self.library_dirs@),
                scan == |d: Seq<char>| ActionModel::ScanFolder(d),
                action_models(out@) == all.take(i as int).map_values(scan),
        {
            let ghost was = action_models(out@);
            let action = Action::ScanFolder(self.library_dirs[i].clone());
            out.push(action);
            assert(action_models(out@) =~= was.push(action@));
            assert(all.take(i + 1).map_values(scan) =~= all.take(i as int).map_values(scan).push(
                scan(all[i as int]),
            ));
        }
        assert(all.take(all.len() as int) =~= all);
        out
    }

    /// Starts the application: on the path that was given, or on the library.
    pub fn init(
        path: Option<String>,
        settings: Settings,
        library_dirs: Vec<String>,
        has_db: bool,
        has_window: bool,
    ) -> (r: (App, Vec<Action>))
        ensures
            r.0@ == starting_state(
                opt_text(path),
                settings,
                texts(library_dirs@),
                has_db,
                has_window,
            ),
            action_models(r.1@) == starting_actions(r.0@, opt_text(path)),
            r.0.well_formed(),
    {
        let ghost given = opt_text(path);
        let app = App::start(
            path.is_some(),
            settings,
            library_dirs,
            has_db,
            has_window,
            Ghost(given),
        );
        let header = only(Action::SetHeaderTitle(app.title_at_hand()));
        let window = app.name_window();
        let first = match path {
            Some(p) => only(open_any(p)),
            None => app.reload_library(),
        };
        let scans = app.scan_dirs();
        let r = chain(chain(chain(header, window), first), scans);
        (app, r)
    }
}

} // verus!
