use cosmic_comic::app::{
    chapters_fit, Action, App, AppView, ContextPage, KeyPress, Layout, Message, OpenFacts,
    ScanOutcome, TouchEvent,
};
use cosmic_comic::comic::{ChapterInfo, PageSource};
use cosmic_comic::comicvine::ComicVineMatch;
use cosmic_comic::epub::{EpubBook, EpubChapter};
use cosmic_comic::library::{upsert_series, SeriesEntry};
use cosmic_comic::metadata::SeriesMetadata;
use cosmic_comic::settings::{Background, Settings};

fn start() -> App {
    App::init(None, Settings::default(), vec![], true, true).0
}

fn page(i: usize) -> PageSource {
    PageSource::File(format!("/c/{i}.png"))
}

fn facts(saved: Option<(usize, usize)>) -> OpenFacts {
    OpenFacts { saved, is_dir: true, cover_exists: true, comic_info: None }
}

fn load(app: &mut App, counts: &[usize], facts: OpenFacts) -> Vec<String> {
    let mut sources = Vec::new();
    let mut chapters = Vec::new();
    for (i, n) in counts.iter().enumerate() {
        chapters.push(ChapterInfo { name: format!("c{i}"), start: sources.len(), page_count: *n });
        for _ in 0..*n {
            sources.push(page(sources.len()));
        }
    }
    assert!(chapters_fit(&chapters, sources.len()));
    send(app, Message::Loaded { path: "/c/Saga 003".to_string(), sources, chapters, facts })
}

fn reader(counts: &[usize]) -> App {
    let mut app = start();
    load(&mut app, counts, facts(None));
    app.app_view = AppView::Reader;
    app
}

fn send(app: &mut App, message: Message) -> Vec<String> {
    app.update(message).iter().map(told).collect()
}

fn told(a: &Action) -> String {
    let src = |s: &PageSource| match s {
        PageSource::File(p) => p.clone(),
        PageSource::Zip { archive, entry } => format!("{archive}!{entry}"),
    };
    match a {
        Action::SetHeaderTitle(t) => format!("header {t}"),
        Action::SetWindowTitle(t) => format!("window {t}"),
        Action::SetFullscreen(b) => format!("fullscreen {b}"),
        Action::ShowContext(b) => format!("drawer {b}"),
        Action::ResetZoom => "zoom".to_string(),
        Action::RedrawSoon => "redraw".to_string(),
        Action::ChooseFile => "choose file".to_string(),
        Action::ChooseFolder => "choose folder".to_string(),
        Action::ChooseLibraryFolder => "choose library".to_string(),
        Action::OpenEpub(p) => format!("epub {p}"),
        Action::OpenComic(p) => format!("comic {p}"),
        Action::Decode { index, source } => format!("decode {index} {}", src(source)),
        Action::CopyPage(i) => format!("copy {i}"),
        Action::FitPage(i) => format!("fit {i}"),
        Action::FetchMetadata(t) => format!("anilist {t}"),
        Action::FetchComicVine { series, issue, year } => format!("vine {series} {issue:?} {year:?}"),
        Action::FetchComicVineCover(u) => format!("vine cover {u}"),
        Action::QueryLibrary(q) => format!("query {q:?}"),
        Action::UpsertSeries { path, title, total, is_series } => {
            format!("upsert {path} {title} {total} {is_series}")
        }
        Action::TouchOpened(p) => format!("touch {p}"),
        Action::SaveProgress { path, page, chapter } => format!("save {path} {page} {chapter}"),
        Action::SaveMetadata(p) => format!("metadata {p}"),
        Action::SaveSettings => "settings".to_string(),
        Action::AddLibraryDir(p) => format!("add {p}"),
        Action::RemoveLibraryDir(p) => format!("remove {p}"),
        Action::ScanFolder(p) => format!("scan {p}"),
        Action::LoadLibraryCover(i) => format!("load cover {i}"),
        Action::UseLibraryCover { series_id, path } => format!("use cover {series_id} {path}"),
        Action::ShareCover(i) => format!("share {i}"),
        Action::MakeLibraryCover { source, path } => format!("make {} {path}", src(source)),
        Action::MakeEpubCover { data, path } => format!("make {data:?} {path}"),
        Action::LookForCovers(l) => format!("look {l:?}"),
        Action::LoadChapterCover(i) => format!("load chapter {i}"),
        Action::MakeChapterCover { chapter, source, path } => {
            format!("make chapter {chapter} {} {path}", src(source))
        }
    }
}

fn list(v: &[&str]) -> Vec<String> {
    v.iter().map(|s| s.to_string()).collect()
}

fn key(app: &mut App, c: &str) -> Vec<String> {
    send(app, Message::Key(KeyPress::Character(c.to_string())))
}

fn book(title: &str, chapters: usize) -> EpubBook {
    EpubBook {
        title: title.to_string(),
        author: None,
        cover: Some(vec![7]),
        chapters: (0..chapters)
            .map(|i| EpubChapter { title: format!("{i}"), blocks: vec![] })
            .collect(),
    }
}

fn entry(id: i64, path: &str) -> SeriesEntry {
    let mut e = upsert_series(None, path, "t", 1, false, 0);
    e.id = id;
    e
}

#[test]
fn it_starts_on_the_library_or_on_a_path() {
    let (app, actions) = App::init(None, Settings::default(), list(&["/lib"]), true, true);
    assert_eq!(app.app_view, AppView::Library);
    assert!(!app.loading);
    let actions: Vec<String> = actions.iter().map(told).collect();
    assert_eq!(
        actions,
        list(&["header Cosmic Comic", "window Cosmic Comic", "query None", "scan /lib"])
    );
    let settings = Settings { dual_page: true, theater_mode: true, ..Settings::default() };
    let (app, actions) = App::init(Some("/b.epub".to_string()), settings, vec![], false, false);
    assert_eq!((app.app_view, app.layout), (AppView::Reader, Layout::Dual));
    assert!(app.loading && app.theater_mode);
    let actions: Vec<String> = actions.iter().map(told).collect();
    assert_eq!(actions, list(&["header Cosmic Comic", "epub /b.epub"]));
}

#[test]
fn a_comic_is_loaded() {
    let mut app = start();
    app.error = Some("old".to_string());
    let mut f = facts(Some((2, 0)));
    f.cover_exists = false;
    f.comic_info = Some("<Series>Saga</Series>".to_string());
    let done = load(&mut app, &[10], f);
    assert_eq!(
        done,
        list(&[
            "zoom", "header Saga 003", "upsert /c/Saga 003 Saga 003 10 true", "touch /c/Saga 003",
            "decode 2 /c/2.png", "decode 3 /c/3.png", "decode 1 /c/1.png", "decode 4 /c/4.png",
            "decode 5 /c/5.png", "decode 6 /c/6.png", "decode 7 /c/7.png", "decode 8 /c/8.png",
            "make /c/0.png /c/Saga 003", "anilist Saga 003", "vine Saga Some(\"3\") None",
            "window Saga 003",
        ])
    );
    assert_eq!(app.current_page, 2);
    assert_eq!(app.open_path.as_deref(), Some("/c/Saga 003"));
    assert!(app.metadata_loading && app.comicvine_loading);
    assert_eq!(app.parsed_filename.as_ref().unwrap().issue, Some(3));
}

#[test]
fn nothing_is_looked_up_unless_wanted() {
    let settings = Settings { fetch_metadata: false, ..Settings::default() };
    let (mut app, _) = App::init(None, settings, vec![], false, false);
    let done = load(&mut app, &[1], facts(Some((5, 0))));
    assert_eq!(done, list(&["zoom", "header Saga 003", "decode 0 /c/0.png"]));
    assert!(!app.metadata_loading && !app.comicvine_loading);
    assert_eq!(app.current_page, 0);
}

#[test]
fn reading_resumes_where_it_was_left() {
    let mut app = reader(&[5, 5]);
    let done = send(&mut app, Message::NextPage);
    assert_eq!(done[0], "save /c/Saga 003 1 0");
    let mut again = start();
    load(&mut again, &[5, 5], facts(Some((1, 0))));
    assert_eq!(again.current_page, 1);
    let mut short = start();
    load(&mut short, &[1], facts(Some((9, 0))));
    assert_eq!(short.current_page, 0);
}

#[test]
fn a_page_that_is_asked_for_goes_before_the_saved_one() {
    let mut app = start();
    let done = send(
        &mut app,
        Message::OpenFromLibrary { path: "/c/Saga 003".to_string(), page: 3, chapter: 0 },
    );
    assert_eq!(done, list(&["comic /c/Saga 003"]));
    assert!(app.loading);
    load(&mut app, &[10], facts(Some((1, 0))));
    assert_eq!(app.current_page, 3);
    assert_eq!(app.resume, None);
    send(
        &mut app,
        Message::OpenFromLibrary { path: "/c/Saga 003".to_string(), page: 0, chapter: 0 },
    );
    load(&mut app, &[10], facts(Some((1, 0))));
    assert_eq!(app.current_page, 1);
}

#[test]
fn a_comic_does_not_open_at_the_page_of_another() {
    let choose = |path: &str| Message::PathSelected(format!("file://{path}"));
    let mut app = reader(&[10]);
    send(&mut app, Message::NextPage);
    send(&mut app, Message::NextPage);
    assert_eq!(send(&mut app, choose("/c/B.cbz")), list(&["comic /c/B.cbz"]));
    send(&mut app, Message::NextPage);
    load(&mut app, &[10], facts(Some((7, 0))));
    assert_eq!(app.current_page, 7);
    send(&mut app, Message::FilesDropped(vec!["/c/C.cbz".to_string()]));
    load(&mut app, &[10], facts(None));
    assert_eq!(app.current_page, 0);
    send(
        &mut app,
        Message::OpenFromLibrary { path: "/c/D.cbz".to_string(), page: 5, chapter: 0 },
    );
    send(&mut app, choose("/c/E.cbz"));
    load(&mut app, &[10], facts(Some((2, 0))));
    assert_eq!(app.current_page, 2);
}

#[test]
fn pages_are_turned() {
    let mut app = reader(&[2, 2]);
    assert_eq!(send(&mut app, Message::PrevPage), list(&[]));
    assert_eq!(send(&mut app, Message::NextPage)[0], "save /c/Saga 003 1 0");
    assert_eq!(send(&mut app, Message::NextPage)[0], "save /c/Saga 003 2 1");
    send(&mut app, Message::NextPage);
    assert_eq!(app.current_page, 3);
    assert_eq!(send(&mut app, Message::NextPage), list(&[]));
    assert_eq!(send(&mut app, Message::PrevPage)[0], "save /c/Saga 003 2 1");
    assert_eq!(app.nav_dir, -1);
}

#[test]
fn back_undoes_forward() {
    for layout in [Layout::Single, Layout::Dual] {
        let mut app = reader(&[10]);
        app.layout = layout;
        app.current_page = 4;
        send(&mut app, Message::NextPage);
        assert_ne!(app.current_page, 4);
        send(&mut app, Message::PrevPage);
        assert_eq!(app.current_page, 4);
    }
}

#[test]
fn two_pages_are_turned_at_a_time() {
    let mut app = reader(&[6]);
    app.current_page = 3;
    let done = send(&mut app, Message::ToggleLayout);
    assert_eq!(done[0], "settings");
    assert_eq!((app.layout, app.current_page, app.settings.dual_page), (Layout::Dual, 2, true));
    send(&mut app, Message::NextPage);
    assert_eq!(app.current_page, 4);
    send(&mut app, Message::NextPage);
    assert_eq!(app.current_page, 5);
    send(&mut app, Message::ToggleLayout);
    assert_eq!((app.layout, app.settings.dual_page), (Layout::Single, false));
}

#[test]
fn the_window_of_pages_follows_the_reader() {
    let mut app = reader(&[60]);
    app.pending.clear();
    app.current_page = 30;
    for i in 0..60 {
        app.cache.insert(i);
    }
    app.nav_dir = -1;
    assert_eq!(app.refresh_window().len(), 0);
    let mut kept: Vec<usize> = app.cache.iter().copied().collect();
    kept.sort();
    assert_eq!(kept, (16..=44).collect::<Vec<usize>>());
    app.cache.clear();
    let asked: Vec<String> = app.refresh_window().iter().map(told).collect();
    let order = [30, 31, 29, 28, 27, 26, 25, 24];
    assert_eq!(asked, order.map(|i| format!("decode {i} /c/{i}.png")).to_vec());
    assert_eq!(app.refresh_window().len(), 0);
    assert_eq!(app.pending.len(), 8);
}

#[test]
fn a_decoded_page_is_kept() {
    let mut app = reader(&[4]);
    assert_eq!(send(&mut app, Message::PageDecoded(0, true)), list(&["redraw"]));
    assert_eq!(send(&mut app, Message::PageDecoded(1, true)), list(&[]));
    assert_eq!(send(&mut app, Message::PageDecoded(2, false)), list(&[]));
    assert!(app.cache.contains(&0) && app.cache.contains(&1) && !app.cache.contains(&2));
    assert!(!app.pending.contains(&2));
    assert_eq!(app.nearest_cached(), Some(0));
    app.current_page = 3;
    assert_eq!(app.nearest_cached(), Some(1));
    assert_eq!(send(&mut app, Message::CopyPage), list(&[]));
    app.current_page = 1;
    assert_eq!(send(&mut app, Message::CopyPage), list(&["copy 1"]));
    assert_eq!(send(&mut app, Message::FitPage), list(&["fit 1"]));
    app.has_window = false;
    assert_eq!(send(&mut app, Message::FitPage), list(&[]));
}

#[test]
fn a_book_is_read_by_chapters() {
    let mut app = start();
    let done = send(
        &mut app,
        Message::EpubLoaded {
            path: "/b.epub".to_string(),
            book: Ok(book("B", 3)),
            saved: Some((0, 1)),
            cover_exists: false,
        },
    );
    assert_eq!(
        done,
        list(&[
            "zoom", "header B", "upsert /b.epub B 3 false", "touch /b.epub", "make [7] /b.epub", "window B"
        ])
    );
    assert_eq!(app.epub_chapter, 1);
    assert_eq!(send(&mut app, Message::NextPage), list(&["save /b.epub 0 2"]));
    assert_eq!(send(&mut app, Message::NextPage), list(&[]));
    assert_eq!(send(&mut app, Message::PrevPage), list(&["save /b.epub 0 1"]));
    assert_eq!(send(&mut app, Message::SelectChapter(0)), list(&["save /b.epub 0 0"]));
    assert_eq!(send(&mut app, Message::PrevPage), list(&[]));
}

#[test]
fn a_book_that_cannot_be_opened_is_an_error() {
    let mut app = start();
    app.loading = true;
    send(
        &mut app,
        Message::EpubLoaded {
            path: "/b.epub".to_string(),
            book: Err("bad".to_string()),
            saved: None,
            cover_exists: true,
        },
    );
    assert_eq!((app.error.as_deref(), app.loading), (Some("bad"), false));
    send(&mut app, Message::CloseError);
    assert_eq!(app.error, None);
}

#[test]
fn chapters_are_selected() {
    let mut app = reader(&[2, 3]);
    app.show_chapter_select = true;
    assert_eq!(send(&mut app, Message::SelectChapter(1))[0], "save /c/Saga 003 2 1");
    assert_eq!((app.current_page, app.show_chapter_select), (2, false));
    assert_eq!(send(&mut app, Message::SelectChapter(9)), list(&[]));
    assert_eq!(app.current_chapter(), Some((1, 0)));
}

#[test]
fn missing_covers_of_chapters_are_made() {
    let mut app = reader(&[2, 0, 3, 1]);
    app.chapter_covers.insert(3);
    assert_eq!(send(&mut app, Message::ToggleChapterSelect), list(&["look [0, 1, 2]"]));
    let done = send(&mut app, Message::CoversLooked(vec![(0, true), (1, false), (2, false), (9, true)]));
    assert_eq!(done, list(&["load chapter 0", "make chapter 2 /c/2.png /c/Saga 003"]));
    assert!(app.chapter_covers.contains(&0) && app.covers_pending.contains(&2));
    assert_eq!(send(&mut app, Message::CoversLooked(vec![(2, true)])), list(&[]));
    let found = vec![entry(4, "/other"), entry(5, "/c/Saga 003")];
    let done = send(&mut app, Message::ChapterCoverReady { chapter_idx: 2, ok: true, found: vec![] });
    assert_eq!(done, list(&[]));
    let done = send(&mut app, Message::ChapterCoverReady { chapter_idx: 0, ok: true, found });
    assert_eq!(done, list(&["share 5"]));
    assert!(app.library_covers.contains(&5) && app.chapter_covers.contains(&2));
    assert_eq!(send(&mut app, Message::ToggleChapterSelect), list(&[]));
}

#[test]
fn keys_do_what_they_say() {
    let mut app = reader(&[4, 4]);
    send(&mut app, Message::Key(KeyPress::ArrowRight));
    send(&mut app, Message::Key(KeyPress::PageDown));
    assert_eq!(app.current_page, 2);
    send(&mut app, Message::Key(KeyPress::ArrowLeft));
    send(&mut app, Message::Key(KeyPress::PageUp));
    assert_eq!(app.current_page, 0);
    assert_eq!(key(&mut app, "f"), list(&["fullscreen true"]));
    assert_eq!(key(&mut app, "F"), list(&["fullscreen false"]));
    assert_eq!(key(&mut app, "t"), list(&["settings"]));
    assert!(app.theater_mode && app.settings.theater_mode);
    assert_eq!(key(&mut app, "m"), list(&["zoom"]));
    assert!(app.zoom_active);
    assert_eq!(send(&mut app, Message::Key(KeyPress::Escape)), list(&["zoom"]));
    assert!(!app.zoom_active);
    assert_eq!(key(&mut app, "L")[0], "settings");
    assert_eq!((app.layout, app.settings.dual_page), (Layout::Dual, true));
    assert_eq!(key(&mut app, "i"), list(&["drawer true"]));
    assert_eq!((app.context_page, app.show_context), (ContextPage::Info, true));
    assert_eq!(key(&mut app, "s"), list(&["drawer true"]));
    assert_eq!(key(&mut app, "s"), list(&["drawer false"]));
    assert_eq!(key(&mut app, "c"), list(&["look [0, 1]"]));
    assert!(app.show_chapter_select);
    send(&mut app, Message::Key(KeyPress::Escape));
    assert!(!app.show_chapter_select);
    app.cache.insert(0);
    assert_eq!(key(&mut app, "p"), list(&["copy 0"]));
    assert_eq!(key(&mut app, "x"), list(&[]));
    app.zoom_active = true;
    assert_eq!(key(&mut app, "0"), list(&[]));
    send(&mut app, Message::ModifiersChanged(true));
    assert_eq!(key(&mut app, "0"), list(&["zoom"]));
    assert!(!app.zoom_active);
    assert_eq!(send(&mut app, Message::Key(KeyPress::Other)), list(&[]));
}

#[test]
fn a_single_chapter_has_no_list() {
    let mut app = reader(&[4]);
    assert_eq!(key(&mut app, "c"), list(&[]));
    assert!(!app.show_chapter_select);
}

#[test]
fn keys_do_nothing_in_the_library() {
    let mut app = reader(&[4]);
    send(&mut app, Message::GoToLibrary);
    for k in ["f", "t", "l", "m", "i", "s", "p"] {
        assert_eq!(key(&mut app, k), list(&[]));
    }
    send(&mut app, Message::Key(KeyPress::ArrowRight));
    assert_eq!((app.current_page, app.layout, app.theater_mode), (0, Layout::Single, false));
}

#[test]
fn switching_twice_changes_nothing() {
    let mut app = reader(&[4, 4]);
    for m in 0..4 {
        for _ in 0..2 {
            let message = match m {
                0 => Message::ToggleFullscreen,
                1 => Message::ToggleTheater,
                2 => Message::ToggleZoom,
                _ => Message::ToggleChapterSelect,
            };
            send(&mut app, message);
        }
    }
    assert!(!app.fullscreen && !app.theater_mode && !app.zoom_active && !app.show_chapter_select);
    assert_eq!(send(&mut app, Message::ToggleTheater), list(&["settings"]));
    assert!(app.settings.theater_mode);
}

#[test]
fn the_drawer_opens_and_closes() {
    let mut app = start();
    app.show_chapter_select = true;
    assert_eq!(send(&mut app, Message::ToggleSettings), list(&["drawer true"]));
    assert!(app.show_chapter_select);
    assert_eq!(send(&mut app, Message::ToggleInfo), list(&["drawer true"]));
    assert!(!app.show_chapter_select);
    assert_eq!(send(&mut app, Message::ToggleInfo), list(&["drawer false"]));
    send(&mut app, Message::ToggleInfo);
    assert_eq!(send(&mut app, Message::CloseContext), list(&["drawer false"]));
    assert!(!app.show_context);
}

#[test]
fn gestures_zoom() {
    let mut app = reader(&[4]);
    assert_eq!(send(&mut app, Message::ZoomBootstrapWheel), list(&[]));
    send(&mut app, Message::ModifiersChanged(true));
    assert_eq!(send(&mut app, Message::ZoomBootstrapWheel), list(&["zoom"]));
    assert_eq!(send(&mut app, Message::ZoomBootstrap), list(&[]));
    app.zoom_active = false;
    assert_eq!(send(&mut app, Message::ZoomBootstrap), list(&["zoom"]));
    app.zoom_active = false;
    assert_eq!(send(&mut app, Message::Touch(TouchEvent::Pressed(1))), list(&[]));
    assert_eq!(send(&mut app, Message::Touch(TouchEvent::Moved)), list(&[]));
    assert_eq!(send(&mut app, Message::Touch(TouchEvent::Pressed(2))), list(&["zoom"]));
    assert!(app.zoom_active);
    send(&mut app, Message::Touch(TouchEvent::Lifted(1)));
    send(&mut app, Message::Touch(TouchEvent::Lost(2)));
    assert!(app.touches.is_empty());
    app.sources.clear();
    app.zoom_active = false;
    assert_eq!(send(&mut app, Message::ZoomBootstrap), list(&[]));
}

#[test]
fn chosen_addresses_are_opened() {
    let mut app = start();
    let done = send(&mut app, Message::PathSelected("file:///c/a%20b.cbz".to_string()));
    assert_eq!(done, list(&["comic /c/a b.cbz"]));
    assert_eq!((app.app_view, app.loading), (AppView::Reader, true));
    send(&mut app, Message::PathSelected("https://example.org/x".to_string()));
    assert_eq!(app.error.as_deref(), Some("unsupported scheme: https"));
    send(&mut app, Message::PathSelected("file://host/x".to_string()));
    assert_eq!(app.error.as_deref(), Some("invalid file path: file://host/x"));
    send(&mut app, Message::LibraryFolderSelected("file://host/x".to_string()));
    assert_eq!(app.error.as_deref(), Some("invalid folder path: file://host/x"));
    send(&mut app, Message::PathSelected("nonsense".to_string()));
    assert_eq!(app.error.as_deref(), Some("invalid file path: nonsense"));
}

#[test]
fn what_is_dropped_is_opened() {
    let mut app = start();
    assert_eq!(send(&mut app, Message::FilesDropped(vec![])), list(&[]));
    let done = send(&mut app, Message::FilesDropped(list(&["/a.epub", "/b.cbz"])));
    assert_eq!(done, list(&["epub /a.epub"]));
    let data = b"file:///c/x.cbz\r\n".to_vec();
    let done = send(&mut app, Message::DndDataReceived("text/uri-list".to_string(), data.clone()));
    assert_eq!(done, list(&["comic /c/x.cbz"]));
    assert_eq!(send(&mut app, Message::DndDataReceived("text/plain".to_string(), data)), list(&[]));
}

#[test]
fn library_folders_come_and_go() {
    let mut app = start();
    let done = send(&mut app, Message::LibraryFolderSelected("file:///lib".to_string()));
    assert_eq!(done, list(&["add /lib", "scan /lib"]));
    send(&mut app, Message::LibraryFolderSelected("file:///lib/".to_string()));
    assert_eq!(app.library_dirs, list(&["/lib"]));
    send(&mut app, Message::LibraryPathInputChanged("  ~/Comics ".to_string()));
    assert_eq!(app.typed_folder(Some("/home/me")).as_deref(), Some("/home/me/Comics"));
    let home = || Some("/home/me".to_string());
    send(&mut app, Message::LibraryPathInputSubmitted { home: home(), is_dir: false });
    assert_eq!(app.error.as_deref(), Some("not a folder: /home/me/Comics"));
    let done = send(&mut app, Message::LibraryPathInputSubmitted { home: home(), is_dir: true });
    assert_eq!(done, list(&["add /home/me/Comics", "scan /home/me/Comics"]));
    assert_eq!((app.library_path_input.as_str(), app.library_dirs.len()), ("", 2));
    assert_eq!(
        send(&mut app, Message::LibraryPathInputSubmitted { home: None, is_dir: true }),
        list(&[])
    );
    let done = send(&mut app, Message::RemoveLibraryFolder("/lib/.".to_string()));
    assert_eq!(done, list(&["remove /lib/.", "query None"]));
    assert_eq!(app.library_dirs, list(&["/home/me/Comics"]));
}

#[test]
fn the_library_is_listed() {
    let mut app = start();
    assert_eq!(
        send(&mut app, Message::LibrarySearchChanged("sa".to_string())),
        list(&["query Some(\"sa\")"])
    );
    app.library_covers.insert(2);
    let entries = vec![entry(1, "/a"), entry(2, "/b"), entry(3, "/c")];
    let done = send(&mut app, Message::LibraryListed { entries, on_disk: vec![true, true] });
    assert_eq!(done, list(&["load cover 1"]));
    assert_eq!(app.library_entries.len(), 3);
    let done = send(&mut app, Message::LibraryCoverReady { series_id: 1, path: "/x.png".to_string() });
    assert_eq!(done, list(&["use cover 1 /x.png"]));
    assert!(app.has_cover(1) && !app.has_cover(3));
    let done = send(&mut app, Message::GoToLibrary);
    assert_eq!(done, list(&["header Cosmic Comic — Library", "query Some(\"sa\")"]));
    app.has_db = false;
    assert_eq!(send(&mut app, Message::LibraryScanCoverDone), list(&[]));
}

#[test]
fn scans_are_registered() {
    let mut app = start();
    let outcome = |first: Option<PageSource>, cover: Option<Vec<u8>>| {
        Ok(ScanOutcome {
            path: "/s".to_string(),
            title: "S".to_string(),
            count: 3,
            is_series: true,
            first_page: first,
            epub_cover: cover,
        })
    };
    let mut scan = |outcome, cover_exists| {
        send(&mut app, Message::LibraryEntryScanned { outcome, cover_exists })
    };
    assert_eq!(scan(outcome(Some(page(0)), None), false), list(&["upsert /s S 3 true", "make /c/0.png /s"]));
    assert_eq!(
        scan(outcome(Some(page(0)), Some(vec![1])), false),
        list(&["upsert /s S 3 true", "make [1] /s"])
    );
    assert_eq!(scan(outcome(None, None), false), list(&["upsert /s S 3 true", "query None"]));
    assert_eq!(scan(outcome(Some(page(0)), None), true), list(&["upsert /s S 3 true", "query None"]));
    assert_eq!(scan(Err("no".to_string()), false), list(&[]));
}

#[test]
fn what_is_looked_up_arrives() {
    let mut app = reader(&[2]);
    let meta = SeriesMetadata {
        title: "T".to_string(),
        description: String::new(),
        status: String::new(),
        genres: vec![],
        chapter_count: None,
        score: None,
        url: None,
    };
    assert_eq!(send(&mut app, Message::MetadataLoaded(Ok(meta))), list(&["metadata /c/Saga 003"]));
    assert!(app.metadata.is_some() && !app.metadata_loading);
    assert_eq!(send(&mut app, Message::MetadataLoaded(Err("no".to_string()))), list(&[]));
    assert!(app.metadata.is_some());
    let found = ComicVineMatch {
        name: "N".to_string(),
        volume: None,
        issue_number: None,
        cover_date: None,
        description: None,
        site_url: None,
        cover_url: Some("https://u".to_string()),
    };
    assert_eq!(send(&mut app, Message::ComicVineLoaded(Ok(found))), list(&["vine cover https://u"]));
    assert!(!app.comicvine_loading && !app.comicvine_cover);
    send(&mut app, Message::ComicVineCoverReady(false));
    assert!(!app.comicvine_cover);
    send(&mut app, Message::ComicVineCoverReady(true));
    assert!(app.comicvine_cover);
    assert_eq!(send(&mut app, Message::ComicVineLoaded(Err("no".to_string()))), list(&[]));
    assert!(matches!(app.comicvine, Some(Err(ref e)) if e == "no"));
}

#[test]
fn preferences_are_saved() {
    let mut app = start();
    assert_eq!(send(&mut app, Message::SetBackground(1)), list(&["settings"]));
    assert_eq!(app.settings.background, Background::Black);
    assert!(app.backdrop_is_black());
    assert_eq!(send(&mut app, Message::SetBackground(0)), list(&["settings"]));
    assert_eq!(send(&mut app, Message::SetBackground(2)), list(&[]));
    assert_eq!(app.settings.background, Background::Theme);
    assert!(!app.backdrop_is_black());
    assert_eq!(send(&mut app, Message::SetFetchMetadata(false)), list(&["settings"]));
    assert!(!app.settings.fetch_metadata);
}

#[test]
fn loading_ends() {
    let mut app = start();
    app.loading = true;
    send(&mut app, Message::LoadFailed("why".to_string()));
    assert_eq!((app.loading, app.error.as_deref()), (false, Some("why")));
    app.loading = true;
    send(&mut app, Message::Cancelled);
    assert!(!app.loading);
    send(&mut app, Message::CopiedPage(Err("clipboard: no".to_string())));
    assert_eq!(app.error.as_deref(), Some("clipboard: no"));
    assert_eq!(send(&mut app, Message::CopiedPage(Ok(()))), list(&[]));
    assert_eq!(send(&mut app, Message::Redraw), list(&[]));
}

#[test]
fn dialogs_are_asked_for() {
    let mut app = start();
    assert_eq!(send(&mut app, Message::OpenFile), list(&["choose file"]));
    assert_eq!(send(&mut app, Message::OpenFolder), list(&["choose folder"]));
    assert_eq!(send(&mut app, Message::AddLibraryFolder), list(&["choose library"]));
    assert_eq!(send(&mut app, Message::GoToReader), list(&["header Cosmic Comic"]));
}

#[test]
fn chapters_off_the_pages_do_not_fit() {
    let ch = |start, page_count| ChapterInfo { name: String::new(), start, page_count };
    assert!(chapters_fit(&vec![ch(0, 2), ch(2, 0)], 2));
    assert!(!chapters_fit(&vec![ch(0, 2), ch(2, 1)], 2));
}

#[test]
fn every_page_belongs_to_one_chapter() {
    let mut app = reader(&[2, 0, 3]);
    let mut seen = Vec::new();
    for p in 0..5 {
        app.current_page = p;
        seen.push(app.current_chapter().unwrap());
    }
    assert_eq!(seen, vec![(0, 0), (0, 1), (2, 0), (2, 1), (2, 2)]);
    app.current_page = 5;
    assert_eq!(app.current_chapter(), None);
}
