use cosmic_comic::app::{App, AppView, ContextPage, Layout};
use cosmic_comic::comic::{ChapterInfo, PageSource};
use cosmic_comic::comicinfo::parse;
use cosmic_comic::comicvine::ComicVineMatch;
use cosmic_comic::epub::{Block, EpubBook, EpubChapter};
use cosmic_comic::library::{save_progress, upsert_series, SeriesEntry};
use cosmic_comic::metadata::{parse_filename, SeriesMetadata};
use cosmic_comic::panels::{build_epub_info_panel, Item, Panel, Press};
use cosmic_comic::screens::{
    build_epub_chapter_select, group_by_folder, render_epub_block, series_grid, Drawn, RightPage,
    Screen, Shelves,
};
use cosmic_comic::settings::{Background, Settings};

fn start() -> App {
    App::init(None, Settings::default(), vec![], true, true).0
}

fn comic(counts: &[usize]) -> App {
    let mut app = start();
    app.app_view = AppView::Reader;
    for (i, n) in counts.iter().enumerate() {
        app.chapters.push(ChapterInfo {
            name: format!("Name {i}"),
            start: app.sources.len(),
            page_count: *n,
        });
        for _ in 0..*n {
            app.sources.push(PageSource::File(String::new()));
        }
    }
    app
}

fn told(items: &[Item]) -> Vec<String> {
    items
        .iter()
        .map(|i| match i {
            Item::Title(t) => format!("title {t}"),
            Item::Text { text, size } => format!("{size} {text}"),
            Item::Label(t) => format!("label {t}"),
            Item::Icon { icon, press } => format!("{icon} {press:?}"),
            Item::Button { label, press } => format!("[{label}] {press:?}"),
            Item::Suggested { label, press } => format!("[[{label}]] {press:?}"),
            Item::Search(t) => format!("search {t}"),
            Item::Divider => "-".to_string(),
            Item::Spinner => "spinner".to_string(),
            Item::Cover => "cover".to_string(),
            Item::Scroll(t) => format!("scroll {t}"),
            Item::Section(t) => format!("section {t}"),
            Item::BackgroundChoice(i) => format!("background {i}"),
            Item::OpacitySlider => "opacity".to_string(),
            Item::Toggle { label, on, press } => format!("{label} {on} {press:?}"),
            Item::Folder(t) => format!("folder {t}"),
            Item::PathInput(t) => format!("path {t}"),
        })
        .collect()
}

fn book(chapters: usize) -> EpubBook {
    EpubBook {
        title: "B".to_string(),
        author: Some("A".to_string()),
        cover: Some(vec![1]),
        chapters: (0..chapters)
            .map(|i| EpubChapter { title: format!("T{i}"), blocks: vec![] })
            .collect(),
    }
}

fn entry(id: i64, path: &str, page: usize) -> SeriesEntry {
    let mut e = save_progress(upsert_series(None, path, "Title", 9, false, 0), page, 2);
    e.id = id;
    e
}

#[test]
fn the_header_of_the_library() {
    let mut app = start();
    app.library_search = "x".to_string();
    assert_eq!(told(&app.header_start()), Vec::<String>::new());
    assert_eq!(
        told(&app.header_end()),
        vec![
            "search x",
            "[Open File] OpenFile",
            "[Add Series] OpenFolder",
            "[[Add Library Folder]] AddLibraryFolder",
            "emblem-system-symbolic ToggleSettings",
        ]
    );
}

#[test]
fn the_header_of_a_comic() {
    let mut app = comic(&[2, 3]);
    app.current_page = 3;
    app.fullscreen = true;
    assert_eq!(told(&app.header_start()), vec!["go-home-symbolic GoToLibrary"]);
    assert_eq!(
        told(&app.header_end()),
        vec![
            "go-previous-symbolic PrevPage",
            "label Ch.2  ·  2 / 3",
            "go-next-symbolic NextPage",
            "-",
            "view-list-symbolic ToggleChapterSelect",
            "view-dual-symbolic ToggleLayout",
            "zoom-in-symbolic ToggleZoom",
            "edit-copy-symbolic CopyPage",
            "-",
            "zoom-fit-best-symbolic FitPage",
            "dialog-information-symbolic ToggleInfo",
            "view-restore-symbolic ToggleFullscreen",
            "emblem-system-symbolic ToggleSettings",
            "-",
            "document-open-symbolic OpenFile",
        ]
    );
    let single = comic(&[4]);
    assert_eq!(told(&single.header_end())[1], "label 1 / 4");
    assert_eq!(told(&single.header_end())[4], "view-dual-symbolic ToggleLayout");
    let mut off = comic(&[4]);
    off.current_page = 9;
    assert_eq!(told(&off.header_end())[1], "label 10 / 4");
    assert_eq!(comic(&[]).header_end().len(), 6);
}

#[test]
fn the_header_of_a_book() {
    let mut app = comic(&[]);
    app.epub_book = Some(book(3));
    app.epub_chapter = 1;
    let items = told(&app.header_end());
    assert_eq!(items[1], "label Chapter 2 / 3");
    assert_eq!(items[4], "[Chapters] ToggleChapterSelect");
    app.show_chapter_select = true;
    assert_eq!(told(&app.header_end())[4], "[Chapters ▾] ToggleChapterSelect");
    app.epub_book = Some(book(1));
    assert_eq!(told(&app.header_end())[4], "zoom-fit-best-symbolic FitPage");
}

#[test]
fn the_drawer_shows_a_panel() {
    let mut app = comic(&[1]);
    assert_eq!(app.context_drawer(), None);
    app.show_context = true;
    assert_eq!(app.context_drawer(), Some(Panel::Settings));
    app.context_page = ContextPage::Info;
    assert_eq!(app.context_drawer(), Some(Panel::ComicInfo));
    app.epub_book = Some(book(1));
    assert_eq!(app.context_drawer(), Some(Panel::BookInfo));
    assert_eq!((Panel::Settings.title(), Panel::BookInfo.title()), ("Settings", "Details"));
    assert_eq!(Panel::ComicInfo.title(), "Details");
}

#[test]
fn the_details_of_a_comic() {
    let mut app = comic(&[2, 3]);
    app.current_page = 4;
    app.comic_info = Some(parse("<Series>S</Series><Year>-3</Year>"));
    app.parsed_filename = Some(parse_filename("Saga (2012).cbz"));
    app.metadata = Some(SeriesMetadata {
        title: "M".to_string(),
        description: "About".to_string(),
        status: "DONE".to_string(),
        genres: vec!["a".to_string(), "b".to_string()],
        chapter_count: Some(5),
        score: Some(70),
        url: None,
    });
    app.comicvine = Some(Ok(ComicVineMatch {
        name: "V".to_string(),
        volume: Some("vol".to_string()),
        issue_number: Some("4".to_string()),
        cover_date: Some("2012".to_string()),
        description: Some("d".repeat(201)),
        site_url: Some("u".to_string()),
        cover_url: None,
    }));
    app.comicvine_cover = true;
    assert_eq!(
        told(&app.build_info_panel()),
        vec![
            "title Chapter 2 — Name 1".to_string(),
            "13 Page 3 of 3".to_string(),
            "-".to_string(),
            "title ComicInfo.xml".to_string(),
            "12 Series: S".to_string(),
            "12 Year: -3".to_string(),
            "-".to_string(),
            "title Debug: Metadata Matching".to_string(),
            "12 Parsed series: Saga".to_string(),
            "12 Parsed issue: —".to_string(),
            "12 Parsed year: 2012".to_string(),
            "-".to_string(),
            "title AniList (manga/anime)".to_string(),
            "13 M".to_string(),
            "12 Status: DONE".to_string(),
            "12 Chapters: 5".to_string(),
            "12 Score: 70/100".to_string(),
            "12 Genres: a, b".to_string(),
            "-".to_string(),
            "title ComicVine (Western comics)".to_string(),
            "cover".to_string(),
            "13 V".to_string(),
            "12 Volume: vol".to_string(),
            "12 Issue #: 4".to_string(),
            "12 Cover date: 2012".to_string(),
            format!("12 {}…", "d".repeat(200)),
            "11 u".to_string(),
            "-".to_string(),
            "title Synopsis".to_string(),
            "scroll About".to_string(),
        ]
    );
}

#[test]
fn the_details_while_nothing_is_known() {
    let mut app = comic(&[1]);
    app.metadata_loading = true;
    app.comicvine = Some(Err("no key".to_string()));
    assert_eq!(
        told(&app.build_info_panel()),
        vec![
            "title Name 0", "13 Page 1 of 1", "-", "title Debug: Metadata Matching", "-",
            "title AniList (manga/anime)", "12 Fetching…", "spinner", "-",
            "title ComicVine (Western comics)", "12 no key",
        ]
    );
    app.metadata_loading = false;
    app.comicvine = None;
    app.current_page = 5;
    assert_eq!(
        told(&app.build_info_panel()),
        vec![
            "title Debug: Metadata Matching", "-", "title AniList (manga/anime)", "12 No match.", "-",
            "title ComicVine (Western comics)", "12 No match.",
        ]
    );
    app.comicvine_loading = true;
    assert_eq!(told(&app.build_info_panel())[6..].to_vec(), vec!["12 Fetching…", "spinner"]);
}

#[test]
fn the_details_of_a_book() {
    assert_eq!(
        told(&build_epub_info_panel(&book(2), 1)),
        vec!["cover", "title B", "13 A", "-", "13 Chapter 2 of 2", "13 T1"]
    );
    let mut plain = book(0);
    plain.cover = None;
    plain.author = None;
    assert_eq!(told(&build_epub_info_panel(&plain, 0)), vec!["title B", "-"]);
}

#[test]
fn the_settings() {
    let mut app = start();
    app.settings.background = Background::Black;
    app.layout = Layout::Dual;
    assert_eq!(
        told(&app.build_settings_panel()),
        vec![
            "section Appearance",
            "background 1",
            "opacity",
            "Theater mode false ToggleTheater",
            "section Reading",
            "Two-page spread true ToggleLayout",
            "Look up metadata online true ToggleFetch",
            "section Library folders",
            "12 No library folders yet. Add one to have its comics scanned in automatically.",
            "path ",
            "[Add] SubmitPath",
            "[Browse…] AddLibraryFolder",
        ]
    );
    app.library_dirs = vec!["/a".to_string(), "/b".to_string()];
    let items = told(&app.build_settings_panel());
    assert_eq!(items[8..10].to_vec(), vec!["folder /a", "folder /b"]);
    assert_eq!(format!("{:?}", Press::SubmitPath), "SubmitPath");
}

#[test]
fn the_reader_shows_pages() {
    let mut app = comic(&[4]);
    assert_eq!(app.view_reader(), Screen::Decoding(None));
    app.cache.insert(2);
    assert_eq!(app.view_reader(), Screen::Decoding(Some(2)));
    app.current_page = 2;
    assert_eq!(app.view_reader(), Screen::Single(2));
    app.layout = Layout::Dual;
    assert_eq!(app.view_reader(), Screen::Spread { left: 2, right: RightPage::Waiting });
    app.cache.insert(3);
    assert_eq!(app.view_reader(), Screen::Spread { left: 2, right: RightPage::Page(3) });
    app.current_page = 3;
    assert_eq!(app.view_reader(), Screen::Spread { left: 3, right: RightPage::Nothing });
    app.zoom_active = true;
    assert_eq!(app.view_reader(), Screen::Zoomed(3));
    app.epub_book = Some(book(2));
    app.epub_chapter = 1;
    assert_eq!(app.view_reader(), Screen::Book(Some(1)));
    app.epub_chapter = 2;
    assert_eq!(app.view_reader(), Screen::Book(None));
    let mut none = comic(&[]);
    assert_eq!(none.view_reader(), Screen::Empty);
    none.loading = true;
    assert_eq!(none.view_reader(), Screen::Loading);
}

#[test]
fn the_list_of_chapters() {
    let mut app = comic(&[1, 2]);
    app.chapters[0].name = "n".repeat(31);
    app.chapter_covers.insert(0);
    app.current_page = 1;
    let rows = app.build_chapter_select();
    assert_eq!(rows[0].number, "Chapter 1");
    assert_eq!(rows[0].name, format!("{}…", "n".repeat(28)));
    assert_eq!((rows[0].pages.as_str(), rows[0].size), ("1 pages", 13));
    assert!(rows[0].has_cover && !rows[0].current);
    assert_eq!((rows[1].name.as_str(), rows[1].size), ("Name 1", 14));
    assert!(!rows[1].has_cover && rows[1].current);
    let rows = build_epub_chapter_select(&book(2), 0);
    assert_eq!((rows[0].title.as_str(), rows[0].size, rows[0].current), ("T0", 14, true));
    assert_eq!((rows[1].title.as_str(), rows[1].size, rows[1].current), ("T1", 13, false));
}

#[test]
fn blocks_are_drawn() {
    let draw = |b: Block| match render_epub_block(&b) {
        Drawn::Text { text, size, quoted } => format!("{size} {quoted} {text}"),
        Drawn::Image => "image".to_string(),
    };
    let sizes: Vec<String> = (1..=7).map(|l| draw(Block::Heading(l, "h".to_string()))).collect();
    assert_eq!(
        sizes,
        vec!["28 false h", "24 false h", "20 false h", "18 false h", "16 false h", "15 false h", "15 false h"]
    );
    assert_eq!(draw(Block::Paragraph("p".to_string())), "16 false p");
    assert_eq!(draw(Block::Quote("q".to_string())), "15 true q");
    assert_eq!(draw(Block::ListItem("l".to_string())), "16 false •  l");
    assert_eq!(draw(Block::Image(vec![1])), "image");
}

#[test]
fn the_library_shows_what_was_begun() {
    let mut app = start();
    assert!(matches!(app.view_library().shelves, Shelves::Nothing));
    for i in 0..12 {
        app.library_entries.push(entry(i, "/x", if i == 1 { 0 } else { 3 }));
    }
    let screen = app.view_library();
    assert_eq!(screen.recent, vec![0, 2, 3, 4, 5, 6, 7, 8]);
    assert!(matches!(screen.shelves, Shelves::Together));
    app.library_dirs.push("/x".to_string());
    assert!(matches!(app.view_library().shelves, Shelves::Grouped(g) if g.len() == 1));
}

#[test]
fn series_stand_on_the_shelf_of_their_folder() {
    let paths = ["/a/1.cbz", "/b/sub/2", "/a/3", "/elsewhere/4", "/ab/5"];
    let entries: Vec<SeriesEntry> =
        paths.iter().enumerate().map(|(i, p)| entry(i as i64, p, 0)).collect();
    let dirs = vec!["/b".to_string(), "/empty".to_string(), "/a".to_string(), "/".to_string()];
    let groups = group_by_folder(&entries, &dirs[..3].to_vec());
    let list: Vec<(&str, Vec<usize>)> =
        groups.iter().map(|g| (g.title.as_str(), g.entries.clone())).collect();
    assert_eq!(list, vec![("b", vec![1]), ("a", vec![0, 2]), ("Library", vec![3, 4])]);
    let groups = group_by_folder(&entries, &dirs);
    assert_eq!(groups.len(), 3);
    assert_eq!(groups[2].title, "/");
    let mut all: Vec<usize> = groups.iter().flat_map(|g| g.entries.clone()).collect();
    all.sort();
    assert_eq!(all, vec![0, 1, 2, 3, 4]);
}

#[test]
fn a_grid_has_five_columns() {
    let places: Vec<usize> = (0..12).collect();
    let rows = series_grid(&places);
    assert_eq!(rows, places.chunks(5).map(|c| c.to_vec()).collect::<Vec<_>>());
    assert_eq!(rows.concat(), places);
    assert_eq!(series_grid(&(0..5).collect()).len(), 1);
    assert_eq!(series_grid(&vec![]), Vec::<Vec<usize>>::new());
}

#[test]
fn cards_tell_where_a_series_was_left() {
    let mut app = start();
    app.library_covers.insert(1);
    let mut e = entry(1, "/x", 3);
    e.title = "t".repeat(23);
    let card = app.series_card(&e, true);
    assert_eq!(card.title, format!("{}…", "t".repeat(20)));
    assert_eq!(card.progress.as_deref(), Some("P.4"));
    assert!(card.has_cover);
    e.is_series = true;
    e.id = 2;
    let card = app.series_card(&e, true);
    assert_eq!(card.progress.as_deref(), Some("Ch.3"));
    assert!(!card.has_cover);
    assert_eq!(app.series_card(&e, false).progress, None);
    e.total_pages = 0;
    assert_eq!(app.series_card(&e, true).progress, None);
}
