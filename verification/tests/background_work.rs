use cosmic_comic::app::Action;
use cosmic_comic::comic::{Page, PageSource};
use cosmic_comic::comicinfo::parse;
use cosmic_comic::epub::{EpubBook, EpubChapter};
use cosmic_comic::metadata::parse_filename;
use cosmic_comic::tasks::{
    ask_comicvine, can_thumb, decode_cover, decode_permits, discover_library_entries,
    first_path_from_uri_list, is_epub_path, open_any, scan_comic, scan_epub, shellexpand_home,
    thumbnail, DirItem, THUMB_H, THUMB_W,
};
use std::io::Cursor;

fn png(width: u32, height: u32, shade: u8) -> Vec<u8> {
    let img = image::RgbaImage::from_pixel(width, height, image::Rgba([shade, shade, shade, 255]));
    let mut out = Cursor::new(Vec::new());
    img.write_to(&mut out, image::ImageFormat::Png).unwrap();
    out.into_inner()
}

#[test]
fn books_and_comics_are_opened_differently() {
    assert!(is_epub_path("/b/x.epub"));
    assert!(!is_epub_path("/b/x.cbz"));
    assert!(!is_epub_path("/"));
    assert!(matches!(open_any("/b/x.EPUB".to_string()), Action::OpenEpub(p) if p == "/b/x.EPUB"));
    assert!(matches!(open_any("/b/x".to_string()), Action::OpenComic(p) if p == "/b/x"));
}

#[test]
fn a_tilde_stands_for_home() {
    assert_eq!(shellexpand_home("~", Some("/home/me")), "/home/me");
    assert_eq!(shellexpand_home("~", None), "");
    assert_eq!(shellexpand_home("~/Comics", Some("/home/me")), "/home/me/Comics");
    assert_eq!(shellexpand_home("~/Comics", None), "~/Comics");
    assert_eq!(shellexpand_home("~you/Comics", Some("/home/me")), "~you/Comics");
    assert_eq!(shellexpand_home("/srv", Some("/home/me")), "/srv");
}

#[test]
fn the_first_file_of_a_list_is_taken() {
    let first = |s: &str| first_path_from_uri_list(s.as_bytes());
    assert_eq!(first("file:///c/My%20Comic.cbz\r\n").as_deref(), Some("/c/My Comic.cbz"));
    assert_eq!(first("# a comment\r\n\r\n  file:///a\r\nfile:///b").as_deref(), Some("/a"));
    assert_eq!(first("http://example.com/x\r\nfile:///a.cbz\r\n").as_deref(), Some("/a.cbz"));
    assert_eq!(first("http://localhost/x\r\nfile:///a").as_deref(), Some("/a"));
    assert_eq!(first("file://host/x\r\nfile:///a").as_deref(), Some("/a"));
    assert_eq!(first("https://example.org/a\r\n#file:///b"), None);
    assert_eq!(first("no address"), None);
    assert_eq!(first(""), None);
}

#[test]
fn what_can_be_opened_is_discovered() {
    let item = |path: &str, is_dir: bool| DirItem { path: path.to_string(), is_dir };
    let list = vec![
        item("/c/Series", true),
        item("/c/a.CBZ", false),
        item("/c/b.cbr", false),
        item("/c/b.rar", false),
        item("/c/b.zip", false),
        item("/c/d.ePub", false),
        item("/c/notes.txt", false),
        item("/c/cover.png", false),
    ];
    assert_eq!(discover_library_entries(&list), vec!["/c/Series", "/c/a.CBZ", "/c/b.cbr", "/c/d.ePub"]);
}

#[test]
fn scans_tell_what_they_found() {
    let pages = vec![
        PageSource::File("/c/s/1.png".to_string()),
        PageSource::File("/c/s/2.png".to_string()),
    ];
    let o = scan_comic("/c/My Series.cbz".to_string(), false, Ok((pages, vec![]))).unwrap();
    assert_eq!((o.path.as_str(), o.title.as_str(), o.count), ("/c/My Series.cbz", "My Series", 2));
    assert!(!o.is_series && o.epub_cover.is_none());
    assert!(matches!(o.first_page, Some(PageSource::File(p)) if p == "/c/s/1.png"));
    let o = scan_comic("/c/s".to_string(), true, Ok((vec![], vec![]))).unwrap();
    assert!(o.is_series && o.first_page.is_none());
    assert_eq!(scan_comic("/c".to_string(), true, Err("no".to_string())).err().unwrap(), "no");

    let book = EpubBook {
        title: "T".to_string(),
        author: None,
        cover: Some(vec![1, 2]),
        chapters: vec![EpubChapter { title: "One".to_string(), blocks: vec![] }],
    };
    let o = scan_epub("/b.epub".to_string(), Ok(book)).unwrap();
    assert_eq!((o.title.as_str(), o.count, o.epub_cover), ("T", 1, Some(vec![1, 2])));
    assert_eq!(scan_epub("/b.epub".to_string(), Err("bad".to_string())).err().unwrap(), "bad");
}

#[test]
fn covers_are_made() {
    let page = Page { width: 4, height: 2, rgba: vec![200; 32] };
    assert!(can_thumb(page.width, page.height));
    let thumb = thumbnail(page).unwrap();
    assert_eq!(thumb.len(), (4 * THUMB_W * THUMB_H) as usize);
    assert!(thumb.iter().all(|b| *b == 200));
    let short = Page { width: 4, height: 2, rgba: vec![200; 31] };
    assert_eq!(thumbnail(short).err().unwrap(), "bad rgba");
}

#[test]
fn the_cover_of_a_book_is_decoded() {
    let page = decode_cover(&png(5, 7, 9)).unwrap();
    assert_eq!((page.width, page.height, page.rgba[0]), (5, 7, 9));
    assert!(decode_cover(b"no").err().unwrap().starts_with("decode cover: "));
}

#[test]
fn half_of_the_cores_decode() {
    assert_eq!(decode_permits(1), 2);
    assert_eq!(decode_permits(4), 2);
    assert_eq!(decode_permits(16), 8);
}

#[test]
fn a_description_goes_before_the_file_name() {
    let parsed = parse_filename("Civil War 003 (2006).cbz");
    let ask = |xml: Option<&str>| match ask_comicvine(&xml.map(parse), &parsed) {
        Action::FetchComicVine { series, issue, year } => (series, issue, year),
        _ => panic!("something else was asked for"),
    };
    assert_eq!(ask(None), ("Civil War".to_string(), Some("3".to_string()), Some(2006)));
    assert_eq!(
        ask(Some("<Series>Saga</Series><Number>7</Number><Year>2012</Year>")),
        ("Saga".to_string(), Some("7".to_string()), Some(2012))
    );
    assert_eq!(
        ask(Some("<Series>Saga</Series>")),
        ("Saga".to_string(), Some("3".to_string()), Some(2006))
    );
    assert_eq!(
        ask(Some("<Number>7</Number>")),
        ("Civil War".to_string(), Some("3".to_string()), Some(2006))
    );
}
