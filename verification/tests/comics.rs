use cosmic_comic::comic::{
    collect_sources, comic_info_candidates, decode_image, decode_source, display_name,
    extracted_path, find_comic_info, find_sources, is_archive_name, is_image_name, is_rar_name,
    is_zip_name, listing_error, pages_of_source, rar_cache_dir, reusable_names, ArchiveEvent, ChapterInfo, ExtractAction,
    Extraction, FileItem, Folder, Found, InfoLook, InfoPlace, PageSource, RarManifest, ReadError,
    Source, SourceKind,
};
use cosmic_comic::library::path_hash;
use std::io::Cursor;

fn names(list: &[&str]) -> Vec<String> {
    list.iter().map(|s| s.to_string()).collect()
}

fn file(name: &str, listing: &[&str]) -> FileItem {
    FileItem { name: name.to_string(), listing: Ok(names(listing)) }
}

fn folder(path: &str, files: Vec<FileItem>, subdirs: Vec<Folder>) -> Folder {
    Folder { path: path.to_string(), files, subdirs }
}

fn shown(p: &PageSource) -> String {
    match p {
        PageSource::File(path) => path.clone(),
        PageSource::Zip { archive, entry } => format!("{archive}!{entry}"),
    }
}

fn pages(v: &[PageSource]) -> Vec<String> {
    v.iter().map(shown).collect()
}

fn chapters(v: &[ChapterInfo]) -> Vec<(&str, usize, usize)> {
    v.iter().map(|c| (c.name.as_str(), c.start, c.page_count)).collect()
}

fn png(width: u32, height: u32) -> Vec<u8> {
    let img = image::RgbaImage::from_pixel(width, height, image::Rgba([10, 20, 30, 255]));
    let mut out = Cursor::new(Vec::new());
    img.write_to(&mut out, image::ImageFormat::Png).unwrap();
    out.into_inner()
}

#[test]
fn names_tell_what_a_file_is() {
    for n in ["a.png", "A.JPG", "b.jpeg", "c.Gif", "d.webp", "e.BMP"] {
        assert!(is_image_name(n), "{n}");
    }
    assert!(!is_image_name("a.txt"));
    assert!(is_zip_name("x.CBZ") && is_zip_name("x.zip") && !is_zip_name("x.cbr"));
    assert!(is_rar_name("x.cbr") && is_rar_name("x.RAR") && !is_rar_name("x.cbz"));
    assert!(is_archive_name("x.cbz") && is_archive_name("x.cbr") && !is_archive_name("x.epub"));
    assert_eq!(display_name("Ch 1.cbz"), "Ch 1");
    assert_eq!(display_name(".."), "..");
}

#[test]
fn a_zip_archive_is_one_chapter() {
    let listing = names(&["p10.png", "p2.jpg", "notes.txt", "dir.png/", "ComicInfo.xml"]);
    let found = Found::File(Ok(listing));
    let (p, c) = collect_sources("/c/Saga 1.cbz", &found, "/cache").unwrap();
    assert_eq!(pages(&p), vec!["/c/Saga 1.cbz!p2.jpg", "/c/Saga 1.cbz!p10.png"]);
    assert_eq!(chapters(&c), vec![("Saga 1", 0, 2)]);
}

#[test]
fn a_rar_archive_is_read_from_the_cache() {
    let found = Found::File(Ok(names(&["p10.png", "p2.png"])));
    let (p, c) = collect_sources("/c/Saga.cbr", &found, "/cache").unwrap();
    let dir = format!("/cache/rar-cache/{}", path_hash("/c/Saga.cbr"));
    assert_eq!(rar_cache_dir("/cache", "/c/Saga.cbr"), dir);
    assert_eq!(extracted_path(&dir, 7), format!("{dir}/00007"));
    assert_eq!(pages(&p), vec![format!("{dir}/00001"), format!("{dir}/00000")]);
    assert_eq!(chapters(&c), vec![("Saga", 0, 2)]);
}

#[test]
fn a_folder_is_a_series_of_chapters() {
    let root = folder(
        "/s",
        vec![
            file("Ch 10.cbz", &["1.png"]),
            file("Ch 2.cbr", &["a.png", "b.png"]),
            file("cover.jpg", &[]),
            file("notes.txt", &[]),
        ],
        vec![folder("/s/Ch 3", vec![file("2.png", &[]), file("1.png", &[])], vec![])],
    );
    let (p, c) = collect_sources("/s", &Found::Dir(root), "/cache").unwrap();
    let dir = rar_cache_dir("/cache", "/s/Ch 2.cbr");
    assert_eq!(
        pages(&p),
        vec![
            format!("{dir}/00000"),
            format!("{dir}/00001"),
            "/s/Ch 3/1.png".to_string(),
            "/s/Ch 3/2.png".to_string(),
            "/s/Ch 10.cbz!1.png".to_string(),
            "/s/cover.jpg".to_string(),
        ]
    );
    assert_eq!(chapters(&c), vec![("Ch 2", 0, 2), ("Ch 3", 2, 2), ("Ch 10", 4, 1), ("s", 5, 1)]);
}

#[test]
fn chapters_divide_the_pages() {
    let root = folder(
        "/s",
        vec![file("a.cbz", &["1.png", "2.png"]), file("b.cbz", &[]), file("c.cbz", &["1.png"])],
        vec![],
    );
    let (p, c) = collect_sources("/s", &Found::Dir(root), "/cache").unwrap();
    let mut next = 0;
    for ch in &c {
        assert_eq!(ch.start, next);
        next += ch.page_count;
    }
    assert_eq!(next, p.len());
}

#[test]
fn sources_are_found_depth_first() {
    let root = folder(
        "/s",
        vec![file("x.cbz", &[]), file("i.png", &[])],
        vec![
            folder("/s/a", vec![file("y.rar", &[])], vec![folder("/s/a/b", vec![file("j.gif", &[])], vec![])]),
            folder("/s/c", vec![file("z.zip", &[])], vec![]),
        ],
    );
    let mut sources: Vec<(String, Source)> = Vec::new();
    find_sources(&root, &mut sources);
    let list: Vec<(&str, SourceKind, &str)> =
        sources.iter().map(|(n, s)| (n.as_str(), s.kind, s.path.as_str())).collect();
    assert_eq!(
        list,
        vec![
            ("x.cbz", SourceKind::Zip, "/s/x.cbz"),
            ("s", SourceKind::ImageDir, "/s"),
            ("y.rar", SourceKind::Rar, "/s/a/y.rar"),
            ("b", SourceKind::ImageDir, "/s/a/b"),
            ("z.zip", SourceKind::Zip, "/s/c/z.zip"),
        ]
    );
}

#[test]
fn what_has_no_pages_is_an_error() {
    let err = |path: &str, found: Found| collect_sources(path, &found, "/cache").err().unwrap();
    assert_eq!(err("/c/x.cbz", Found::File(Ok(names(&["a.txt"])))), "no image pages found in /c/x.cbz");
    assert_eq!(err("/c/x.cbz", Found::File(Err("broken".to_string()))), "broken");
    assert_eq!(err("/c/x", Found::Neither), "/c/x is neither a file nor a directory");
    assert_eq!(
        err("/c", Found::Dir(folder("/c", vec![file("a.txt", &[])], vec![]))),
        "no comic chapters or images found under /c"
    );
}

#[test]
fn the_first_chapter_that_cannot_be_listed_decides() {
    let bad = |name: &str, why: &str| FileItem { name: name.to_string(), listing: Err(why.to_string()) };
    let root = folder(
        "/c",
        vec![bad("z.cbz", "last"), file("a.cbz", &["1.png"]), bad("b.cbz", "first")],
        vec![],
    );
    assert_eq!(collect_sources("/c", &Found::Dir(root), "/cache").err().unwrap(), "first");
}

#[test]
fn an_unpacked_archive_is_used_again_while_it_is_whole() {
    let m = || RarManifest { size: 10, mtime: 20, names: names(&["a", "b"]) };
    assert_eq!(reusable_names(m(), 10, 20, &vec![true, true]), Some(names(&["a", "b"])));
    assert_eq!(reusable_names(m(), 11, 20, &vec![true, true]), None);
    assert_eq!(reusable_names(m(), 10, 21, &vec![true, true]), None);
    assert_eq!(reusable_names(m(), 10, 20, &vec![true, false]), None);
    assert_eq!(reusable_names(m(), 10, 20, &vec![true]), None);
}

#[test]
fn unpacking_writes_the_images() {
    let entry = |name: &str, chunks: &[&[u8]]| {
        let mut v = vec![ArchiveEvent::Start(name.to_string())];
        for c in chunks {
            v.push(ArchiveEvent::Data(c.to_vec()));
        }
        v.push(ArchiveEvent::End);
        v
    };
    let mut events = entry("b.png", &[b"12", b"3"]);
    events.extend(entry("readme.txt", &[b"no"]));
    events.extend(entry("comicinfo.XML", &[b"<a/>"]));
    events.extend(entry("x/ComicInfo.xml", &[b"<b/>"]));
    events.extend(entry("xComicInfo.xml", &[b"<c/>"]));
    events.extend(entry("a.jpg", &[]));
    let mut e = Extraction::new();
    let mut written = Vec::new();
    let mut info = None;
    for event in events {
        match e.step(event) {
            ExtractAction::Proceed => {}
            ExtractAction::WritePage { index, data } => written.push((index, data)),
            ExtractAction::WriteComicInfo(data) => info = Some(data),
            ExtractAction::Fail(e) => panic!("{e}"),
        }
    }
    assert_eq!(written, vec![(0, b"123".to_vec()), (1, Vec::new())]);
    assert_eq!(info, Some(b"<a/>".to_vec()));
    assert_eq!(e.names, names(&["b.png", "a.jpg"]));
    match e.step(ArchiveEvent::Failed("bad header".to_string())) {
        ExtractAction::Fail(why) => assert_eq!(why, "archive error: bad header"),
        _ => panic!("an error was passed over"),
    }
}

#[test]
fn pages_are_decoded() {
    let page = decode_image("p.png", &png(3, 2)).unwrap();
    assert_eq!((page.width, page.height, page.rgba.len()), (3, 2, 24));
    assert_eq!(page.rgba[..4].to_vec(), vec![10, 20, 30, 255]);
    let zip = PageSource::Zip { archive: "/a.cbz".to_string(), entry: "p.png".to_string() };
    assert_eq!(decode_source(&zip, Ok(png(1, 1))).unwrap().width, 1);
    let why = decode_source(&zip, Ok(b"no picture".to_vec())).err().unwrap();
    assert!(why.starts_with("failed to decode page p.png: "));
    let plain = PageSource::File("/p.png".to_string());
    let why = decode_source(&plain, Ok(Vec::new())).err().unwrap();
    assert!(why.starts_with("failed to decode page /p.png: "));
}

#[test]
fn bytes_that_cannot_be_read_are_an_error() {
    let zip = PageSource::Zip { archive: "/a.cbz".to_string(), entry: "p.png".to_string() };
    let plain = PageSource::File("/p.png".to_string());
    let why = |s: &PageSource, e: ReadError| decode_source(s, Err(e)).err().unwrap();
    assert_eq!(why(&plain, ReadError::Open("gone".to_string())), "failed to read /p.png: gone");
    assert_eq!(why(&zip, ReadError::Open("gone".to_string())), "failed to open /a.cbz: gone");
    assert_eq!(why(&zip, ReadError::Archive("bad".to_string())), "failed to read zip /a.cbz: bad");
    assert_eq!(why(&zip, ReadError::Entry("no".to_string())), "entry p.png not found: no");
    assert_eq!(why(&zip, ReadError::Data("crc".to_string())), "failed to read entry p.png: crc");
    assert_eq!(listing_error("/a.cbz", ReadError::Open("gone".to_string())), "failed to open /a.cbz: gone");
    let why = listing_error("/a.cbz", ReadError::Archive("bad".to_string()));
    assert_eq!(why, "failed to read zip /a.cbz: bad");
}

#[test]
fn a_description_is_looked_for() {
    assert_eq!(
        comic_info_candidates("/s"),
        names(&["/s/ComicInfo.xml", "/s/comicinfo.xml", "/s/COMICINFO.XML"])
    );
    let at = |p: InfoPlace| match p {
        InfoPlace::Nowhere => "nowhere".to_string(),
        InfoPlace::File(f) => f,
        InfoPlace::ZipEntry(i) => format!("#{i}"),
    };
    let dir = |present: [bool; 3]| at(find_comic_info("/s", &InfoLook::Dir(present), "/cache"));
    assert_eq!(dir([false, true, true]), "/s/comicinfo.xml");
    assert_eq!(dir([false, false, false]), "nowhere");
    let look = |path: &str, unpacked: bool| {
        let zip_names = names(&["a.png", "x/COMICINFO.xml", "ComicInfo.xml"]);
        at(find_comic_info(path, &InfoLook::File { zip_names, unpacked }, "/cache"))
    };
    assert_eq!(look("/c/a.cbz", false), "#2");
    let nested = InfoLook::File { zip_names: names(&["extras/ComicInfo.xml"]), unpacked: false };
    assert_eq!(at(find_comic_info("/c/a.cbz", &nested, "/cache")), "nowhere");
    assert_eq!(look("/c/a.cbr", false), "nowhere");
    assert_eq!(look("/c/a.cbr", true), format!("{}/ComicInfo.xml", rar_cache_dir("/cache", "/c/a.cbr")));
    assert_eq!(look("/c/a.txt", true), "nowhere");
    assert_eq!(look("/", true), "nowhere");
}

#[test]
fn the_pages_of_a_source_are_its_images() {
    let listing = names(&["b.txt", "p3.png", "p20.PNG", "p1.webp", "ComicInfo.xml"]);
    let source = Source { kind: SourceKind::ImageDir, path: "/c/ch".to_string(), listing: Ok(listing) };
    let p = pages_of_source(&source, "/cache").unwrap();
    assert_eq!(pages(&p), vec!["/c/ch/p1.webp", "/c/ch/p3.png", "/c/ch/p20.PNG"]);
}

#[test]
fn an_archive_that_was_unpacked_is_used_again() {
    let mut e = Extraction::new();
    for name in ["b.png", "a.txt", "a.png"] {
        e.step(ArchiveEvent::Start(name.to_string()));
        e.step(ArchiveEvent::Data(vec![1]));
        e.step(ArchiveEvent::End);
    }
    let kept = e.finish(10, 20);
    assert_eq!((kept.size, kept.mtime), (10, 20));
    assert_eq!(kept.names, names(&["b.png", "a.png"]));
    let first = Found::File(Ok(kept.names.clone()));
    let again = Found::File(Ok(reusable_names(kept, 10, 20, &vec![true, true]).unwrap()));
    let (p, _) = collect_sources("/c/Saga.cbr", &first, "/cache").unwrap();
    let (q, _) = collect_sources("/c/Saga.cbr", &again, "/cache").unwrap();
    assert_eq!(pages(&p), pages(&q));
    assert_ne!(extracted_path("/d", 0), extracted_path("/d", 100000));
}
