use cosmic_comic::epub::{is_epub_name, join_epub_path, open, parse_opf, parse_xhtml_body, Block};
use cosmic_comic::xml::read_nodes;
use std::io::{Cursor, Write};

fn zip(entries: &[(&str, &[u8])]) -> Vec<u8> {
    let mut w = zip::ZipWriter::new(Cursor::new(Vec::new()));
    for (name, data) in entries {
        w.start_file(*name, zip::write::SimpleFileOptions::default()).unwrap();
        w.write_all(data).unwrap();
    }
    w.finish().unwrap().into_inner()
}

const CONTAINER: &str = r#"<?xml version="1.0"?><container><rootfiles>
    <rootfile full-path="OEBPS/content.opf" media-type="application/oebps-package+xml"/>
    </rootfiles></container>"#;

const OPF: &str = r#"<?xml version="1.0"?>
<package xmlns:dc="http://purl.org/dc/elements/1.1/">
  <metadata><dc:title>A &amp; B</dc:title><dc:creator>Jane Doe</dc:creator>
    <meta name="cover" content="img"/></metadata>
  <manifest>
    <item id="c1" href="text/one.xhtml"/>
    <item id="c2" href="text/two.xhtml#start"/>
    <item id="img" href="../cover.png"/>
    <item id="gone" href="missing.xhtml"/>
  </manifest>
  <spine><itemref idref="c1"/><itemref idref="gone"/><itemref idref="unknown"/><itemref idref="c2"/></spine>
</package>"#;

const ONE: &str = r#"<html><body><h2>Start</h2><p>Hello <b>bold</b>
    world</p><img src="../pic.png"/><p>  </p></body></html>"#;

const TWO: &str = r#"<html><body><p>No heading</p><blockquote>Said</blockquote><ul><li>One</li></ul></body></html>"#;

fn book() -> Vec<u8> {
    zip(&[
        ("META-INF/container.xml", CONTAINER.as_bytes()),
        ("OEBPS/content.opf", OPF.as_bytes()),
        ("OEBPS/text/one.xhtml", ONE.as_bytes()),
        ("OEBPS/text/two.xhtml", TWO.as_bytes()),
        ("OEBPS/pic.png", b"picture"),
        ("cover.png", b"cover"),
    ])
}

fn shown(b: &Block) -> String {
    match b {
        Block::Heading(level, t) => format!("h{level}:{t}"),
        Block::Paragraph(t) => format!("p:{t}"),
        Block::Quote(t) => format!("q:{t}"),
        Block::ListItem(t) => format!("li:{t}"),
        Block::Image(data) => format!("img:{}", data.len()),
    }
}

fn body(xhtml: &str) -> (Vec<String>, Vec<String>) {
    let (blocks, images) = parse_xhtml_body(&read_nodes(xhtml, false));
    (blocks.iter().map(shown).collect(), images)
}

#[test]
fn books_are_told_by_their_names() {
    assert!(is_epub_name("Book.EPUB"));
    assert!(!is_epub_name("Book.epub.zip"));
}

#[test]
fn a_book_is_opened() {
    let b = open("/b/book.epub", book()).unwrap();
    assert_eq!(b.title, "A & B");
    assert_eq!(b.author.as_deref(), Some("Jane Doe"));
    assert_eq!(b.cover, Some(b"cover".to_vec()));
    assert_eq!(b.chapters.len(), 2);
    assert_eq!(b.chapters[0].title, "Start");
    assert_eq!(
        b.chapters[0].blocks.iter().map(shown).collect::<Vec<_>>(),
        vec!["h2:Start", "p:Hello bold world", "img:7"]
    );
    assert_eq!(b.chapters[1].title, "Chapter 2");
    assert_eq!(
        b.chapters[1].blocks.iter().map(shown).collect::<Vec<_>>(),
        vec!["p:No heading", "q:Said", "li:One"]
    );
}

#[test]
fn a_book_without_a_title_is_named_after_its_file() {
    let opf = OPF.replace("A &amp; B", "");
    let data = zip(&[
        ("META-INF/container.xml", CONTAINER.as_bytes()),
        ("OEBPS/content.opf", opf.as_bytes()),
        ("OEBPS/text/one.xhtml", ONE.as_bytes()),
    ]);
    let b = open("/b/My Book.epub", data).unwrap();
    assert_eq!(b.title, "My Book");
    assert_eq!(b.cover, None);
}

#[test]
fn what_is_no_book_is_an_error() {
    let why = |data: Vec<u8>| open("/b/x.epub", data).err().unwrap();
    assert!(why(b"nonsense".to_vec()).starts_with("failed to read epub /b/x.epub: "));
    assert!(why(zip(&[("a", b"b")]))
        .starts_with("missing container.xml: entry META-INF/container.xml not found in epub: "));
    assert_eq!(
        why(zip(&[("META-INF/container.xml", b"<container/>")])),
        "no <rootfile> found in container.xml"
    );
    assert!(why(zip(&[("META-INF/container.xml", CONTAINER.as_bytes())]))
        .starts_with("entry OEBPS/content.opf not found in epub: "));
    assert_eq!(
        why(zip(&[
            ("META-INF/container.xml", CONTAINER.as_bytes()),
            ("OEBPS/content.opf", OPF.as_bytes()),
        ])),
        "no readable chapters found in /b/x.epub"
    );
}

#[test]
fn an_entry_that_cannot_be_unpacked_is_an_error() {
    let mut data = zip(&[("META-INF/container.xml", CONTAINER.as_bytes())]);
    // The data of the only entry stands behind its local header.
    let at = 30 + "META-INF/container.xml".len();
    data[at] ^= 0xff;
    data[at + 1] ^= 0xff;
    let why = open("/b/x.epub", data).err().unwrap();
    assert!(
        why.starts_with("missing container.xml: failed to read META-INF/container.xml: "),
        "{why}"
    );
}

#[test]
fn a_package_document_is_read() {
    let p = parse_opf(&read_nodes(OPF, true));
    assert_eq!(p.title, "A & B");
    assert_eq!(p.author.as_deref(), Some("Jane Doe"));
    assert_eq!(p.spine, vec!["c1", "gone", "unknown", "c2"]);
    assert_eq!(p.cover_id.as_deref(), Some("img"));
    assert_eq!(p.manifest.len(), 4);
    assert_eq!(p.manifest[0], ("c1".to_string(), "text/one.xhtml".to_string()));
}

#[test]
fn the_cover_is_the_last_that_is_named() {
    let cover = |xml: &str| parse_opf(&read_nodes(xml, true)).cover_id;
    let item = r#"<item id="a" href="x" properties="nav cover-image"/>"#;
    let meta = r#"<meta name="cover" content="b"/>"#;
    assert_eq!(cover(&format!("<p>{item}{meta}</p>")).as_deref(), Some("b"));
    assert_eq!(cover(&format!("<p>{meta}{item}</p>")).as_deref(), Some("a"));
    assert_eq!(cover(&format!("<p>{item}<meta name=\"cover\"/></p>")).as_deref(), Some("a"));
    assert_eq!(cover("<p><item id=\"a\" properties=\"cover-image\"/></p>"), None);
}

#[test]
fn a_chapter_is_split_into_blocks() {
    let (blocks, images) = body(
        "<body>stray<h1>A</h1><h3> B <i>c</i></h3><div>one<br/>two</div><p></p>\
         <blockquote>q</blockquote><li>x</li><image xlink:href=\"i.svg\"/><img alt=\"n\" src=\"j.png\"/>tail</body>",
    );
    assert_eq!(blocks, vec!["h1:A", "h3:B c", "p:one\ntwo", "q:q", "li:x"]);
    assert_eq!(images, vec!["i.svg", "j.png"]);
}

#[test]
fn unclosed_elements_are_forgiven() {
    let (blocks, _) = body("<body><p>one<p>two</body>");
    assert_eq!(blocks, vec!["p:one", "p:two"]);
    let (blocks, _) = body("<h6>deep</h6>");
    assert_eq!(blocks, vec!["h6:deep"]);
}

#[test]
fn references_are_resolved() {
    assert_eq!(join_epub_path("OEBPS", "text/one.xhtml"), "OEBPS/text/one.xhtml");
    assert_eq!(join_epub_path("OEBPS/text", "../pic.png"), "OEBPS/pic.png");
    assert_eq!(join_epub_path("OEBPS", "../../x"), "x");
    assert_eq!(join_epub_path("OEBPS", "/top/./x#here"), "top/x");
    assert_eq!(join_epub_path("OEBPS", "a.xhtml?q=1"), "OEBPS/a.xhtml");
    assert_eq!(join_epub_path("", "a//b/"), "a/b");
    assert_eq!(join_epub_path("OEBPS", "#top"), "OEBPS");
}

#[test]
fn resolved_references_have_plain_steps() {
    for href in ["./././a", "a/../../..", "//x//y/./z/..", "..", ".", ""] {
        let path = join_epub_path("p/q", href);
        if !path.is_empty() {
            for step in path.split('/') {
                assert!(!step.is_empty() && step != "." && step != "..", "{href}");
            }
        }
    }
}

#[test]
fn an_element_is_one_block() {
    let (blocks, _) = parse_xhtml_body(&read_nodes("<p> a </p><h6>\n b</h6><li>  </li>", false));
    assert_eq!(blocks.len(), 2);
    assert!(matches!(&blocks[0], Block::Paragraph(t) if t == "a"));
    assert!(matches!(&blocks[1], Block::Heading(6, t) if t == "b"));
}
