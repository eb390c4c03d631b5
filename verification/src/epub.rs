//! A minimal EPUB parser: enough to open a book, show its chapters with
//! headings, paragraphs, quotes and lists, and jump between them. There is no
//! style engine and no pagination. The images of a chapter stand behind its
//! text.
use crate::archive::{archive_bytes, archive_refusal, entry_data, open_archive, read_entry, EntryError,
    EntryErrorView};
use crate::comic::file_name_text;
use crate::number::{decimal, decimal_text};
use crate::paths::{file_stem, here, is_up, join_path, joined, parent_of, parent_path, up, without_extension};
use crate::text::{
    ascii_lower, chars_of, concat3, contains_text, ends_with, finishes_with, holds_text, is_space,
    is_space_char, join, join_rows, lossy_text, lower_chars, push_all, rows, same_text, split_chars,
    split_on, string_of, text_from_bytes, texts, trim, trim_leaves_no_space,
    trimmed,
};
use crate::xml::{document_nodes, nodes, pairs, read_nodes, Node, NodeView};
use std::io::Cursor;
use vstd::prelude::*;
use zip::read::ZipArchive;

verus! {

/// One unit of a chapter's content.
#[derive(Clone, Debug)]
pub enum Block {
    /// A heading, with its level from 1 (the biggest) to 6.
    Heading(u8, String),
    Paragraph(String),
    Quote(String),
    ListItem(String),
    /// An image, as it is encoded in the book.
    Image(Vec<u8>),
}

/// The model of a block.
pub enum BlockView {
    Heading(u8, Seq<char>),
    Paragraph(Seq<char>),
    Quote(Seq<char>),
    ListItem(Seq<char>),
    Image(Seq<u8>),
}

impl View for Block {
    type V = BlockView;

    open spec fn view(&self) -> BlockView {
        match self {
            Block::Heading(level, t) => BlockView::Heading(*level, t@),
            Block::Paragraph(t) => BlockView::Paragraph(t@),
            Block::Quote(t) => BlockView::Quote(t@),
            Block::ListItem(t) => BlockView::ListItem(t@),
            Block::Image(data) => BlockView::Image(data@),
        }
    }
}

/// The models of blocks.
pub open spec fn block_views(v: Seq<Block>) -> Seq<BlockView> {
    v.map_values(|b: Block| b@)
}

/// A chapter of a book.
#[derive(Clone, Debug)]
pub struct EpubChapter {
    pub title: String,
    pub blocks: Vec<Block>,
}

/// The model of a chapter.
pub struct EpubChapterView {
    pub title: Seq<char>,
    pub blocks: Seq<BlockView>,
}

impl View for EpubChapter {
    type V = EpubChapterView;

    open spec fn view(&self) -> EpubChapterView {
        EpubChapterView { title: self.title@, blocks: block_views(self.blocks@) }
    }
}

/// The models of chapters.
pub open spec fn epub_chapter_views(v: Seq<EpubChapter>) -> Seq<EpubChapterView> {
    v.map_values(|c: EpubChapter| c@)
}

/// A book.
#[derive(Clone, Debug)]
pub struct EpubBook {
    pub title: String,
    pub author: Option<String>,
    /// The cover, as it is encoded in the book, if the book names one.
    pub cover: Option<Vec<u8>>,
    pub chapters: Vec<EpubChapter>,
}

/// The model of a book.
pub struct BookView {
    pub title: Seq<char>,
    pub author: Option<Seq<char>>,
    pub cover: Option<Seq<u8>>,
    pub chapters: Seq<EpubChapterView>,
}

impl View for EpubBook {
    type V = BookView;

    open spec fn view(&self) -> BookView {
        BookView {
            title: self.title@,
            author: crate::text::opt_text(self.author),
            cover: match self.cover {
                Some(c) => Some(c@),
                None => None,
            },
            chapters: epub_chapter_views(self.chapters@),
        }
    }
}

/// Whether a file of this name is taken for a book.
pub fn is_epub_name(name: &str) -> (r: bool)
    ensures
        r == ends_with(ascii_lower(name@), ".epub"@),
{
    let lower = lower_chars(name);
    finishes_with(lower.as_slice(), ".epub")
}

// ── Attributes ───────────────────────────────────────────────────────────────

/// The value under a key in a list of pairs: where several have the key, the
/// last of them.
pub open spec fn last_value(list: Seq<(Seq<char>, Seq<char>)>, key: Seq<char>) -> Option<Seq<char>>
    decreases list.len(),
{
    if list.len() == 0 {
        None
    } else if list.last().0 == key {
        Some(list.last().1)
    } else {
        last_value(list.drop_last(), key)
    }
}

/// The value under a key in a list of pairs: where several have the key, the
/// first of them.
pub open spec fn first_value(list: Seq<(Seq<char>, Seq<char>)>, key: Seq<char>) -> Option<Seq<char>>
    decreases list.len(),
{
    if list.len() == 0 {
        None
    } else if list[0].0 == key {
        Some(list[0].1)
    } else {
        first_value(list.drop_first(), key)
    }
}

/// The values under a key, or another, in a list of pairs.
pub open spec fn values_under(
    list: Seq<(Seq<char>, Seq<char>)>,
    key: Seq<char>,
    other: Seq<char>,
) -> Seq<Seq<char>>
    decreases list.len(),
{
    if list.len() == 0 {
        Seq::empty()
    } else {
        let rest = values_under(list.drop_last(), key, other);
        if list.last().0 == key || list.last().0 == other {
            rest.push(list.last().1)
        } else {
            rest
        }
    }
}

/// The value under a key in a list of pairs, the last one.
fn find_last(list: &Vec<(String, String)>, key: &str) -> (r: Option<String>)
    ensures
        match r {
            Some(v) => last_value(pairs(list@), key@) == Some(v@),
            None => last_value(pairs(list@), key@) is None,
        },
{
    let ghost all = pairs(list@);
    let mut i: usize = list.len();
    assert(all.take(all.len() as int) == all);
    while i > 0
        invariant
            i <= list@.len(),
            all == pairs(list@),
            last_value(all, key@) == last_value(all.take(i as int), key@),
        decreases i,
    {
        assert(all.take(i as int).drop_last() == all.take(i - 1));
        assert(all.take(i as int).last() == (list@[i - 1].0@, list@[i - 1].1@));
        if same_text(list[i - 1].0.as_str(), key) {
            return Some(list[i - 1].1.clone());
        }
        i = i - 1;
    }
    None
}

/// The value under a key in a list of pairs, the first one.
fn find_first(list: &Vec<(String, String)>, key: &str) -> (r: Option<String>)
    ensures
        match r {
            Some(v) => first_value(pairs(list@), key@) == Some(v@),
            None => first_value(pairs(list@), key@) is None,
        },
{
    let ghost all = pairs(list@);
    assert(all.skip(0) == all);
    for i in 0..list.len()
        invariant
            all == pairs(list@),
            first_value(all, key@) == first_value(all.skip(i as int), key@),
    {
        assert(all.skip(i as int).drop_first() == all.skip(i + 1));
        assert(all.skip(i as int)[0] == (list@[i as int].0@, list@[i as int].1@));
        if same_text(list[i].0.as_str(), key) {
            return Some(list[i].1.clone());
        }
    }
    assert(all.skip(all.len() as int).len() == 0);
    None
}

/// Adds the values under a key, or another, to a list of texts.
fn add_values(list: &Vec<(String, String)>, key: &str, other: &str, out: &mut Vec<String>)
    ensures
        texts(final(out)@) == texts(old(out)@) + values_under(pairs(list@), key@, other@),
{
    let ghost all = pairs(list@);
    let ghost before = texts(out@);
    for i in 0..list.len()
        invariant
            all == pairs(list@),
            texts(out@) == before + values_under(all.take(i as int), key@, other@),
    {
        let ghost was = texts(out@);
        assert(all.take(i + 1).drop_last() == all.take(i as int));
        assert(all.take(i + 1).last() == (list@[i as int].0@, list@[i as int].1@));
        if same_text(list[i].0.as_str(), key) || same_text(list[i].0.as_str(), other) {
            out.push(list[i].1.clone());
            assert(texts(out@) =~= was.push(list@[i as int].1@));
        }
        assert(texts(out@) =~= before + values_under(all.take(i + 1), key@, other@));
    }
    assert(all.take(all.len() as int) == all);
}

// ── container.xml ────────────────────────────────────────────────────────────

/// The path of the package document that a container names: the first
/// `full-path` of a `rootfile`.
pub open spec fn rootfile(doc: Seq<NodeView>) -> Option<Seq<char>>
    decreases doc.len(),
{
    if doc.len() == 0 {
        None
    } else {
        match doc[0] {
            NodeView::Tag { empty, name, attributes } => if name == "rootfile"@ && first_value(
                attributes,
                "full-path"@,
            ) is Some {
                first_value(attributes, "full-path"@)
            } else {
                rootfile(doc.drop_first())
            },
            _ => rootfile(doc.drop_first()),
        }
    }
}

/// The path of the package document that a container names.
pub fn find_rootfile(doc: &Vec<Node>) -> (r: Option<String>)
    ensures
        match r {
            Some(p) => rootfile(nodes(doc@)) == Some(p@),
            None => rootfile(nodes(doc@)) is None,
        },
{
    let ghost all = nodes(doc@);
    assert(all.skip(0) == all);
    for i in 0..doc.len()
        invariant
            all == nodes(doc@),
            rootfile(all) == rootfile(all.skip(i as int)),
    {
        assert(all.skip(i as int).drop_first() == all.skip(i + 1));
        assert(all.skip(i as int)[0] == doc@[i as int]@);
        if let Node::Tag { empty, name, attributes } = &doc[i] {
            if same_text(name.as_str(), "rootfile") {
                if let Some(p) = find_first(attributes, "full-path") {
                    return Some(p);
                }
            }
        }
    }
    assert(all.skip(all.len() as int).len() == 0);
    None
}

// ── The package document ─────────────────────────────────────────────────────

/// Whether an element of this name is open behind these nodes: whether the last
/// of its tags among them is a start tag.
pub open spec fn is_open(doc: Seq<NodeView>, element: Seq<char>) -> bool
    decreases doc.len(),
{
    if doc.len() == 0 {
        false
    } else {
        match doc.last() {
            NodeView::Tag { empty: false, name, attributes } => name == element || is_open(
                doc.drop_last(),
                element,
            ),
            NodeView::End(name) => name != element && is_open(doc.drop_last(), element),
            _ => is_open(doc.drop_last(), element),
        }
    }
}

/// The title of a book: the last text within a `title`; empty, if there is
/// none.
pub open spec fn opf_title(doc: Seq<NodeView>) -> Seq<char>
    decreases doc.len(),
{
    if doc.len() == 0 {
        Seq::empty()
    } else {
        match doc.last() {
            NodeView::Text(t) => if is_open(doc.drop_last(), "title"@) {
                t
            } else {
                opf_title(doc.drop_last())
            },
            _ => opf_title(doc.drop_last()),
        }
    }
}

/// The author of a book: the last text within a `creator` but not within a
/// `title`.
pub open spec fn opf_author(doc: Seq<NodeView>) -> Option<Seq<char>>
    decreases doc.len(),
{
    if doc.len() == 0 {
        None
    } else {
        match doc.last() {
            NodeView::Text(t) => if !is_open(doc.drop_last(), "title"@) && is_open(
                doc.drop_last(),
                "creator"@,
            ) {
                Some(t)
            } else {
                opf_author(doc.drop_last())
            },
            _ => opf_author(doc.drop_last()),
        }
    }
}

/// The identifier and the reference of an `item`, if the node is one that has
/// both.
pub open spec fn item_of(n: NodeView) -> Option<(Seq<char>, Seq<char>)> {
    match n {
        NodeView::Tag { empty: true, name, attributes } => if name == "item"@ {
            match (last_value(attributes, "id"@), last_value(attributes, "href"@)) {
                (Some(id), Some(href)) => Some((id, href)),
                _ => None,
            }
        } else {
            None
        },
        _ => None,
    }
}

/// The items of a book: identifiers and references.
pub open spec fn opf_manifest(doc: Seq<NodeView>) -> Seq<(Seq<char>, Seq<char>)>
    decreases doc.len(),
{
    if doc.len() == 0 {
        Seq::empty()
    } else {
        match item_of(doc.last()) {
            Some(item) => opf_manifest(doc.drop_last()).push(item),
            None => opf_manifest(doc.drop_last()),
        }
    }
}

/// The identifiers of a book's chapters, in reading order.
pub open spec fn opf_spine(doc: Seq<NodeView>) -> Seq<Seq<char>>
    decreases doc.len(),
{
    if doc.len() == 0 {
        Seq::empty()
    } else {
        match doc.last() {
            NodeView::Tag { empty: true, name, attributes } => if name == "itemref"@ {
                opf_spine(doc.drop_last()) + values_under(attributes, "idref"@, "idref"@)
            } else {
                opf_spine(doc.drop_last())
            },
            _ => opf_spine(doc.drop_last()),
        }
    }
}

/// Whether one of the attributes has this key and a value that holds this text.
pub open spec fn some_value_holds(
    list: Seq<(Seq<char>, Seq<char>)>,
    key: Seq<char>,
    text: Seq<char>,
) -> bool {
    exists|i: int|
        0 <= i < list.len() && (#[trigger] list[i]).0 == key && contains_text(list[i].1, text)
}

/// Whether one of the attributes has this key and this value.
pub open spec fn some_value_is(
    list: Seq<(Seq<char>, Seq<char>)>,
    key: Seq<char>,
    value: Seq<char>,
) -> bool {
    exists|i: int| 0 <= i < list.len() && (#[trigger] list[i]).0 == key && list[i].1 == value
}

/// The identifier of a book's cover: that of the last item with the property
/// `cover-image`, or what the last `meta` of the name `cover` says, whichever
/// stands later.
pub open spec fn opf_cover(doc: Seq<NodeView>) -> Option<Seq<char>>
    decreases doc.len(),
{
    if doc.len() == 0 {
        None
    } else {
        let before = opf_cover(doc.drop_last());
        match doc.last() {
            NodeView::Tag { empty: true, name, attributes } => if name == "item"@ {
                match item_of(doc.last()) {
                    Some((id, href)) => if some_value_holds(
                        attributes,
                        "properties"@,
                        "cover-image"@,
                    ) {
                        Some(id)
                    } else {
                        before
                    },
                    None => before,
                }
            } else if name == "meta"@ && some_value_is(attributes, "name"@, "cover"@) {
                match last_value(attributes, "content"@) {
                    Some(content) => Some(content),
                    None => before,
                }
            } else {
                before
            },
            _ => before,
        }
    }
}

/// What a package document says of a book.
pub struct Package {
    pub title: String,
    pub author: Option<String>,
    /// The items: identifiers and references.
    pub manifest: Vec<(String, String)>,
    /// The identifiers of the chapters, in reading order.
    pub spine: Vec<String>,
    pub cover_id: Option<String>,
}

/// Whether a package is what a document says.
pub open spec fn package_of(p: Package, doc: Seq<NodeView>) -> bool {
    &&& p.title@ == opf_title(doc)
    &&& crate::text::opt_text(p.author) == opf_author(doc)
    &&& pairs(p.manifest@) == opf_manifest(doc)
    &&& texts(p.spine@) == opf_spine(doc)
    &&& crate::text::opt_text(p.cover_id) == opf_cover(doc)
}

/// Whether one of the attributes has this key and a value that holds this text.
fn any_value_holds(list: &Vec<(String, String)>, key: &str, text: &str) -> (r: bool)
    ensures
        r == some_value_holds(pairs(list@), key@, text@),
{
    let ghost all = pairs(list@);
    for i in 0..list.len()
        invariant
            all == pairs(list@),
            forall|j: int|
                0 <= j < i ==> !((#[trigger] all[j]).0 == key@ && contains_text(all[j].1, text@)),
    {
        let v = chars_of(list[i].1.as_str());
        assert(all[i as int] == (list@[i as int].0@, list@[i as int].1@));
        if same_text(list[i].0.as_str(), key) && holds_text(v.as_slice(), text) {
            return true;
        }
    }
    false
}

/// Whether one of the attributes has this key and this value.
fn any_value_is(list: &Vec<(String, String)>, key: &str, value: &str) -> (r: bool)
    ensures
        r == some_value_is(pairs(list@), key@, value@),
{
    let ghost all = pairs(list@);
    for i in 0..list.len()
        invariant
            all == pairs(list@),
            forall|j: int| 0 <= j < i ==> !((#[trigger] all[j]).0 == key@ && all[j].1 == value@),
    {
        assert(all[i as int] == (list@[i as int].0@, list@[i as int].1@));
        if same_text(list[i].0.as_str(), key) && same_text(list[i].1.as_str(), value) {
            return true;
        }
    }
    false
}

/// Takes a tag that is closed at once into a package.
fn take_empty_tag(p: &mut Package, name: &String, attributes: &Vec<(String, String)>, Ghost(
    doc,
): Ghost<Seq<NodeView>>)
    requires
        package_of(*old(p), doc),
    ensures
        package_of(
            *final(p),
            doc.push(
                NodeView::Tag { empty: true, name: name@, attributes: pairs(attributes@) },
            ),
        ),
{
    let ghost node = NodeView::Tag { empty: true, name: name@, attributes: pairs(attributes@) };
    let ghost more = doc.push(node);
    let ghost manifest = pairs(p.manifest@);
    assert(more.drop_last() =~= doc);
    proof {
        reveal_strlit("item");
        reveal_strlit("itemref");
        reveal_strlit("meta");
        assert("item"@.len() != "itemref"@.len());
        assert("item"@[0] != "meta"@[0]);
        assert("itemref"@.len() != "meta"@.len());
    }
    if same_text(name.as_str(), "item") {
        let id = find_last(attributes, "id");
        let href = find_last(attributes, "href");
        if let Some(id) = id {
            if let Some(href) = href {
                if any_value_holds(attributes, "properties", "cover-image") {
                    p.cover_id = Some(id.clone());
                }
                p.manifest.push((id, href));
                assert(pairs(p.manifest@) =~= manifest.push((id@, href@)));
            }
        }
    } else if same_text(name.as_str(), "itemref") {
        add_values(attributes, "idref", "idref", &mut p.spine);
    } else if same_text(name.as_str(), "meta") {
        if any_value_is(attributes, "name", "cover") {
            if let Some(content) = find_last(attributes, "content") {
                p.cover_id = Some(content);
            }
        }
    }
}

/// Reads what a package document says of a book.
pub fn parse_opf(doc: &Vec<Node>) -> (r: Package)
    ensures
        package_of(r, nodes(doc@)),
{
    let ghost all = nodes(doc@);
    let mut p = Package {
        title: String::new(),
        author: None,
        manifest: Vec::new(),
        spine: Vec::new(),
        cover_id: None,
    };
    let mut in_title = false;
    let mut in_creator = false;
    assert(p.title@ =~= Seq::empty());
    assert(pairs(p.manifest@) =~= Seq::empty());
    assert(texts(p.spine@) =~= Seq::empty());
    for i in 0..doc.len()
        invariant
            all == nodes(doc@),
            package_of(p, all.take(i as int)),
            in_title == is_open(all.take(i as int), "title"@),
            in_creator == is_open(all.take(i as int), "creator"@),
    {
        let ghost before = all.take(i as int);
        let ghost after = all.take(i + 1);
        assert(after.drop_last() =~= before);
        assert(after =~= before.push(doc@[i as int]@));
        assert(after.last() == doc@[i as int]@);
        match &doc[i] {
            Node::Tag { empty, name, attributes } => {
                if *empty {
                    take_empty_tag(&mut p, name, attributes, Ghost(before));
                } else {
                    if same_text(name.as_str(), "title") {
                        in_title = true;
                    }
                    if same_text(name.as_str(), "creator") {
                        in_creator = true;
                    }
                }
            },
            Node::Text(t) => {
                if in_title {
                    p.title = t.clone();
                } else if in_creator {
                    p.author = Some(t.clone());
                }
            },
            Node::End(name) => {
                if same_text(name.as_str(), "title") {
                    in_title = false;
                }
                if same_text(name.as_str(), "creator") {
                    in_creator = false;
                }
            },
            Node::Other => {},
        }
    }
    assert(all.take(all.len() as int) == all);
    p
}

// ── Chapters ─────────────────────────────────────────────────────────────────

/// The kinds of text blocks.
#[derive(Clone, Copy, Debug, PartialEq, Eq, Structural)]
pub enum BlockKind {
    Heading(u8),
    Paragraph,
    Quote,
    ListItem,
}

/// The kind of block that an element holds, if it holds one.
pub open spec fn block_kind(element: Seq<char>) -> Option<BlockKind> {
    if element == "h1"@ {
        Some(BlockKind::Heading(1))
    } else if element == "h2"@ {
        Some(BlockKind::Heading(2))
    } else if element == "h3"@ {
        Some(BlockKind::Heading(3))
    } else if element == "h4"@ {
        Some(BlockKind::Heading(4))
    } else if element == "h5"@ {
        Some(BlockKind::Heading(5))
    } else if element == "h6"@ {
        Some(BlockKind::Heading(6))
    } else if element == "p"@ || element == "div"@ {
        Some(BlockKind::Paragraph)
    } else if element == "blockquote"@ {
        Some(BlockKind::Quote)
    } else if element == "li"@ {
        Some(BlockKind::ListItem)
    } else {
        None
    }
}

/// A text block.
pub open spec fn text_block(kind: BlockKind, t: Seq<char>) -> BlockView {
    match kind {
        BlockKind::Heading(level) => BlockView::Heading(level, t),
        BlockKind::Paragraph => BlockView::Paragraph(t),
        BlockKind::Quote => BlockView::Quote(t),
        BlockKind::ListItem => BlockView::ListItem(t),
    }
}

/// A chapter that is being read: its blocks so far, and the text of the block
/// that is open.
pub struct BodyView {
    pub blocks: Seq<BlockView>,
    pub text: Seq<char>,
    pub current: Option<BlockKind>,
}

/// Ends the block that is open. A block without any text is dropped.
pub open spec fn flushed(b: BodyView) -> BodyView {
    BodyView {
        blocks: match b.current {
            Some(kind) => if trim(b.text).len() > 0 {
                b.blocks.push(text_block(kind, trim(b.text)))
            } else {
                b.blocks
            },
            None => b.blocks,
        },
        text: Seq::empty(),
        current: None,
    }
}

/// A text with more text behind it: a space parts them, unless there is white
/// space already or nothing to part.
pub open spec fn with_text(text: Seq<char>, more: Seq<char>) -> Seq<char> {
    if text.len() > 0 && !is_space(text.last()) {
        text.push(' ') + trim(more)
    } else {
        text + trim(more)
    }
}

/// What the next node does to a chapter that is being read.
pub open spec fn body_step(b: BodyView, n: NodeView) -> BodyView {
    match n {
        NodeView::Tag { empty, name, attributes } => if block_kind(name) is Some {
            BodyView { current: block_kind(name), ..flushed(b) }
        } else if name == "br"@ {
            BodyView { text: b.text.push('\n'), ..b }
        } else {
            b
        },
        NodeView::Text(t) => if b.current is Some {
            BodyView { text: with_text(b.text, t), ..b }
        } else {
            b
        },
        NodeView::End(name) => if block_kind(name) is Some {
            flushed(b)
        } else {
            b
        },
        NodeView::Other => b,
    }
}

/// What a chapter's nodes make of it.
pub open spec fn body_of(doc: Seq<NodeView>) -> BodyView
    decreases doc.len(),
{
    if doc.len() == 0 {
        BodyView { blocks: Seq::empty(), text: Seq::empty(), current: None }
    } else {
        body_step(body_of(doc.drop_last()), doc.last())
    }
}

/// The text blocks of a chapter.
pub open spec fn body_blocks(doc: Seq<NodeView>) -> Seq<BlockView> {
    flushed(body_of(doc)).blocks
}

/// The references to a chapter's images, in the order of the document.
pub open spec fn body_images(doc: Seq<NodeView>) -> Seq<Seq<char>>
    decreases doc.len(),
{
    if doc.len() == 0 {
        Seq::empty()
    } else {
        match doc.last() {
            NodeView::Tag { empty, name, attributes } => if name == "img"@ || name == "image"@ {
                body_images(doc.drop_last()) + values_under(attributes, "src"@, "href"@)
            } else {
                body_images(doc.drop_last())
            },
            _ => body_images(doc.drop_last()),
        }
    }
}

/// Whether a block is text as it is to be shown: there is some, without white
/// space around it, and a heading has a level from one to six.
pub open spec fn clean_block(b: BlockView) -> bool {
    match b {
        BlockView::Heading(level, t) => 1 <= level <= 6 && clean_text(t),
        BlockView::Paragraph(t) => clean_text(t),
        BlockView::Quote(t) => clean_text(t),
        BlockView::ListItem(t) => clean_text(t),
        BlockView::Image(_) => false,
    }
}

/// Whether a text is not empty and has no white space around it.
pub open spec fn clean_text(t: Seq<char>) -> bool {
    t.len() > 0 && trim(t) == t && !is_space(t[0]) && !is_space(t.last())
}

/// Whether what was read of a chapter so far is clean.
spec fn clean_body(b: BodyView) -> bool {
    &&& forall|i: int| 0 <= i < b.blocks.len() ==> clean_block(#[trigger] b.blocks[i])
    &&& b.current matches Some(BlockKind::Heading(level)) ==> 1 <= level <= 6
}

/// Ending a block keeps the blocks clean.
proof fn flushed_is_clean(b: BodyView)
    requires
        clean_body(b),
    ensures
        clean_body(flushed(b)),
{
    trim_leaves_no_space(b.text);
}

/// The blocks of a chapter are clean, whatever node was read last.
proof fn body_is_clean(doc: Seq<NodeView>)
    ensures
        clean_body(body_of(doc)),
    decreases doc.len(),
{
    if doc.len() > 0 {
        body_is_clean(doc.drop_last());
        flushed_is_clean(body_of(doc.drop_last()));
    }
}

/// The text blocks of a chapter hold text, without white space around it, and
/// the levels of headings lie between one and six.
pub proof fn blocks_are_clean(doc: Seq<NodeView>)
    ensures
        forall|i: int|
            0 <= i < body_blocks(doc).len() ==> clean_block(#[trigger] body_blocks(doc)[i]),
{
    body_is_clean(doc);
    flushed_is_clean(body_of(doc));
}

/// An element that holds a block and nothing but text makes one block of that
/// text, behind the blocks before it; or none, if there is only white space.
pub proof fn an_element_is_one_block(
    doc: Seq<NodeView>,
    name: Seq<char>,
    attributes: Seq<(Seq<char>, Seq<char>)>,
    t: Seq<char>,
)
    requires
        block_kind(name) is Some,
    ensures
        body_blocks(
            doc + seq![
                NodeView::Tag { empty: false, name, attributes },
                NodeView::Text(t),
                NodeView::End(name),
            ],
        ) == body_blocks(doc) + (if trim(t).len() > 0 {
            seq![text_block(block_kind(name)->0, trim(t))]
        } else {
            Seq::empty()
        }),
{
    let open = doc.push(NodeView::Tag { empty: false, name, attributes });
    let filled = open.push(NodeView::Text(t));
    let closed = filled.push(NodeView::End(name));
    assert(open.drop_last() =~= doc);
    assert(filled.drop_last() =~= open);
    assert(closed.drop_last() =~= filled);
    assert(doc + seq![
        NodeView::Tag { empty: false, name, attributes },
        NodeView::Text(t),
        NodeView::End(name),
    ] =~= closed);
    let tag = NodeView::Tag { empty: false, name, attributes };
    assert(body_of(open) == body_step(body_of(doc), tag));
    assert(body_of(filled) == body_step(body_of(open), NodeView::Text(t)));
    assert(body_of(closed) == body_step(body_of(filled), NodeView::End(name)));
    assert(body_of(filled).text =~= trim(t));
    trim_leaves_no_space(t);
    assert(body_blocks(closed) =~= body_blocks(doc) + (if trim(t).len() > 0 {
        seq![text_block(block_kind(name)->0, trim(t))]
    } else {
        Seq::empty()
    }));
}

/// The kind of block that an element holds, if it holds one.
fn kind_of_element(name: &str) -> (r: Option<BlockKind>)
    ensures
        r == block_kind(name@),
{
    if same_text(name, "h1") {
        Some(BlockKind::Heading(1))
    } else if same_text(name, "h2") {
        Some(BlockKind::Heading(2))
    } else if same_text(name, "h3") {
        Some(BlockKind::Heading(3))
    } else if same_text(name, "h4") {
        Some(BlockKind::Heading(4))
    } else if same_text(name, "h5") {
        Some(BlockKind::Heading(5))
    } else if same_text(name, "h6") {
        Some(BlockKind::Heading(6))
    } else if same_text(name, "p") || same_text(name, "div") {
        Some(BlockKind::Paragraph)
    } else if same_text(name, "blockquote") {
        Some(BlockKind::Quote)
    } else if same_text(name, "li") {
        Some(BlockKind::ListItem)
    } else {
        None
    }
}

/// A chapter that is being read.
struct Body {
    blocks: Vec<Block>,
    text: Vec<char>,
    current: Option<BlockKind>,
}

impl View for Body {
    type V = BodyView;

    closed spec fn view(&self) -> BodyView {
        BodyView { blocks: block_views(self.blocks@), text: self.text@, current: self.current }
    }
}

impl Body {
    /// Ends the block that is open.
    fn flush(&mut self)
        ensures
            final(self)@ == flushed(old(self)@),
    {
        if let Some(kind) = self.current {
            let ghost was = block_views(self.blocks@);
            let t = trimmed(self.text.as_slice());
            if t.len() > 0 {
                let text = string_of(t);
                let block = match kind {
                    BlockKind::Heading(level) => Block::Heading(level, text),
                    BlockKind::Paragraph => Block::Paragraph(text),
                    BlockKind::Quote => Block::Quote(text),
                    BlockKind::ListItem => Block::ListItem(text),
                };
                self.blocks.push(block);
                assert(block_views(self.blocks@) =~= was.push(block@));
            }
        }
        self.current = None;
        self.text = Vec::new();
    }

    /// Adds text to the block that is open.
    fn add_text(&mut self, t: &str)
        ensures
            final(self)@ == (BodyView { text: with_text(old(self)@.text, t@), ..old(self)@ }),
    {
        if self.text.len() > 0 && !is_space_char(self.text[self.text.len() - 1]) {
            self.text.push(' ');
        }
        let v = chars_of(t);
        push_all(&mut self.text, trimmed(v.as_slice()));
    }
}

/// Reads the text blocks of a chapter, and the references to its images.
pub fn parse_xhtml_body(doc: &Vec<Node>) -> (r: (Vec<Block>, Vec<String>))
    ensures
        block_views(r.0@) == body_blocks(nodes(doc@)),
        texts(r.1@) == body_images(nodes(doc@)),
{
    let ghost all = nodes(doc@);
    let mut body = Body { blocks: Vec::new(), text: Vec::new(), current: None };
    let mut images: Vec<String> = Vec::new();
    assert(block_views(body.blocks@) =~= Seq::empty());
    assert(body.text@ =~= Seq::empty());
    assert(texts(images@) =~= Seq::empty());
    proof {
        reveal_strlit("img");
        reveal_strlit("image");
        reveal_strlit("br");
        reveal_strlit("h1");
        reveal_strlit("h2");
        reveal_strlit("h3");
        reveal_strlit("h4");
        reveal_strlit("h5");
        reveal_strlit("h6");
        reveal_strlit("p");
        reveal_strlit("div");
        reveal_strlit("blockquote");
        reveal_strlit("li");
        assert("br"@[0] == 'b' && "br"@.len() == 2);
        assert("img"@[0] == 'i' && "img"@.len() == 3);
        assert("image"@[0] == 'i' && "image"@.len() == 5);
        assert("h1"@[0] == 'h' && "h2"@[0] == 'h' && "h3"@[0] == 'h' && "h4"@[0] == 'h');
        assert("h5"@[0] == 'h' && "h6"@[0] == 'h' && "p"@[0] == 'p' && "div"@[0] == 'd');
        assert("blockquote"@.len() == 10 && "li"@[0] == 'l');
        assert(block_kind("br"@) is None);
        assert(block_kind("img"@) is None);
        assert(block_kind("image"@) is None);
        assert("br"@ != "img"@ && "br"@ != "image"@);
    }
    for i in 0..doc.len()
        invariant
            all == nodes(doc@),
            body@ == body_of(all.take(i as int)),
            texts(images@) == body_images(all.take(i as int)),
            block_kind("br"@) is None,
            block_kind("img"@) is None,
            block_kind("image"@) is None,
            "br"@ != "img"@,
            "br"@ != "image"@,
    {
        let ghost after = all.take(i + 1);
        assert(after.drop_last() =~= all.take(i as int));
        assert(after.last() == doc@[i as int]@);
        match &doc[i] {
            Node::Tag { empty, name, attributes } => {
                let kind = kind_of_element(name.as_str());
                if kind.is_some() {
                    body.flush();
                    body.current = kind;
                } else if same_text(name.as_str(), "br") {
                    body.text.push('\n');
                } else if same_text(name.as_str(), "img") || same_text(name.as_str(), "image") {
                    add_values(attributes, "src", "href", &mut images);
                }
            },
            Node::Text(t) => {
                if body.current.is_some() {
                    body.add_text(t.as_str());
                }
            },
            Node::End(name) => {
                if kind_of_element(name.as_str()).is_some() {
                    body.flush();
                }
            },
            Node::Other => {},
        }
    }
    assert(all.take(all.len() as int) == all);
    body.flush();
    (body.blocks, images)
}

// ── Paths within a book ──────────────────────────────────────────────────────

/// A reference without what picks a place within the file.
pub open spec fn without_fragment(href: Seq<char>) -> Seq<char>
    decreases href.len(),
{
    if href.len() == 0 || href[0] == '#' || href[0] == '?' {
        Seq::empty()
    } else {
        seq![href[0]] + without_fragment(href.drop_first())
    }
}

/// A text without the slashes at its front.
pub open spec fn without_slashes(s: Seq<char>) -> Seq<char>
    decreases s.len(),
{
    if s.len() > 0 && s[0] == '/' {
        without_slashes(s.drop_first())
    } else {
        s
    }
}

/// The steps that are left when those that stay where they are, and those that
/// are taken back, are left out.
pub open spec fn resolved(steps: Seq<Seq<char>>) -> Seq<Seq<char>>
    decreases steps.len(),
{
    if steps.len() == 0 {
        Seq::empty()
    } else {
        let before = resolved(steps.drop_last());
        let step = steps.last();
        if step.len() == 0 || step == here() {
            before
        } else if step == up() {
            if before.len() > 0 {
                before.drop_last()
            } else {
                before
            }
        } else {
            before.push(step)
        }
    }
}

/// The steps to the file that a reference in the directory `base` means. A
/// reference with a slash at its front starts at the top of the book.
pub open spec fn epub_steps(base: Seq<char>, href: Seq<char>) -> Seq<Seq<char>> {
    let clean = without_fragment(href);
    let whole = if clean.len() > 0 && clean[0] == '/' {
        without_slashes(clean)
    } else {
        joined(base, clean)
    };
    resolved(split_on(whole, '/'))
}

/// The path of the file that a reference in the directory `base` means.
pub open spec fn epub_path(base: Seq<char>, href: Seq<char>) -> Seq<char> {
    join(epub_steps(base, href), "/"@)
}

/// A path within a book has plain steps only: none is empty, none stays where it
/// is, and none leads up.
pub proof fn epub_steps_are_plain(base: Seq<char>, href: Seq<char>)
    ensures
        forall|i: int|
            0 <= i < epub_steps(base, href).len() ==> (#[trigger] epub_steps(base, href)[i]).len()
                > 0 && epub_steps(base, href)[i] != here() && epub_steps(base, href)[i] != up(),
{
    let clean = without_fragment(href);
    let whole = if clean.len() > 0 && clean[0] == '/' {
        without_slashes(clean)
    } else {
        joined(base, clean)
    };
    resolved_is_plain(split_on(whole, '/'));
}

/// Resolved steps are plain.
proof fn resolved_is_plain(steps: Seq<Seq<char>>)
    ensures
        forall|i: int|
            0 <= i < resolved(steps).len() ==> (#[trigger] resolved(steps)[i]).len() > 0
                && resolved(steps)[i] != here() && resolved(steps)[i] != up(),
    decreases steps.len(),
{
    if steps.len() > 0 {
        let before = resolved(steps.drop_last());
        resolved_is_plain(steps.drop_last());
        assert forall|i: int| 0 <= i < resolved(steps).len() implies (#[trigger] resolved(
            steps,
        )[i]).len() > 0 && resolved(steps)[i] != here() && resolved(steps)[i] != up() by {
            if i < before.len() {
                assert(resolved(steps)[i] == before[i]);
            }
        }
    }
}

/// Whether a step stays where it is.
fn is_no_step(p: &[char]) -> (r: bool)
    ensures
        r == (p@.len() == 0 || p@ == here()),
{
    let r = p.len() == 0 || (p.len() == 1 && p[0] == '.');
    assert(p@.len() == 1 && p@[0] == '.' ==> p@ =~= here());
    r
}

/// A reference without what picks a place within the file.
fn cut_fragment(href: &[char]) -> (r: Vec<char>)
    ensures
        r@ == without_fragment(href@),
{
    let ghost all = href@;
    let mut r: Vec<char> = Vec::new();
    let mut i: usize = 0;
    assert(r@ + without_fragment(all.skip(0)) =~= without_fragment(all)) by {
        assert(all.skip(0) =~= all);
    }
    while i < href.len() && href[i] != '#' && href[i] != '?'
        invariant
            all == href@,
            i <= all.len(),
            r@ + without_fragment(all.skip(i as int)) == without_fragment(all),
        decreases all.len() - i,
    {
        let ghost before = r@;
        let ghost rest = all.skip(i as int);
        r.push(href[i]);
        i = i + 1;
        assert(rest.drop_first() =~= all.skip(i as int));
        assert(r@ + without_fragment(all.skip(i as int)) =~= before + without_fragment(rest));
    }
    assert(without_fragment(all.skip(i as int)) =~= Seq::empty());
    assert(r@ =~= without_fragment(all));
    r
}

/// The steps that are left when those that stay where they are, and those that
/// are taken back, are left out.
fn resolve(steps: Vec<Vec<char>>) -> (r: Vec<Vec<char>>)
    ensures
        rows(r@) == resolved(rows(steps@)),
{
    let ghost all = rows(steps@);
    let mut r: Vec<Vec<char>> = Vec::new();
    assert(rows(r@) =~= Seq::empty());
    for i in 0..steps.len()
        invariant
            all == rows(steps@),
            rows(r@) == resolved(all.take(i as int)),
    {
        let ghost was = rows(r@);
        assert(all.take(i + 1).drop_last() =~= all.take(i as int));
        assert(all.take(i + 1).last() == steps@[i as int]@);
        if is_no_step(steps[i].as_slice()) {
        } else if is_up(steps[i].as_slice()) {
            if r.len() > 0 {
                r.truncate(r.len() - 1);
                assert(rows(r@) =~= was.drop_last());
            }
        } else {
            let mut step: Vec<char> = Vec::new();
            push_all(&mut step, steps[i].as_slice());
            assert(step@ =~= steps@[i as int]@);
            r.push(step);
            assert(rows(r@) =~= was.push(steps@[i as int]@));
        }
    }
    assert(all.take(all.len() as int) == all);
    r
}

/// The path of the file that a reference in the directory `base` means.
pub fn join_epub_path(base: &str, href: &str) -> (r: String)
    ensures
        r@ == epub_path(base@, href@),
{
    let v = chars_of(href);
    let clean = cut_fragment(v.as_slice());
    let whole: Vec<char> = if clean.len() > 0 && clean[0] == '/' {
        let mut i: usize = 0;
        assert(clean@.skip(0) =~= clean@);
        while i < clean.len() && clean[i] == '/'
            invariant
                i <= clean@.len(),
                without_slashes(clean@.skip(i as int)) == without_slashes(clean@),
            decreases clean@.len() - i,
        {
            assert(clean@.skip(i as int).drop_first() =~= clean@.skip(i + 1));
            i = i + 1;
        }
        let mut rest: Vec<char> = Vec::new();
        let tail = vstd::slice::slice_subrange(clean.as_slice(), i, clean.len());
        push_all(&mut rest, tail);
        assert(rest@ =~= clean@.skip(i as int));
        rest
    } else {
        let relative = string_of(clean.as_slice());
        let text = join_path(base, relative.as_str());
        chars_of(text.as_str())
    };
    let steps = split_chars(whole.as_slice(), '/');
    let left = resolve(steps);
    let mut slash: Vec<char> = Vec::new();
    slash.push('/');
    proof {
        reveal_strlit("/");
    }
    assert(slash@ =~= "/"@);
    let path = join_rows(&left, slash.as_slice());
    string_of(path.as_slice())
}

// ── Opening ──────────────────────────────────────────────────────────────────

/// The bytes of a file of a book; or why they cannot be had.
pub open spec fn file_bytes(data: Seq<u8>, path: Seq<char>) -> Result<Seq<u8>, Seq<char>> {
    match entry_data(data, path) {
        Ok(bytes) => Ok(bytes),
        Err(EntryErrorView::NotFound(e)) => Err("entry "@ + path + " not found in epub: "@ + e),
        Err(EntryErrorView::Unreadable(e)) => Err("failed to read "@ + path + ": "@ + e),
    }
}

/// The path of the package document of a book; or why it has none.
pub open spec fn opf_path(data: Seq<u8>) -> Result<Seq<char>, Seq<char>> {
    match file_bytes(data, "META-INF/container.xml"@) {
        Err(e) => Err("missing container.xml: "@ + e),
        Ok(bytes) => match rootfile(document_nodes(lossy_text(bytes), true)) {
            Some(p) => Ok(p),
            None => Err("no <rootfile> found in container.xml"@),
        },
    }
}

/// The images that can be had of those that a chapter in the directory `dir`
/// refers to.
pub open spec fn images_at(data: Seq<u8>, dir: Seq<char>, srcs: Seq<Seq<char>>) -> Seq<BlockView>
    decreases srcs.len(),
{
    if srcs.len() == 0 {
        Seq::empty()
    } else {
        match file_bytes(data, epub_path(dir, srcs.last())) {
            Ok(bytes) => images_at(data, dir, srcs.drop_last()).push(BlockView::Image(bytes)),
            Err(_) => images_at(data, dir, srcs.drop_last()),
        }
    }
}

/// The text of the first heading.
pub open spec fn first_heading(blocks: Seq<BlockView>) -> Option<Seq<char>>
    decreases blocks.len(),
{
    if blocks.len() == 0 {
        None
    } else {
        match blocks[0] {
            BlockView::Heading(_, t) => Some(t),
            _ => first_heading(blocks.drop_first()),
        }
    }
}

/// The chapter in a file, as the chapter with the given number: its text, and
/// behind it its images. Its title is its first heading, or else its number.
pub open spec fn chapter_in(
    data: Seq<u8>,
    path: Seq<char>,
    bytes: Seq<u8>,
    number: nat,
) -> EpubChapterView {
    let doc = document_nodes(lossy_text(bytes), false);
    let blocks = body_blocks(doc) + images_at(data, parent_of(path), body_images(doc));
    EpubChapterView {
        title: match first_heading(blocks) {
            Some(t) => t,
            None => "Chapter "@ + decimal(number),
        },
        blocks,
    }
}

/// The chapters that can be had of those that a spine names.
pub open spec fn chapters_at(
    data: Seq<u8>,
    dir: Seq<char>,
    manifest: Seq<(Seq<char>, Seq<char>)>,
    spine: Seq<Seq<char>>,
) -> Seq<EpubChapterView>
    decreases spine.len(),
{
    if spine.len() == 0 {
        Seq::empty()
    } else {
        let rest = chapters_at(data, dir, manifest, spine.drop_last());
        match last_value(manifest, spine.last()) {
            None => rest,
            Some(href) => match file_bytes(data, epub_path(dir, href)) {
                Ok(bytes) => rest.push(
                    chapter_in(data, epub_path(dir, href), bytes, rest.len() + 1),
                ),
                Err(_) => rest,
            },
        }
    }
}

/// The cover of a book, if the book names one and it can be had.
pub open spec fn cover_at(
    data: Seq<u8>,
    dir: Seq<char>,
    manifest: Seq<(Seq<char>, Seq<char>)>,
    cover_id: Option<Seq<char>>,
) -> Option<Seq<u8>> {
    match cover_id {
        None => None,
        Some(id) => match last_value(manifest, id) {
            None => None,
            Some(href) => match file_bytes(data, epub_path(dir, href)) {
                Ok(bytes) => Some(bytes),
                Err(_) => None,
            },
        },
    }
}

/// The book in a file's bytes; or why there is none.
pub open spec fn book_in(path: Seq<char>, data: Seq<u8>) -> Result<BookView, Seq<char>> {
    if archive_refusal(data) is Some {
        Err("failed to read epub "@ + path + ": "@ + archive_refusal(data)->0)
    } else {
        match opf_path(data) {
            Err(e) => Err(e),
            Ok(opf) => match file_bytes(data, opf) {
                Err(e) => Err(e),
                Ok(bytes) => {
                    let doc = document_nodes(lossy_text(bytes), true);
                    let dir = parent_of(opf);
                    let chapters = chapters_at(data, dir, opf_manifest(doc), opf_spine(doc));
                    if chapters.len() == 0 {
                        Err("no readable chapters found in "@ + path)
                    } else {
                        Ok(
                            BookView {
                                title: if opf_title(doc).len() == 0 {
                                    without_extension(file_name_text(path))
                                } else {
                                    opf_title(doc)
                                },
                                author: opf_author(doc),
                                cover: cover_at(data, dir, opf_manifest(doc), opf_cover(doc)),
                                chapters,
                            },
                        )
                    }
                },
            },
        }
    }
}

/// The bytes of a file of a book.
fn read_zip_bytes(zip: &mut ZipArchive<Cursor<Vec<u8>>>, path: &str) -> (r: Result<Vec<u8>, String>)
    ensures
        archive_bytes(*final(zip)) == archive_bytes(*old(zip)),
        match r {
            Ok(bytes) => file_bytes(archive_bytes(*old(zip)), path@) == Ok::<Seq<u8>, Seq<char>>(
                bytes@,
            ),
            Err(e) => file_bytes(archive_bytes(*old(zip)), path@) == Err::<Seq<u8>, Seq<char>>(e@),
        },
{
    match read_entry(zip, path) {
        Ok(bytes) => Ok(bytes),
        Err(EntryError::NotFound(e)) => {
            let mut t = concat3("entry ", path, " not found in epub: ");
            t.append(e.as_str());
            Err(t)
        },
        Err(EntryError::Unreadable(e)) => {
            let mut t = concat3("failed to read ", path, ": ");
            t.append(e.as_str());
            Err(t)
        },
    }
}

/// The path of the package document of a book.
fn find_opf_path(zip: &mut ZipArchive<Cursor<Vec<u8>>>) -> (r: Result<String, String>)
    ensures
        archive_bytes(*final(zip)) == archive_bytes(*old(zip)),
        match r {
            Ok(p) => opf_path(archive_bytes(*old(zip))) == Ok::<Seq<char>, Seq<char>>(p@),
            Err(e) => opf_path(archive_bytes(*old(zip))) == Err::<Seq<char>, Seq<char>>(e@),
        },
{
    match read_zip_bytes(zip, "META-INF/container.xml") {
        Err(e) => {
            let mut t = "missing container.xml: ".to_owned();
            t.append(e.as_str());
            Err(t)
        },
        Ok(bytes) => {
            let xml = text_from_bytes(bytes.as_slice());
            let doc = read_nodes(xml.as_str(), true);
            match find_rootfile(&doc) {
                Some(p) => Ok(p),
                None => Err("no <rootfile> found in container.xml".to_owned()),
            }
        },
    }
}

/// Adds to a chapter in the directory `dir` the images that it refers to.
fn add_images(
    zip: &mut ZipArchive<Cursor<Vec<u8>>>,
    dir: &str,
    srcs: &Vec<String>,
    blocks: &mut Vec<Block>,
)
    ensures
        archive_bytes(*final(zip)) == archive_bytes(*old(zip)),
        block_views(final(blocks)@) == block_views(old(blocks)@) + images_at(
            archive_bytes(*old(zip)),
            dir@,
            texts(srcs@),
        ),
{
    let ghost data = archive_bytes(*zip);
    let ghost all = texts(srcs@);
    let ghost before = block_views(blocks@);
    for i in 0..srcs.len()
        invariant
            all == texts(srcs@),
            archive_bytes(*zip) == data,
            block_views(blocks@) == before + images_at(data, dir@, all.take(i as int)),
    {
        let ghost was = block_views(blocks@);
        assert(all.take(i + 1).drop_last() =~= all.take(i as int));
        assert(all.take(i + 1).last() == srcs@[i as int]@);
        let path = join_epub_path(dir, srcs[i].as_str());
        if let Ok(bytes) = read_zip_bytes(zip, path.as_str()) {
            let block = Block::Image(bytes);
            blocks.push(block);
            assert(block_views(blocks@) =~= was.push(block@));
        }
        assert(block_views(blocks@) =~= before + images_at(data, dir@, all.take(i + 1)));
    }
    assert(all.take(all.len() as int) == all);
}

/// The text of the first heading.
fn find_heading(blocks: &Vec<Block>) -> (r: Option<String>)
    ensures
        match r {
            Some(t) => first_heading(block_views(blocks@)) == Some(t@),
            None => first_heading(block_views(blocks@)) is None,
        },
{
    let ghost all = block_views(blocks@);
    assert(all.skip(0) =~= all);
    for i in 0..blocks.len()
        invariant
            all == block_views(blocks@),
            first_heading(all) == first_heading(all.skip(i as int)),
    {
        assert(all.skip(i as int).drop_first() =~= all.skip(i + 1));
        assert(all.skip(i as int)[0] == blocks@[i as int]@);
        if let Block::Heading(_, t) = &blocks[i] {
            return Some(t.clone());
        }
    }
    assert(all.skip(all.len() as int).len() == 0);
    None
}

/// The chapter in a file, as the chapter with the given number.
fn read_chapter(
    zip: &mut ZipArchive<Cursor<Vec<u8>>>,
    path: &str,
    bytes: Vec<u8>,
    number: u64,
) -> (r: EpubChapter)
    ensures
        archive_bytes(*final(zip)) == archive_bytes(*old(zip)),
        r@ == chapter_in(archive_bytes(*old(zip)), path@, bytes@, number as nat),
{
    let xhtml = text_from_bytes(bytes.as_slice());
    let doc = read_nodes(xhtml.as_str(), false);
    let (mut blocks, srcs) = parse_xhtml_body(&doc);
    let dir = parent_path(path);
    add_images(zip, dir.as_str(), &srcs, &mut blocks);
    let title = match find_heading(&blocks) {
        Some(t) => t,
        None => {
            let mut t = "Chapter ".to_owned();
            let n = decimal_text(number as u128);
            t.append(n.as_str());
            t
        },
    };
    EpubChapter { title, blocks }
}

/// The chapters that can be had of those that a spine names.
fn read_chapters(
    zip: &mut ZipArchive<Cursor<Vec<u8>>>,
    dir: &str,
    manifest: &Vec<(String, String)>,
    spine: &Vec<String>,
) -> (r: Vec<EpubChapter>)
    ensures
        archive_bytes(*final(zip)) == archive_bytes(*old(zip)),
        epub_chapter_views(r@) == chapters_at(
            archive_bytes(*old(zip)),
            dir@,
            pairs(manifest@),
            texts(spine@),
        ),
{
    let ghost data = archive_bytes(*zip);
    let ghost all = texts(spine@);
    let mut r: Vec<EpubChapter> = Vec::new();
    assert(epub_chapter_views(r@) =~= Seq::empty());
    for i in 0..spine.len()
        invariant
            all == texts(spine@),
            archive_bytes(*zip) == data,
            r@.len() <= i,
            epub_chapter_views(r@) == chapters_at(data, dir@, pairs(manifest@), all.take(i as int)),
    {
        let ghost was = epub_chapter_views(r@);
        assert(all.take(i + 1).drop_last() =~= all.take(i as int));
        assert(all.take(i + 1).last() == spine@[i as int]@);
        if let Some(href) = find_last(manifest, spine[i].as_str()) {
            let path = join_epub_path(dir, href.as_str());
            if let Ok(bytes) = read_zip_bytes(zip, path.as_str()) {
                let number: u64 = r.len() as u64 + 1;
                let chapter = read_chapter(zip, path.as_str(), bytes, number);
                r.push(chapter);
                assert(epub_chapter_views(r@) =~= was.push(chapter@));
            }
        }
    }
    assert(all.take(all.len() as int) == all);
    r
}

/// The cover of a book, if the book names one and it can be had.
fn read_cover(
    zip: &mut ZipArchive<Cursor<Vec<u8>>>,
    dir: &str,
    manifest: &Vec<(String, String)>,
    cover_id: &Option<String>,
) -> (r: Option<Vec<u8>>)
    ensures
        archive_bytes(*final(zip)) == archive_bytes(*old(zip)),
        ({
            let c = cover_at(
                archive_bytes(*old(zip)),
                dir@,
                pairs(manifest@),
                crate::text::opt_text(*cover_id),
            );
            match r {
                Some(bytes) => c == Some(bytes@),
                None => c is None,
            }
        }),
{
    match cover_id {
        None => None,
        Some(id) => match find_last(manifest, id.as_str()) {
            None => None,
            Some(href) => {
                let path = join_epub_path(dir, href.as_str());
                match read_zip_bytes(zip, path.as_str()) {
                    Ok(bytes) => Some(bytes),
                    Err(_) => None,
                }
            },
        },
    }
}

/// Opens the book at a path from the bytes of its file.
pub fn open(path: &str, data: Vec<u8>) -> (r: Result<EpubBook, String>)
    ensures
        match r {
            Ok(book) => book_in(path@, data@) == Ok::<BookView, Seq<char>>(book@),
            Err(e) => book_in(path@, data@) == Err::<BookView, Seq<char>>(e@),
        },
{
    let mut zip = match open_archive(data) {
        Ok(zip) => zip,
        Err(e) => {
            let mut t = concat3("failed to read epub ", path, ": ");
            t.append(e.as_str());
            return Err(t);
        },
    };
    let opf = match find_opf_path(&mut zip) {
        Ok(p) => p,
        Err(e) => {
            return Err(e);
        },
    };
    let bytes = match read_zip_bytes(&mut zip, opf.as_str()) {
        Ok(b) => b,
        Err(e) => {
            return Err(e);
        },
    };
    let dir = parent_path(opf.as_str());
    let xml = text_from_bytes(bytes.as_slice());
    let doc = read_nodes(xml.as_str(), true);
    let package = parse_opf(&doc);
    let cover = read_cover(&mut zip, dir.as_str(), &package.manifest, &package.cover_id);
    let chapters = read_chapters(&mut zip, dir.as_str(), &package.manifest, &package.spine);
    assert(epub_chapter_views(chapters@).len() == chapters@.len());
    if chapters.len() == 0 {
        let mut t = "no readable chapters found in ".to_owned();
        t.append(path);
        return Err(t);
    }
    let letters = chars_of(package.title.as_str());
    let title = if letters.len() == 0 {
        match file_stem(path) {
            Some(s) => s,
            None => String::new(),
        }
    } else {
        package.title
    };
    assert(letters@.len() == 0 ==> title@ =~= without_extension(file_name_text(path@)));
    Ok(EpubBook { title, author: package.author, cover, chapters })
}

// ── Laws ─────────────────────────────────────────────────────────────────────

/// The heading that is found is the first one.
proof fn found_heading_is_first(blocks: Seq<BlockView>, k: int)
    ensures
        0 <= k < blocks.len() && blocks[k] is Heading && (forall|j: int|
            0 <= j < k ==> !((#[trigger] blocks[j]) is Heading)) ==> first_heading(blocks) == Some(
            blocks[k]->Heading_1,
        ),
        (forall|j: int| 0 <= j < blocks.len() ==> !((#[trigger] blocks[j]) is Heading))
            ==> first_heading(blocks) is None,
    decreases blocks.len(),
{
    if blocks.len() > 0 && !(blocks[0] is Heading) {
        let rest = blocks.drop_first();
        found_heading_is_first(rest, k - 1);
        if 0 <= k < blocks.len() && blocks[k] is Heading && (forall|j: int|
            0 <= j < k ==> !((#[trigger] blocks[j]) is Heading)) {
            assert(rest[k - 1] == blocks[k]);
            assert forall|j: int| 0 <= j < k - 1 implies !((#[trigger] rest[j]) is Heading) by {
                assert(rest[j] == blocks[j + 1]);
            }
        }
        if forall|j: int| 0 <= j < blocks.len() ==> !((#[trigger] blocks[j]) is Heading) {
            assert forall|j: int| 0 <= j < rest.len() implies !((#[trigger] rest[j]) is Heading) by {
                assert(rest[j] == blocks[j + 1]);
            }
        }
    }
}

/// A chapter is named by the first heading in it, of whatever level; one without a
/// heading is named by its place among the chapters, counted from one.
pub proof fn chapters_are_named_by_their_first_heading(
    data: Seq<u8>,
    dir: Seq<char>,
    manifest: Seq<(Seq<char>, Seq<char>)>,
    spine: Seq<Seq<char>>,
    i: int,
    k: int,
)
    requires
        0 <= i < chapters_at(data, dir, manifest, spine).len(),
    ensures
        ({
            let c = chapters_at(data, dir, manifest, spine)[i];
            &&& 0 <= k < c.blocks.len() && c.blocks[k] is Heading && (forall|j: int|
                0 <= j < k ==> !((#[trigger] c.blocks[j]) is Heading)) ==> c.title
                == c.blocks[k]->Heading_1
            &&& (forall|j: int| 0 <= j < c.blocks.len() ==> !((#[trigger] c.blocks[j]) is Heading))
                ==> c.title == "Chapter "@ + decimal((i + 1) as nat)
        }),
    decreases spine.len(),
{
    let rest = chapters_at(data, dir, manifest, spine.drop_last());
    let c = chapters_at(data, dir, manifest, spine)[i];
    if i < rest.len() {
        chapters_are_named_by_their_first_heading(data, dir, manifest, spine.drop_last(), i, k);
    } else {
        found_heading_is_first(c.blocks, k);
    }
}

/// The chapters of a book that can be opened are named by their first headings, or
/// else by their places, counted from one; and there is at least one.
pub proof fn chapters_of_a_book_are_named(path: Seq<char>, data: Seq<u8>, i: int, k: int)
    requires
        book_in(path, data) matches Ok(book) && 0 <= i < book.chapters.len(),
    ensures
        book_in(path, data) matches Ok(book) && {
            let c = book.chapters[i];
            &&& 0 <= k < c.blocks.len() && c.blocks[k] is Heading && (forall|j: int|
                0 <= j < k ==> !((#[trigger] c.blocks[j]) is Heading)) ==> c.title
                == c.blocks[k]->Heading_1
            &&& (forall|j: int| 0 <= j < c.blocks.len() ==> !((#[trigger] c.blocks[j]) is Heading))
                ==> c.title == "Chapter "@ + decimal((i + 1) as nat)
        },
{
    let opf = opf_path(data)->Ok_0;
    let doc = document_nodes(lossy_text(file_bytes(data, opf)->Ok_0), true);
    chapters_are_named_by_their_first_heading(
        data,
        parent_of(opf),
        opf_manifest(doc),
        opf_spine(doc),
        i,
        k,
    );
}

/// Whether an identifier of the spine leads to a file that can be read.
pub open spec fn readable(
    data: Seq<u8>,
    dir: Seq<char>,
    manifest: Seq<(Seq<char>, Seq<char>)>,
    id: Seq<char>,
) -> bool {
    exists|k: int|
        0 <= k < manifest.len() && (#[trigger] manifest[k]).0 == id && (forall|j: int|
            k < j < manifest.len() ==> (#[trigger] manifest[j]).0 != id) && entry_data(
            data,
            epub_path(dir, manifest[k].1),
        ) is Ok
}

/// Whether a chapter can be read.
proof fn readable_chapters(
    data: Seq<u8>,
    dir: Seq<char>,
    manifest: Seq<(Seq<char>, Seq<char>)>,
    id: Seq<char>,
)
    ensures
        readable(data, dir, manifest, id) <==> (last_value(manifest, id) matches Some(href)
            && file_bytes(data, epub_path(dir, href)) is Ok),
{
    if last_value(manifest, id) is Some {
        let k = last_place_of(manifest, id);
        assert(manifest[k].0 == id);
        assert forall|l: int|
            0 <= l < manifest.len() && (#[trigger] manifest[l]).0 == id && (forall|j: int|
                l < j < manifest.len() ==> (#[trigger] manifest[j]).0 != id) implies l == k by {
            if l < k {
                assert(manifest[k].0 != id);
            }
        }
    } else {
        no_value(manifest, id);
    }
}

/// Where the last value under a key stands.
proof fn last_place_of(list: Seq<(Seq<char>, Seq<char>)>, key: Seq<char>) -> (k: int)
    requires
        last_value(list, key) is Some,
    ensures
        0 <= k < list.len(),
        list[k].0 == key,
        last_value(list, key) == Some(list[k].1),
        forall|j: int| k < j < list.len() ==> (#[trigger] list[j]).0 != key,
    decreases list.len(),
{
    if list.last().0 == key {
        list.len() - 1
    } else {
        let k = last_place_of(list.drop_last(), key);
        assert forall|j: int| k < j < list.len() implies (#[trigger] list[j]).0 != key by {
            if j < list.len() - 1 {
                assert(list.drop_last()[j].0 != key);
            }
        }
        k
    }
}

/// Where there is no value under a key.
proof fn no_value(list: Seq<(Seq<char>, Seq<char>)>, key: Seq<char>)
    requires
        last_value(list, key) is None,
    ensures
        forall|j: int| 0 <= j < list.len() ==> (#[trigger] list[j]).0 != key,
    decreases list.len(),
{
    if list.len() > 0 {
        no_value(list.drop_last(), key);
        assert forall|j: int| 0 <= j < list.len() implies (#[trigger] list[j]).0 != key by {
            if j < list.len() - 1 {
                assert(list.drop_last()[j].0 != key);
            }
        }
    }
}

/// Of several values under one key, the last is the one that counts, or the first:
/// no later one, or no earlier one, has the key; and there is none only if no pair
/// has the key.
pub proof fn values_are_found_by_their_keys(
    list: Seq<(Seq<char>, Seq<char>)>,
    key: Seq<char>,
    k: int,
)
    ensures
        0 <= k < list.len() && list[k].0 == key && (forall|j: int|
            k < j < list.len() ==> (#[trigger] list[j]).0 != key) ==> last_value(list, key) == Some(
            list[k].1,
        ),
        0 <= k < list.len() && list[k].0 == key && (forall|j: int|
            0 <= j < k ==> (#[trigger] list[j]).0 != key) ==> first_value(list, key) == Some(
            list[k].1,
        ),
        (forall|j: int| 0 <= j < list.len() ==> (#[trigger] list[j]).0 != key) ==> last_value(
            list,
            key,
        ) is None && first_value(list, key) is None,
    decreases list.len(),
{
    if last_value(list, key) is Some {
        let l = last_place_of(list, key);
        assert(list[l].0 == key);
    } else {
        no_value(list, key);
    }
    first_is(list, key, k);
}

/// The value found first.
proof fn first_is(list: Seq<(Seq<char>, Seq<char>)>, key: Seq<char>, k: int)
    ensures
        0 <= k < list.len() && list[k].0 == key && (forall|j: int|
            0 <= j < k ==> (#[trigger] list[j]).0 != key) ==> first_value(list, key) == Some(
            list[k].1,
        ),
        (forall|j: int| 0 <= j < list.len() ==> (#[trigger] list[j]).0 != key) ==> first_value(
            list,
            key,
        ) is None,
    decreases list.len(),
{
    if list.len() > 0 && list[0].0 != key {
        let rest = list.drop_first();
        first_is(rest, key, k - 1);
        assert forall|j: int| 0 <= j < rest.len() implies rest[j] == list[j + 1] by {}
        if 0 <= k < list.len() && list[k].0 == key && (forall|j: int|
            0 <= j < k ==> (#[trigger] list[j]).0 != key) {
            assert forall|j: int| 0 <= j < k - 1 implies (#[trigger] rest[j]).0 != key by {
                assert(list[j + 1].0 != key);
            }
        }
        if forall|j: int| 0 <= j < list.len() ==> (#[trigger] list[j]).0 != key {
            assert forall|j: int| 0 <= j < rest.len() implies (#[trigger] rest[j]).0 != key by {
                assert(list[j + 1].0 != key);
            }
        }
    }
}

/// A book has a chapter for every identifier of its spine that leads to a file that
/// can be read, in the order of the spine, and no other; what a chapter's text makes
/// of it comes first, and its images stand behind.
pub proof fn a_chapter_for_each_readable_file(
    data: Seq<u8>,
    dir: Seq<char>,
    manifest: Seq<(Seq<char>, Seq<char>)>,
    spine: Seq<Seq<char>>,
    i: int,
)
    requires
        0 <= i < spine.len(),
    ensures
        chapters_at(data, dir, manifest, spine).len() == spine.filter(
            |id: Seq<char>| readable(data, dir, manifest, id),
        ).len(),
        forall|k: int|
            0 <= k < manifest.len() && (#[trigger] manifest[k]).0 == spine[i] && (forall|j: int|
                k < j < manifest.len() ==> (#[trigger] manifest[j]).0 != spine[i]) && entry_data(
                data,
                epub_path(dir, manifest[k].1),
            ) is Ok ==> {
                let c = chapters_at(data, dir, manifest, spine)[spine.take(i).filter(
                    |id: Seq<char>| readable(data, dir, manifest, id),
                ).len() as int];
                let doc = document_nodes(
                    lossy_text(entry_data(data, epub_path(dir, manifest[k].1))->Ok_0),
                    false,
                );
                c.blocks == body_blocks(doc) + images_at(
                    data,
                    parent_of(epub_path(dir, manifest[k].1)),
                    body_images(doc),
                )
            },
    decreases spine.len(),
{
    let few = spine.drop_last();
    let p = |id: Seq<char>| readable(data, dir, manifest, id);
    let all = chapters_at(data, dir, manifest, spine);
    let rest = chapters_at(data, dir, manifest, few);
    readable_chapters(data, dir, manifest, spine.last());
    chapters_counted(data, dir, manifest, spine);
    chapters_counted(data, dir, manifest, few);
    if i < few.len() {
        a_chapter_for_each_readable_file(data, dir, manifest, few, i);
        assert(few.take(i) =~= spine.take(i));
        assert(few[i] == spine[i]);
        assert forall|k: int|
            0 <= k < manifest.len() && (#[trigger] manifest[k]).0 == spine[i] && (forall|j: int|
                k < j < manifest.len() ==> (#[trigger] manifest[j]).0 != spine[i]) && entry_data(
                data,
                epub_path(dir, manifest[k].1),
            ) is Ok implies all[few.take(i).filter(p).len() as int] == rest[few.take(i).filter(
            p,
        ).len() as int] by {
            assert(readable(data, dir, manifest, few[i]));
            fewer_ahead(few, p, i);
        }
    } else {
        assert(spine.take(i) =~= few);
        assert forall|k: int|
            0 <= k < manifest.len() && (#[trigger] manifest[k]).0 == spine[i] && (forall|j: int|
                k < j < manifest.len() ==> (#[trigger] manifest[j]).0 != spine[i]) && entry_data(
                data,
                epub_path(dir, manifest[k].1),
            ) is Ok implies last_value(manifest, spine.last()) == Some(manifest[k].1) by {
            values_are_found_by_their_keys(manifest, spine.last(), k);
        }
    }
}

/// Ahead of an item that passes, fewer pass than in all.
proof fn fewer_ahead(s: Seq<Seq<char>>, p: spec_fn(Seq<char>) -> bool, i: int)
    requires
        0 <= i < s.len(),
        p(s[i]),
    ensures
        s.take(i).filter(p).len() < s.filter(p).len(),
    decreases s.len(),
{
    reveal(Seq::filter);
    if i < s.len() - 1 {
        assert(s.drop_last().take(i) =~= s.take(i));
        fewer_ahead(s.drop_last(), p, i);
    } else {
        assert(s.take(i) =~= s.drop_last());
    }
}

/// How many chapters there are.
proof fn chapters_counted(
    data: Seq<u8>,
    dir: Seq<char>,
    manifest: Seq<(Seq<char>, Seq<char>)>,
    spine: Seq<Seq<char>>,
)
    ensures
        chapters_at(data, dir, manifest, spine).len() == spine.filter(
            |id: Seq<char>| readable(data, dir, manifest, id),
        ).len(),
    decreases spine.len(),
{
    reveal(Seq::filter);
    if spine.len() > 0 {
        readable_chapters(data, dir, manifest, spine.last());
        chapters_counted(data, dir, manifest, spine.drop_last());
    }
}

/// The images of a chapter are those of its references that can be read, in their
/// order.
pub proof fn images_fall_apart(data: Seq<u8>, dir: Seq<char>, a: Seq<Seq<char>>, src: Seq<char>, b: Seq<Seq<char>>)
    ensures
        images_at(data, dir, a + b) == images_at(data, dir, a) + images_at(data, dir, b),
        images_at(data, dir, seq![src]) == (match entry_data(data, epub_path(dir, src)) {
            Ok(bytes) => seq![BlockView::Image(bytes)],
            Err(_) => Seq::empty(),
        }),
    decreases b.len(),
{
    let one = seq![src];
    assert(one.drop_last() =~= Seq::empty());
    assert(images_at(data, dir, one.drop_last()) =~= Seq::empty());
    assert(images_at(data, dir, one) =~= (match entry_data(data, epub_path(dir, src)) {
        Ok(bytes) => seq![BlockView::Image(bytes)],
        Err(_) => Seq::empty(),
    }));
    if b.len() == 0 {
        assert(a + b =~= a);
        assert(images_at(data, dir, a) + images_at(data, dir, b) =~= images_at(data, dir, a));
    } else {
        images_fall_apart(data, dir, a, src, b.drop_last());
        assert((a + b).drop_last() =~= a + b.drop_last());
        assert((a + b).last() == b.last());
        assert(images_at(data, dir, a + b) =~= images_at(data, dir, a) + images_at(data, dir, b));
    }
}

/// Whether a node is a tag of this name that is closed at once.
pub open spec fn closed_tag(n: NodeView, element: Seq<char>) -> bool {
    n matches NodeView::Tag { empty: true, name, .. } && name == element
}

/// A package document is read node by node: the items and the spine of a document are
/// those of its parts, one after the other. An `item` with an identifier and a
/// reference is one item, an `itemref` adds the identifiers that it refers to, and no
/// other node adds anything.
pub proof fn packages_are_read_node_by_node(a: Seq<NodeView>, n: NodeView, b: Seq<NodeView>)
    ensures
        opf_manifest(a + b) == opf_manifest(a) + opf_manifest(b),
        opf_spine(a + b) == opf_spine(a) + opf_spine(b),
        !closed_tag(n, "item"@) ==> opf_manifest(seq![n]).len() == 0,
        !closed_tag(n, "itemref"@) ==> opf_spine(seq![n]).len() == 0,
        forall|i: int, j: int|
            closed_tag(n, "item"@) && 0 <= i < n->attributes.len() && 0 <= j < n->attributes.len()
                && (#[trigger] n->attributes[i]).0 == "id"@ && (#[trigger] n->attributes[j]).0
                == "href"@ && (forall|k: int|
                0 <= k < n->attributes.len() && k != i ==> (#[trigger] n->attributes[k]).0 != "id"@)
                && (forall|k: int|
                0 <= k < n->attributes.len() && k != j ==> (#[trigger] n->attributes[k]).0
                    != "href"@) ==> opf_manifest(seq![n]) == seq![
                (n->attributes[i].1, n->attributes[j].1),
            ],
        forall|i: int|
            closed_tag(n, "itemref"@) && 0 <= i < n->attributes.len() && (
            #[trigger] n->attributes[i]).0 == "idref"@ && (forall|k: int|
                0 <= k < n->attributes.len() && k != i ==> (#[trigger] n->attributes[k]).0
                    != "idref"@) ==> opf_spine(seq![n]) == seq![n->attributes[i].1],
    decreases b.len(),
{
    let one = seq![n];
    assert(one.drop_last() =~= Seq::empty());
    assert(opf_manifest(one.drop_last()) =~= Seq::empty());
    assert(opf_spine(one.drop_last()) =~= Seq::empty());
    if let NodeView::Tag { empty: true, name, attributes } = n {
        assert forall|i: int, j: int|
            closed_tag(n, "item"@) && 0 <= i < attributes.len() && 0 <= j < attributes.len() && (
            #[trigger] attributes[i]).0 == "id"@ && (#[trigger] attributes[j]).0 == "href"@ && (
            forall|k: int|
                0 <= k < attributes.len() && k != i ==> (#[trigger] attributes[k]).0 != "id"@) && (
            forall|k: int|
                0 <= k < attributes.len() && k != j ==> (#[trigger] attributes[k]).0
                    != "href"@) implies opf_manifest(seq![n]) == seq![
            (attributes[i].1, attributes[j].1),
        ] by {
            values_are_found_by_their_keys(attributes, "id"@, i);
            values_are_found_by_their_keys(attributes, "href"@, j);
            assert(opf_manifest(one) =~= seq![(attributes[i].1, attributes[j].1)]);
        }
        assert forall|i: int|
            closed_tag(n, "itemref"@) && 0 <= i < attributes.len() && (#[trigger] attributes[i]).0
                == "idref"@ && (forall|k: int|
                0 <= k < attributes.len() && k != i ==> (#[trigger] attributes[k]).0
                    != "idref"@) implies opf_spine(seq![n]) == seq![attributes[i].1] by {
            one_value_under(attributes, "idref"@, "idref"@, i);
            assert(opf_spine(one) =~= seq![attributes[i].1]);
        }
    }
    if b.len() == 0 {
        assert(a + b =~= a);
        assert(opf_manifest(a) + opf_manifest(b) =~= opf_manifest(a));
        assert(opf_spine(a) + opf_spine(b) =~= opf_spine(a));
    } else {
        packages_are_read_node_by_node(a, n, b.drop_last());
        assert((a + b).drop_last() =~= a + b.drop_last());
        assert((a + b).last() == b.last());
        assert(opf_manifest(a + b) =~= opf_manifest(a) + opf_manifest(b));
        assert(opf_spine(a + b) =~= opf_spine(a) + opf_spine(b));
    }
}

/// The values under keys, where one pair alone has such a key.
proof fn one_value_under(
    list: Seq<(Seq<char>, Seq<char>)>,
    key: Seq<char>,
    other: Seq<char>,
    i: int,
)
    requires
        0 <= i < list.len(),
        list[i].0 == key || list[i].0 == other,
        forall|k: int|
            0 <= k < list.len() && k != i ==> (#[trigger] list[k]).0 != key && list[k].0 != other,
    ensures
        values_under(list, key, other) == seq![list[i].1],
    decreases list.len(),
{
    let rest = list.drop_last();
    if i < rest.len() {
        assert forall|k: int| 0 <= k < rest.len() && k != i implies (#[trigger] rest[k]).0 != key
            && rest[k].0 != other by {
            assert(list[k].0 != key);
        }
        one_value_under(rest, key, other, i);
        assert(list[list.len() - 1].0 != key);
    } else {
        assert forall|k: int| 0 <= k < rest.len() implies (#[trigger] rest[k]).0 != key
            && rest[k].0 != other by {
            assert(list[k].0 != key);
        }
        no_value_under(rest, key, other);
        assert(values_under(list, key, other) =~= seq![list[i].1]);
    }
}

/// The values under keys that no pair has.
proof fn no_value_under(list: Seq<(Seq<char>, Seq<char>)>, key: Seq<char>, other: Seq<char>)
    requires
        forall|k: int| 0 <= k < list.len() ==> (#[trigger] list[k]).0 != key && list[k].0 != other,
    ensures
        values_under(list, key, other) == Seq::<Seq<char>>::empty(),
    decreases list.len(),
{
    if list.len() > 0 {
        let rest = list.drop_last();
        assert(list[list.len() - 1].0 != key);
        assert forall|k: int| 0 <= k < rest.len() implies (#[trigger] rest[k]).0 != key
            && rest[k].0 != other by {
            assert(list[k].0 != key);
        }
        no_value_under(rest, key, other);
    }
}

/// The title of a book is the text within its `title`, its author that within its
/// `creator`; whatever stands around them, and further nodes that are no text, change
/// nothing.
pub proof fn titles_and_authors_are_read(
    doc: Seq<NodeView>,
    attributes: Seq<(Seq<char>, Seq<char>)>,
    t: Seq<char>,
    more: Seq<NodeView>,
)
    requires
        forall|i: int| 0 <= i < more.len() ==> !((#[trigger] more[i]) is Text),
    ensures
        opf_title(
            doc + seq![
                NodeView::Tag { empty: false, name: "title"@, attributes },
                NodeView::Text(t),
                NodeView::End("title"@),
            ] + more,
        ) == t,
        !is_open(doc, "title"@) ==> opf_author(
            doc + seq![
                NodeView::Tag { empty: false, name: "creator"@, attributes },
                NodeView::Text(t),
                NodeView::End("creator"@),
            ] + more,
        ) == Some(t) && opf_title(
            doc + seq![
                NodeView::Tag { empty: false, name: "creator"@, attributes },
                NodeView::Text(t),
                NodeView::End("creator"@),
            ] + more,
        ) == opf_title(doc),
        (forall|i: int| 0 <= i < doc.len() ==> !((#[trigger] doc[i]) is Text)) ==> opf_title(
            doc,
        ).len() == 0 && opf_author(doc) is None,
{
    reveal_strlit("title");
    reveal_strlit("creator");
    assert("title"@.len() != "creator"@.len());
    let title = seq![
        NodeView::Tag { empty: false, name: "title"@, attributes },
        NodeView::Text(t),
        NodeView::End("title"@),
    ];
    let open = doc.push(title[0]);
    let filled = open.push(title[1]);
    let closed = filled.push(title[2]);
    assert(open.drop_last() =~= doc);
    assert(filled.drop_last() =~= open);
    assert(closed.drop_last() =~= filled);
    assert(doc + title =~= closed);
    assert(is_open(open, "title"@));
    assert(opf_title(filled) == t);
    assert(opf_title(closed) == opf_title(filled));
    no_text_behind(closed, more);
    let creator = seq![
        NodeView::Tag { empty: false, name: "creator"@, attributes },
        NodeView::Text(t),
        NodeView::End("creator"@),
    ];
    let open = doc.push(creator[0]);
    let filled = open.push(creator[1]);
    let closed = filled.push(creator[2]);
    assert(open.drop_last() =~= doc);
    assert(filled.drop_last() =~= open);
    assert(closed.drop_last() =~= filled);
    assert(doc + creator =~= closed);
    assert(is_open(open, "creator"@));
    assert(is_open(open, "title"@) == is_open(doc, "title"@));
    if !is_open(doc, "title"@) {
        assert(opf_author(filled) == Some(t));
        assert(opf_title(filled) == opf_title(open));
        assert(opf_title(open) == opf_title(doc));
        assert(opf_title(closed) == opf_title(filled));
    }
    no_text_behind(closed, more);
    if forall|i: int| 0 <= i < doc.len() ==> !((#[trigger] doc[i]) is Text) {
        let none = Seq::<NodeView>::empty();
        no_text_behind(none, doc);
        assert(none + doc =~= doc);
    }
}

/// Nodes that are no text change neither title nor author.
proof fn no_text_behind(doc: Seq<NodeView>, more: Seq<NodeView>)
    requires
        forall|i: int| 0 <= i < more.len() ==> !((#[trigger] more[i]) is Text),
    ensures
        opf_title(doc + more) == opf_title(doc),
        opf_author(doc + more) == opf_author(doc),
    decreases more.len(),
{
    if more.len() == 0 {
        assert(doc + more =~= doc);
    } else {
        let rest = more.drop_last();
        assert((doc + more).drop_last() =~= doc + rest);
        assert(!(more[more.len() - 1] is Text));
        assert forall|i: int| 0 <= i < rest.len() implies !((#[trigger] rest[i]) is Text) by {
            assert(rest[i] == more[i]);
        }
        no_text_behind(doc, rest);
    }
}

/// The package document is the one that the first `rootfile` with a path names,
/// whatever stands behind it; nodes of other names do not matter.
pub proof fn the_first_rootfile_counts(
    before: Seq<NodeView>,
    empty: bool,
    path: Seq<char>,
    behind: Seq<NodeView>,
)
    requires
        forall|i: int|
            0 <= i < before.len() ==> !((#[trigger] before[i]) is Tag) || before[i]->name
                != "rootfile"@,
    ensures
        rootfile(
            before + seq![
                NodeView::Tag { empty, name: "rootfile"@, attributes: seq![("full-path"@, path)] },
            ] + behind,
        ) == Some(path),
        rootfile(before) is None,
    decreases before.len(),
{
    let tag = NodeView::Tag { empty, name: "rootfile"@, attributes: seq![("full-path"@, path)] };
    let doc = before + seq![tag] + behind;
    if before.len() == 0 {
        assert(doc[0] == tag);
    } else {
        let rest = before.drop_first();
        assert(doc[0] == before[0]);
        assert(doc.drop_first() =~= rest + seq![tag] + behind);
        assert forall|i: int| 0 <= i < rest.len() implies !((#[trigger] rest[i]) is Tag)
            || rest[i]->name != "rootfile"@ by {
            assert(rest[i] == before[i + 1]);
        }
        the_first_rootfile_counts(rest, empty, path, behind);
    }
}

/// What names the cover last counts: an item with the property `cover-image` or a
/// `meta` named `cover`; every other node leaves it as it was.
pub proof fn the_last_cover_counts(
    doc: Seq<NodeView>,
    attributes: Seq<(Seq<char>, Seq<char>)>,
    n: NodeView,
    i: int,
    j: int,
    k: int,
)
    requires
        0 <= i < attributes.len(),
        0 <= j < attributes.len(),
        0 <= k < attributes.len(),
    ensures
        attributes[i].0 == "id"@ && attributes[j].0 == "href"@ && attributes[k].0 == "properties"@
            && contains_text(attributes[k].1, "cover-image"@) && (forall|l: int|
            i < l < attributes.len() ==> (#[trigger] attributes[l]).0 != "id"@) ==> opf_cover(
            doc.push(NodeView::Tag { empty: true, name: "item"@, attributes }),
        ) == Some(attributes[i].1),
        attributes[i].0 == "name"@ && attributes[i].1 == "cover"@ && attributes[j].0 == "content"@
            && (forall|l: int|
            j < l < attributes.len() ==> (#[trigger] attributes[l]).0 != "content"@) ==> opf_cover(
            doc.push(NodeView::Tag { empty: true, name: "meta"@, attributes }),
        ) == Some(attributes[j].1),
        !closed_tag(n, "item"@) && !closed_tag(n, "meta"@) ==> opf_cover(doc.push(n)) == opf_cover(
            doc,
        ),
        (forall|l: int| 0 <= l < attributes.len() ==> (#[trigger] attributes[l]).0 != "properties"@)
            ==> opf_cover(doc.push(NodeView::Tag { empty: true, name: "item"@, attributes }))
            == opf_cover(doc),
        (forall|l: int| 0 <= l < attributes.len() ==> (#[trigger] attributes[l]).0 != "name"@)
            ==> opf_cover(doc.push(NodeView::Tag { empty: true, name: "meta"@, attributes }))
            == opf_cover(doc),
        opf_cover(Seq::<NodeView>::empty()) is None,
{
    let item = NodeView::Tag { empty: true, name: "item"@, attributes };
    let meta = NodeView::Tag { empty: true, name: "meta"@, attributes };
    assert(doc.push(item).drop_last() =~= doc);
    assert(doc.push(meta).drop_last() =~= doc);
    assert(doc.push(n).drop_last() =~= doc);
    reveal_strlit("item");
    reveal_strlit("meta");
    assert("item"@[0] != "meta"@[0]);
    values_are_found_by_their_keys(attributes, "id"@, i);
    values_are_found_by_their_keys(attributes, "content"@, j);
    if attributes[j].0 == "href"@ {
        if last_value(attributes, "href"@) is None {
            no_value(attributes, "href"@);
            assert(attributes[j].0 != "href"@);
        }
    }
}

/// What picks a place within a file, from the first `#` or `?` on, is no part of the
/// file's path.
pub proof fn places_are_cut_off(path: Seq<char>, mark: char, place: Seq<char>)
    requires
        !path.contains('#'),
        !path.contains('?'),
        mark == '#' || mark == '?',
    ensures
        without_fragment(path) == path,
        without_fragment(path + seq![mark] + place) == path,
        forall|base: Seq<char>|
            #[trigger] epub_path(base, path + seq![mark] + place) == epub_path(base, path),
    decreases path.len(),
{
    let s = path + seq![mark] + place;
    if path.len() == 0 {
        assert(s[0] == mark);
        assert(without_fragment(path) =~= path);
    } else {
        let rest = path.drop_first();
        assert(path.contains(path[0]));
        assert(s.drop_first() =~= rest + seq![mark] + place);
        assert(!rest.contains('#') && !rest.contains('?')) by {
            assert forall|i: int| 0 <= i < rest.len() implies (#[trigger] rest[i]) != '#' && rest[i]
                != '?' by {
                assert(path.contains(path[i + 1]));
            }
        }
        places_are_cut_off(rest, mark, place);
        assert(seq![path[0]] + rest =~= path);
    }
}

/// What is left of steps depends on what is left of the ones ahead.
proof fn resolved_goes_on(a: Seq<Seq<char>>, b: Seq<Seq<char>>, c: Seq<Seq<char>>)
    requires
        resolved(a) == resolved(b),
    ensures
        resolved(a + c) == resolved(b + c),
    decreases c.len(),
{
    if c.len() == 0 {
        assert(a + c =~= a);
        assert(b + c =~= b);
    } else {
        assert((a + c).drop_last() =~= a + c.drop_last());
        assert((b + c).drop_last() =~= b + c.drop_last());
        assert((a + c).last() == c.last() && (b + c).last() == c.last());
        resolved_goes_on(a, b, c.drop_last());
    }
}

/// A step and the step back from it take each other away, steps that stay where they
/// are do not matter, no step leads out of the book, and steps that are plain names
/// stay.
pub proof fn steps_back_take_steps_away(a: Seq<Seq<char>>, x: Seq<char>, b: Seq<Seq<char>>)
    requires
        x.len() > 0,
        x != seq!['.'],
        x != seq!['.', '.'],
    ensures
        resolved(a + seq![x, seq!['.', '.']] + b) == resolved(a + b),
        resolved(a + seq![seq!['.']] + b) == resolved(a + b),
        resolved(a + seq![Seq::<char>::empty()] + b) == resolved(a + b),
        resolved(seq![seq!['.', '.']] + b) == resolved(b),
        resolved(a.push(x)) == resolved(a).push(x),
        resolved(Seq::<Seq<char>>::empty()).len() == 0,
{
    assert(here() != up()) by {
        assert(here().len() != up().len());
    }
    let one = a.push(x);
    let two = one.push(up());
    assert(one.drop_last() =~= a);
    assert(two.drop_last() =~= one);
    assert(resolved(one) == resolved(a).push(x));
    assert(resolved(two) =~= resolved(a));
    assert(a + seq![x, seq!['.', '.']] =~= two);
    resolved_goes_on(two, a, b);
    let stay = a + seq![seq!['.']];
    assert(stay.drop_last() =~= a);
    assert(stay.last() == here());
    assert(resolved(stay) == resolved(a));
    resolved_goes_on(stay, a, b);
    let none = a + seq![Seq::<char>::empty()];
    assert(none.drop_last() =~= a);
    assert(resolved(none) == resolved(a));
    resolved_goes_on(none, a, b);
    let out = seq![seq!['.', '.']];
    let start = Seq::<Seq<char>>::empty();
    assert(out.drop_last() =~= start);
    assert(out.last() == up());
    assert(resolved(start) =~= start);
    assert(resolved(out) =~= start);
    resolved_goes_on(out, start, b);
    assert(start + b =~= b);
}

/// A reference from a directory leads below that directory; one with a slash at its
/// front leads from the top of the book, whichever directory it stands in.
pub proof fn references_lead_from_their_directory(base: Seq<char>, href: Seq<char>)
    requires
        !href.contains('#'),
        !href.contains('?'),
    ensures
        base.len() > 0 && base.last() != '/' && (href.len() == 0 || href[0] != '/') ==> epub_steps(
            base,
            href,
        ) == resolved(split_on(base, '/') + split_on(href, '/')),
        href.len() == 0 || href[0] != '/' ==> epub_steps(base, seq!['/'] + href) == resolved(
            split_on(href, '/'),
        ),
        href.len() == 0 || href[0] != '/' ==> epub_steps(Seq::empty(), href) == resolved(
            split_on(href, '/'),
        ),
{
    places_are_cut_off(href, '#', Seq::empty());
    let rooted = seq!['/'] + href;
    assert(!rooted.contains('#') && !rooted.contains('?')) by {
        assert forall|i: int| 0 <= i < rooted.len() implies (#[trigger] rooted[i]) != '#'
            && rooted[i] != '?' by {
            if i > 0 {
                assert(href.contains(href[i - 1]));
            }
        }
    }
    places_are_cut_off(rooted, '#', Seq::empty());
    assert(rooted.drop_first() =~= href);
    assert(without_slashes(rooted) == without_slashes(href));
    crate::text::pieces_fall_apart_at_a_separator(base, '/', href);
}

/// What kind of block an element holds.
pub proof fn the_elements_that_hold_blocks(d: char, name: Seq<char>)
    ensures
        '1' <= d && d <= '6' ==> block_kind(seq!['h', d]) == Some(
            BlockKind::Heading((d as int - '0' as int) as u8),
        ),
        block_kind(seq!['p']) == Some(BlockKind::Paragraph),
        block_kind(seq!['d', 'i', 'v']) == Some(BlockKind::Paragraph),
        block_kind("blockquote"@) == Some(BlockKind::Quote),
        block_kind(seq!['l', 'i']) == Some(BlockKind::ListItem),
        block_kind(name) matches Some(BlockKind::Heading(level)) ==> name.len() == 2 && name[0]
            == 'h' && name[1] as int == '0' as int + level && 1 <= level <= 6,
        block_kind(name) == Some(BlockKind::Paragraph) ==> name == seq!['p'] || name == seq![
            'd',
            'i',
            'v',
        ],
        block_kind(name) == Some(BlockKind::Quote) ==> name == "blockquote"@,
        block_kind(name) == Some(BlockKind::ListItem) ==> name == seq!['l', 'i'],
{
    reveal_strlit("h1");
    reveal_strlit("h2");
    reveal_strlit("h3");
    reveal_strlit("h4");
    reveal_strlit("h5");
    reveal_strlit("h6");
    reveal_strlit("p");
    reveal_strlit("div");
    reveal_strlit("blockquote");
    reveal_strlit("li");
    assert("h1"@ =~= seq!['h', '1']);
    assert("h2"@ =~= seq!['h', '2']);
    assert("h3"@ =~= seq!['h', '3']);
    assert("h4"@ =~= seq!['h', '4']);
    assert("h5"@ =~= seq!['h', '5']);
    assert("h6"@ =~= seq!['h', '6']);
    assert("p"@ =~= seq!['p']);
    assert("div"@ =~= seq!['d', 'i', 'v']);
    assert("li"@ =~= seq!['l', 'i']);
    let h = seq!['h', d];
    assert(h[0] == 'h' && h[1] == d);
    assert(seq!['h', '1'][1] == '1' && seq!['h', '2'][1] == '2' && seq!['h', '3'][1] == '3');
    assert(seq!['h', '4'][1] == '4' && seq!['h', '5'][1] == '5' && seq!['h', '6'][1] == '6');
    assert(seq!['p'].len() == 1 && seq!['d', 'i', 'v'].len() == 3 && seq!['l', 'i'][0] == 'l');
    assert("blockquote"@.len() == 10);
}

/// The blocks of a chapter, where they are not text within a block: an element of
/// another name does not end a block, and text outside all blocks is not shown.
pub proof fn other_elements_do_not_end_a_block(doc: Seq<NodeView>, n: NodeView)
    requires
        match n {
            NodeView::Tag { empty, name, attributes } => block_kind(name) is None && name != "br"@,
            NodeView::End(name) => block_kind(name) is None,
            NodeView::Text(_) => body_of(doc).current is None,
            NodeView::Other => true,
        },
    ensures
        body_of(doc.push(n)) == body_of(doc),
        body_blocks(doc.push(n)) == body_blocks(doc),
{
    assert(doc.push(n).drop_last() =~= doc);
}

/// Two texts within one block are parted by a blank, or by a line break where one
/// stands between them.
pub proof fn texts_of_a_block_are_parted(
    doc: Seq<NodeView>,
    name: Seq<char>,
    attributes: Seq<(Seq<char>, Seq<char>)>,
    a: Seq<char>,
    b: Seq<char>,
)
    requires
        block_kind(name) is Some,
        crate::text::bare(a),
        crate::text::bare(b),
        a.len() > 0,
        b.len() > 0,
    ensures
        body_blocks(
            doc.push(NodeView::Tag { empty: false, name, attributes }).push(
                NodeView::Text(a),
            ).push(NodeView::Text(b)),
        ) == body_blocks(doc).push(text_block(block_kind(name)->0, a + seq![' '] + b)),
        body_blocks(
            doc.push(NodeView::Tag { empty: false, name, attributes }).push(
                NodeView::Text(a),
            ).push(
                NodeView::Tag { empty: true, name: "br"@, attributes: Seq::empty() },
            ).push(NodeView::Text(b)),
        ) == body_blocks(doc).push(text_block(block_kind(name)->0, a + seq!['\n'] + b)),
{
    let none = Seq::<char>::empty();
    crate::text::trim_takes_the_space_around(none, a, none);
    crate::text::trim_takes_the_space_around(none, b, none);
    assert(none + a + none =~= a);
    assert(none + b + none =~= b);
    the_elements_that_hold_blocks('1', "br"@);
    reveal_strlit("br");
    reveal_strlit("blockquote");
    assert("br"@[0] == 'b' && "br"@.len() == 2 && "blockquote"@.len() == 10);
    assert(block_kind("br"@) is None) by {
        assert(seq!['p'].len() == 1 && seq!['d', 'i', 'v'].len() == 3 && seq!['l', 'i'][0] == 'l');
    }
    let open = doc.push(NodeView::Tag { empty: false, name, attributes });
    let one = open.push(NodeView::Text(a));
    let two = one.push(NodeView::Text(b));
    let line = one.push(NodeView::Tag { empty: true, name: "br"@, attributes: Seq::empty() });
    let both = line.push(NodeView::Text(b));
    assert(open.drop_last() =~= doc);
    assert(one.drop_last() =~= open);
    assert(two.drop_last() =~= one);
    assert(line.drop_last() =~= one);
    assert(both.drop_last() =~= line);
    assert(body_of(open) == body_step(body_of(doc), open.last()));
    assert(body_of(one) == body_step(body_of(open), NodeView::Text(a)));
    assert(body_of(one).text =~= a);
    assert(body_of(two) == body_step(body_of(one), NodeView::Text(b)));
    assert(body_of(two).text =~= a + seq![' '] + b);
    assert(body_of(line) == body_step(body_of(one), line.last()));
    assert(body_of(line).text =~= a + seq!['\n']);
    assert(body_of(both) == body_step(body_of(line), NodeView::Text(b)));
    assert(is_space('\n'));
    assert(body_of(both).text =~= a + seq!['\n'] + b);
    let x = a + seq![' '] + b;
    let y = a + seq!['\n'] + b;
    assert(x[0] == a[0] && x.last() == b.last() && y[0] == a[0] && y.last() == b.last());
    crate::text::trim_takes_the_space_around(none, x, none);
    crate::text::trim_takes_the_space_around(none, y, none);
    assert(none + x + none =~= x);
    assert(none + y + none =~= y);
}

/// The references to images are read in the order of the document: an `img` or an
/// `image` adds its `src` or `href`, and no other node adds anything.
pub proof fn image_references_are_read(
    doc: Seq<NodeView>,
    n: NodeView,
    attributes: Seq<(Seq<char>, Seq<char>)>,
    empty: bool,
    i: int,
)
    requires
        0 <= i < attributes.len(),
        attributes[i].0 == "src"@ || attributes[i].0 == "href"@,
        forall|k: int|
            0 <= k < attributes.len() && k != i ==> (#[trigger] attributes[k]).0 != "src"@
                && attributes[k].0 != "href"@,
    ensures
        body_images(doc.push(NodeView::Tag { empty, name: "img"@, attributes })) == body_images(
            doc,
        ).push(attributes[i].1),
        body_images(doc.push(NodeView::Tag { empty, name: "image"@, attributes })) == body_images(
            doc,
        ).push(attributes[i].1),
        !(n is Tag) || (n->name != "img"@ && n->name != "image"@) ==> body_images(doc.push(n))
            == body_images(doc),
{
    let img = doc.push(NodeView::Tag { empty, name: "img"@, attributes });
    let image = doc.push(NodeView::Tag { empty, name: "image"@, attributes });
    assert(img.drop_last() =~= doc);
    assert(image.drop_last() =~= doc);
    assert(doc.push(n).drop_last() =~= doc);
    one_value_under(attributes, "src"@, "href"@, i);
    assert(body_images(img) =~= body_images(doc).push(attributes[i].1));
    assert(body_images(image) =~= body_images(doc).push(attributes[i].1));
}

/// A book is named by its title, or after its file where it has none; its cover is the file
/// that its manifest has under the cover's identifier, if that can be read.
pub proof fn books_have_their_names_and_covers(
    data: Seq<u8>,
    dir: Seq<char>,
    manifest: Seq<(Seq<char>, Seq<char>)>,
    id: Seq<char>,
    k: int,
)
    ensures
        cover_at(data, dir, manifest, None) is None,
        0 <= k < manifest.len() && manifest[k].0 == id && (forall|j: int|
            k < j < manifest.len() ==> (#[trigger] manifest[j]).0 != id) ==> (match entry_data(
            data,
            epub_path(dir, manifest[k].1),
        ) {
            Ok(bytes) => cover_at(data, dir, manifest, Some(id)) == Some(bytes),
            Err(_) => cover_at(data, dir, manifest, Some(id)) is None,
        }),
        (forall|j: int| 0 <= j < manifest.len() ==> (#[trigger] manifest[j]).0 != id) ==> cover_at(
            data,
            dir,
            manifest,
            Some(id),
        ) is None,
{
    values_are_found_by_their_keys(manifest, id, k);
}

/// What a book says of itself is taken over: its title, or where it has none the name of its
/// file without the extension, and its author. A file that is no archive, names no package
/// document or has no chapter that can be read is no book.
pub proof fn a_book_says_what_it_is(path: Seq<char>, data: Seq<u8>)
    ensures
        archive_refusal(data) is Some ==> book_in(path, data) is Err,
        entry_data(data, "META-INF/container.xml"@) is Err ==> book_in(path, data) is Err,
        book_in(path, data) matches Ok(book) ==> {
            let opf = opf_path(data)->Ok_0;
            let doc = document_nodes(lossy_text(entry_data(data, opf)->Ok_0), true);
            &&& archive_refusal(data) is None
            &&& opf_path(data) is Ok
            &&& book.chapters.len() > 0
            &&& book.author == opf_author(doc)
            &&& opf_title(doc).len() > 0 ==> book.title == opf_title(doc)
            &&& opf_title(doc).len() == 0 ==> book.title == without_extension(file_name_text(path))
            &&& book.chapters == chapters_at(
                data,
                parent_of(opf),
                opf_manifest(doc),
                opf_spine(doc),
            )
            &&& book.cover == cover_at(data, parent_of(opf), opf_manifest(doc), opf_cover(doc))
        },
{
}

/// An element is open from its start tag to its end tag; a tag that is closed at once opens
/// nothing, and neither do other nodes.
pub proof fn elements_are_open_between_their_tags(
    doc: Seq<NodeView>,
    element: Seq<char>,
    attributes: Seq<(Seq<char>, Seq<char>)>,
    n: NodeView,
)
    ensures
        is_open(doc.push(NodeView::Tag { empty: false, name: element, attributes }), element),
        !is_open(doc.push(NodeView::End(element)), element),
        (match n {
            NodeView::Tag { empty, name, .. } => empty || name != element,
            NodeView::End(name) => name != element,
            _ => true,
        }) ==> is_open(doc.push(n), element) == is_open(doc, element),
        !is_open(Seq::<NodeView>::empty(), element),
{
    let tag = NodeView::Tag { empty: false, name: element, attributes };
    assert(doc.push(tag).drop_last() =~= doc);
    assert(doc.push(NodeView::End(element)).drop_last() =~= doc);
    assert(doc.push(n).drop_last() =~= doc);
}

/// Text within a title is never the author, text within neither is nothing of a book, and
/// of several titles or authors the last counts.
pub proof fn texts_count_where_they_stand(doc: Seq<NodeView>, t: Seq<char>)
    ensures
        is_open(doc, "title"@) ==> opf_title(doc.push(NodeView::Text(t))) == t && opf_author(
            doc.push(NodeView::Text(t)),
        ) == opf_author(doc),
        !is_open(doc, "title"@) && is_open(doc, "creator"@) ==> opf_author(
            doc.push(NodeView::Text(t)),
        ) == Some(t) && opf_title(doc.push(NodeView::Text(t))) == opf_title(doc),
        !is_open(doc, "title"@) && !is_open(doc, "creator"@) ==> opf_title(
            doc.push(NodeView::Text(t)),
        ) == opf_title(doc) && opf_author(doc.push(NodeView::Text(t))) == opf_author(doc),
{
    assert(doc.push(NodeView::Text(t)).drop_last() =~= doc);
}

/// The end of a block's element ends the block: text behind it, and ahead of the next block,
/// is not shown; and a block that another begins within is ended by it.
pub proof fn blocks_end_with_their_elements(
    doc: Seq<NodeView>,
    name: Seq<char>,
    attributes: Seq<(Seq<char>, Seq<char>)>,
    t: Seq<char>,
)
    requires
        block_kind(name) is Some,
    ensures
        body_of(doc.push(NodeView::End(name))).current is None,
        body_blocks(doc.push(NodeView::End(name))) == body_blocks(doc),
        body_blocks(doc.push(NodeView::End(name)).push(NodeView::Text(t))) == body_blocks(doc),
        body_blocks(doc.push(NodeView::Tag { empty: false, name, attributes })) == body_blocks(doc),
{
    let end = doc.push(NodeView::End(name));
    let more = end.push(NodeView::Text(t));
    let tag = NodeView::Tag { empty: false, name, attributes };
    let open = doc.push(tag);
    assert(end.drop_last() =~= doc);
    assert(more.drop_last() =~= end);
    assert(open.drop_last() =~= doc);
    assert(body_of(end) == body_step(body_of(doc), NodeView::End(name)));
    assert(body_of(more) == body_step(body_of(end), NodeView::Text(t)));
    assert(body_of(open) == body_step(body_of(doc), tag));
    let none = Seq::<char>::empty();
    crate::text::trim_takes_the_space_around(none, none, none);
    assert(none + none + none =~= none);
}

/// However many slashes stand ahead of a reference, they lead to the top of the book; and a
/// file's path is written with one slash between its directory and its name.
pub proof fn paths_in_a_book_are_written_with_slashes(
    base: Seq<char>,
    d: Seq<char>,
    n: Seq<char>,
    s: Seq<char>,
)
    requires
        crate::paths::proper_name(d),
        crate::paths::proper_name(n),
        !d.contains('#') && !d.contains('?'),
        !n.contains('#') && !n.contains('?'),
    ensures
        without_slashes(seq!['/'] + s) == without_slashes(s),
        epub_path(Seq::empty(), n) == n,
        epub_path(d, n) == d + seq!['/'] + n,
        epub_path(base, seq!['/'] + n) == n,
{
    reveal_strlit("/");
    assert("/"@ =~= seq!['/']);
    assert((seq!['/'] + s).drop_first() =~= s);
    assert(n[0] != '/') by {
        assert(n.contains(n[0]));
    }
    assert(d.last() != '/') by {
        assert(d.contains(d[d.len() - 1]));
    }
    crate::text::one_piece(n, '/');
    crate::text::one_piece(d, '/');
    references_lead_from_their_directory(base, n);
    references_lead_from_their_directory(Seq::empty(), n);
    references_lead_from_their_directory(d, n);
    let none = Seq::<Seq<char>>::empty();
    steps_back_take_steps_away(none, n, none);
    steps_back_take_steps_away(none, d, none);
    assert(none.push(n) =~= seq![n]);
    assert(none.push(d) =~= seq![d]);
    steps_back_take_steps_away(seq![d], n, none);
    assert(seq![d].push(n) =~= seq![d] + seq![n]);
    assert(resolved(none) =~= none);
    assert(resolved(seq![n]) =~= seq![n]);
    assert(resolved(seq![d]) =~= seq![d]);
    assert(resolved(seq![d] + seq![n]) =~= seq![d, n]);
    let two = seq![d, n];
    crate::text::joining_goes_on(seq![d], seq![n], "/"@);
    assert(seq![d] + seq![n] =~= two);
    assert(join(seq![n], "/"@) == n);
}

} // verus!
