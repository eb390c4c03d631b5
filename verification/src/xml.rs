//! XML documents as a list of nodes.
//!
//! Reading the markup is the work of `quick_xml`; what the library needs of a
//! document is the plain list of nodes that [`read_nodes`] makes of it.
use crate::text::{
    chars_of, lossy_text, opt_text, rows, split_chars, split_on, string_of, text_from_bytes,
};
use quick_xml::events::{BytesStart, Event};
use quick_xml::reader::Reader;
use vstd::prelude::*;

verus! {

// ── What the reader hands out ────────────────────────────────────────────────

/// One attribute as it stands in the markup: its raw key, and its value with
/// the entities resolved, or nothing where an entity is malformed.
pub struct RawAttribute {
    pub key: Vec<u8>,
    pub value: Option<String>,
}

/// One event of the reader.
pub enum RawEvent {
    Tag { empty: bool, name: Vec<u8>, tag: BytesStart<'static> },
    End(Vec<u8>),
    Text(Option<String>),
    Other,
}

/// The model of an event. What stands in place of an attribute and is none is
/// `None`.
pub enum RawView {
    Tag { empty: bool, name: Seq<u8>, attributes: Seq<Option<(Seq<u8>, Option<Seq<char>>)>> },
    End(Seq<u8>),
    Text(Option<Seq<char>>),
    Other,
}

/// The model of an attribute.
pub open spec fn raw_attribute(a: Option<RawAttribute>) -> Option<(Seq<u8>, Option<Seq<char>>)> {
    match a {
        Some(a) => Some((a.key@, crate::text::opt_text(a.value))),
        None => None,
    }
}

impl View for RawEvent {
    type V = RawView;

    open spec fn view(&self) -> RawView {
        match self {
            RawEvent::Tag { empty, name, tag } => RawView::Tag {
                empty: *empty,
                name: name@,
                attributes: tag_attributes(*tag),
            },
            RawEvent::End(name) => RawView::End(name@),
            RawEvent::Text(t) => RawView::Text(crate::text::opt_text(*t)),
            RawEvent::Other => RawView::Other,
        }
    }
}

/// Trusted: the reader type of `quick_xml`, opaque here.
#[verifier::external_type_specification]
#[verifier::external_body]
#[verifier::reject_recursive_types(R)]
pub struct ExReader<R>(quick_xml::reader::Reader<R>);

/// Trusted: the tag type of `quick_xml`, opaque here.
#[verifier::external_type_specification]
#[verifier::external_body]
pub struct ExBytesStart<'a>(quick_xml::events::BytesStart<'a>);

/// The name of the attributes that stand in a tag, in their order.
pub uninterp spec fn tag_attributes(tag: BytesStart<'static>) -> Seq<
    Option<(Seq<u8>, Option<Seq<char>>)>,
>;

/// Trusted: `quick_xml::events::BytesStart::attributes`, with each value
/// unescaped (`Attribute::unescape_value`). Keys are raw bytes.
#[verifier::external_body]
fn list_attributes(tag: &BytesStart<'static>) -> (r: Vec<Option<RawAttribute>>)
    ensures
        r@.map_values(|a: Option<RawAttribute>| raw_attribute(a)) == tag_attributes(*tag),
{
    tag.attributes()
        .map(|a| a.ok().map(|a| RawAttribute {
            key: a.key.as_ref().to_vec(),
            value: a.unescape_value().ok().map(|v| v.into_owned()),
        }))
        .collect()
}

/// The name of the events that a document consists of, up to its end or to
/// the first place where it is ill-formed. `check_end_names` says whether an
/// end tag that does not match its start tag counts as such a place. Text is
/// taken without the whitespace around it, and not at all where nothing else
/// is left.
pub uninterp spec fn document_events(xml: Seq<char>, check_end_names: bool) -> Seq<RawView>;

/// The name of the events that a reader has still to hand out before the end
/// of its document or the first ill-formed place.
pub uninterp spec fn pending_events(r: Reader<&[u8]>) -> Seq<RawView>;

/// Trusted: `quick_xml::Reader::from_str`, with text trimmed and the matching
/// of end tags switched as told. All events of the document are still to come.
#[verifier::external_body]
fn open_reader<'a>(xml: &'a str, check_end_names: bool) -> (r: Reader<&'a [u8]>)
    ensures
        pending_events(r) == document_events(xml@, check_end_names),
{
    let mut reader = Reader::from_str(xml);
    reader.config_mut().trim_text(true);
    reader.config_mut().check_end_names = check_end_names;
    reader
}

/// Trusted: `quick_xml::Reader::read_event_into`. It hands out the events one
/// after the other; `None` stands for the end of the document and for the
/// first error. There are finitely many events, since each takes up a part of
/// the document. Names are raw bytes; texts are unescaped
/// (`BytesText::unescape`).
#[verifier::external_body]
fn next_event(reader: &mut Reader<&[u8]>) -> (e: Option<RawEvent>)
    ensures
        match e {
            Some(e) => {
                &&& pending_events(*old(reader)).len() > 0
                &&& e@ == pending_events(*old(reader))[0]
                &&& pending_events(*final(reader)) == pending_events(*old(reader)).drop_first()
            },
            None => pending_events(*old(reader)).len() == 0,
        },
{
    let mut buf = Vec::new();
    let (empty, e) = match reader.read_event_into(&mut buf) {
        Ok(Event::Start(e)) => (false, e),
        Ok(Event::Empty(e)) => (true, e),
        Ok(Event::End(e)) => return Some(RawEvent::End(e.name().as_ref().to_vec())),
        Ok(Event::Text(t)) => return Some(RawEvent::Text(t.unescape().ok().map(|s| s.into_owned()))),
        Ok(Event::Eof) | Err(_) => return None,
        Ok(_) => return Some(RawEvent::Other),
    };
    Some(RawEvent::Tag { empty, name: e.name().as_ref().to_vec(), tag: e.into_owned() })
}

// ── Nodes ────────────────────────────────────────────────────────────────────

/// One node of a document, its names without their namespace prefixes.
pub enum Node {
    /// A start tag, or a tag that is closed at once, with its attributes.
    Tag { empty: bool, name: String, attributes: Vec<(String, String)> },
    /// An end tag.
    End(String),
    /// Text between tags.
    Text(String),
    /// Comments, declarations and the like.
    Other,
}

/// The model of a node.
pub enum NodeView {
    Tag { empty: bool, name: Seq<char>, attributes: Seq<(Seq<char>, Seq<char>)> },
    End(Seq<char>),
    Text(Seq<char>),
    Other,
}

/// The texts of a list of attributes.
pub open spec fn pairs(v: Seq<(String, String)>) -> Seq<(Seq<char>, Seq<char>)> {
    v.map_values(|p: (String, String)| (p.0@, p.1@))
}

impl View for Node {
    type V = NodeView;

    open spec fn view(&self) -> NodeView {
        match self {
            Node::Tag { empty, name, attributes } => NodeView::Tag {
                empty: *empty,
                name: name@,
                attributes: pairs(attributes@),
            },
            Node::End(name) => NodeView::End(name@),
            Node::Text(t) => NodeView::Text(t@),
            Node::Other => NodeView::Other,
        }
    }
}

/// The models of a list of nodes.
pub open spec fn nodes(v: Seq<Node>) -> Seq<NodeView> {
    v.map_values(|n: Node| n@)
}

/// A name without its namespace prefix: what stands behind its last colon.
pub open spec fn local_part(name: Seq<u8>) -> Seq<char> {
    split_on(lossy_text(name), ':').last()
}

/// The attributes that are well formed. A value whose entities cannot be
/// resolved counts as empty.
pub open spec fn clean_attributes(raw: Seq<Option<(Seq<u8>, Option<Seq<char>>)>>) -> Seq<
    (Seq<char>, Seq<char>),
>
    decreases raw.len(),
{
    if raw.len() == 0 {
        Seq::empty()
    } else {
        let before = clean_attributes(raw.drop_last());
        match raw.last() {
            Some((key, value)) => before.push(
                (
                    local_part(key),
                    match value {
                        Some(v) => v,
                        None => Seq::empty(),
                    },
                ),
            ),
            None => before,
        }
    }
}

/// The node that an event stands for.
pub open spec fn node_of(e: RawView) -> NodeView {
    match e {
        RawView::Tag { empty, name, attributes } => NodeView::Tag {
            empty,
            name: local_part(name),
            attributes: clean_attributes(attributes),
        },
        RawView::End(name) => NodeView::End(local_part(name)),
        RawView::Text(Some(t)) => NodeView::Text(t),
        RawView::Text(None) => NodeView::Text(Seq::empty()),
        RawView::Other => NodeView::Other,
    }
}

/// The nodes of a document.
pub open spec fn document_nodes(xml: Seq<char>, check_end_names: bool) -> Seq<NodeView> {
    document_events(xml, check_end_names).map_values(|e: RawView| node_of(e))
}

/// A name without its namespace prefix.
pub fn local_name_bytes(bytes: &[u8]) -> (r: String)
    ensures
        r@ == local_part(bytes@),
{
    let text = text_from_bytes(bytes);
    let v = chars_of(text.as_str());
    let pieces = split_chars(v.as_slice(), ':');
    assert(rows(pieces@).last() == pieces@.last()@);
    string_of(pieces[pieces.len() - 1].as_slice())
}

/// The text that an optional string holds; empty, where there is none.
fn or_empty(t: &Option<String>) -> (r: String)
    ensures
        r@ == (match opt_text(*t) {
            Some(s) => s,
            None => Seq::<char>::empty(),
        }),
{
    match t {
        Some(s) => s.clone(),
        None => String::new(),
    }
}

/// The node that an event stands for.
pub fn clean_event(e: RawEvent) -> (n: Node)
    ensures
        n@ == node_of(e@),
{
    match e {
        RawEvent::Tag { empty, name, tag } => {
            let attributes = list_attributes(&tag);
            let ghost raw = attributes@.map_values(|a: Option<RawAttribute>| raw_attribute(a));
            let mut list: Vec<(String, String)> = Vec::new();
            for i in 0..attributes.len()
                invariant
                    raw == attributes@.map_values(|a: Option<RawAttribute>| raw_attribute(a)),
                    pairs(list@) == clean_attributes(raw.take(i as int)),
            {
                assert(raw.take(i + 1).drop_last() == raw.take(i as int));
                let ghost before = list@;
                if let Some(a) = &attributes[i] {
                    list.push((local_name_bytes(a.key.as_slice()), or_empty(&a.value)));
                    assert(pairs(list@) =~= pairs(before).push((list@.last().0@, list@.last().1@)));
                }
            }
            assert(raw.take(raw.len() as int) == raw);
            Node::Tag { empty, name: local_name_bytes(name.as_slice()), attributes: list }
        },
        RawEvent::End(name) => Node::End(local_name_bytes(name.as_slice())),
        RawEvent::Text(t) => Node::Text(or_empty(&t)),
        RawEvent::Other => Node::Other,
    }
}

/// Reads a document into its nodes.
pub fn read_nodes(xml: &str, check_end_names: bool) -> (r: Vec<Node>)
    ensures
        nodes(r@) == document_nodes(xml@, check_end_names),
{
    let ghost all = document_nodes(xml@, check_end_names);
    let mut reader = open_reader(xml, check_end_names);
    let mut r: Vec<Node> = Vec::new();
    assert(nodes(r@) + pending_events(reader).map_values(|e: RawView| node_of(e)) =~= all);
    loop
        invariant_except_break
            nodes(r@) + pending_events(reader).map_values(|e: RawView| node_of(e)) == all,
        ensures
            nodes(r@) == all,
        decreases pending_events(reader).len(),
    {
        let ghost before = pending_events(reader).map_values(|e: RawView| node_of(e));
        let ghost r0 = r@;
        match next_event(&mut reader) {
            Some(e) => {
                let n = clean_event(e);
                r.push(n);
                assert(nodes(r@) =~= nodes(r0).push(before[0]));
                assert(nodes(r@) + pending_events(reader).map_values(|e: RawView| node_of(e))
                    =~= nodes(r0) + before);
            },
            None => {
                assert(nodes(r@) =~= all);
                break ;
            },
        }
    }
    r
}

// ── Laws ─────────────────────────────────────────────────────────────────────

/// A name counts without its namespace prefix: only what stands behind the last colon; a
/// name without one counts as it is.
pub proof fn prefixes_do_not_count(bytes: Seq<u8>, prefix: Seq<char>, name: Seq<char>)
    requires
        !name.contains(':'),
        lossy_text(bytes) == prefix + seq![':'] + name || lossy_text(bytes) == name,
    ensures
        local_part(bytes) == name,
{
    crate::text::pieces_fall_apart_at_a_separator(prefix, ':', name);
    crate::text::one_piece(name, ':');
}

/// The well-formed attributes of a tag are kept, in their order, under their names without
/// prefixes; what is no attribute is passed over, and a value that cannot be read counts as
/// empty.
pub proof fn attributes_are_kept_in_order(
    a: Seq<Option<(Seq<u8>, Option<Seq<char>>)>>,
    key: Seq<u8>,
    value: Seq<char>,
    b: Seq<Option<(Seq<u8>, Option<Seq<char>>)>>,
)
    ensures
        clean_attributes(a + b) == clean_attributes(a) + clean_attributes(b),
        clean_attributes(seq![Some((key, Some(value)))]) == seq![(local_part(key), value)],
        clean_attributes(seq![Some((key, None::<Seq<char>>))]) == seq![
            (local_part(key), Seq::<char>::empty()),
        ],
        clean_attributes(seq![None::<(Seq<u8>, Option<Seq<char>>)>]).len() == 0,
    decreases b.len(),
{
    let none = Seq::<Option<(Seq<u8>, Option<Seq<char>>)>>::empty();
    assert(clean_attributes(none) =~= Seq::empty());
    assert(seq![Some((key, Some(value)))].drop_last() =~= none);
    assert(seq![Some((key, None::<Seq<char>>))].drop_last() =~= none);
    assert(seq![None::<(Seq<u8>, Option<Seq<char>>)>].drop_last() =~= none);
    assert(clean_attributes(seq![Some((key, Some(value)))]) =~= seq![(local_part(key), value)]);
    assert(clean_attributes(seq![Some((key, None::<Seq<char>>))]) =~= seq![
        (local_part(key), Seq::<char>::empty()),
    ]);
    if b.len() == 0 {
        assert(a + b =~= a);
        assert(clean_attributes(a) + clean_attributes(b) =~= clean_attributes(a));
    } else {
        attributes_are_kept_in_order(a, key, value, b.drop_last());
        assert((a + b).drop_last() =~= a + b.drop_last());
        assert((a + b).last() == b.last());
        assert(clean_attributes(a + b) =~= clean_attributes(a) + clean_attributes(b));
    }
}

/// A document has a node for each of its events, of the same kind.
pub proof fn each_event_is_a_node(xml: Seq<char>, check: bool, i: int)
    requires
        0 <= i < document_events(xml, check).len(),
    ensures
        document_nodes(xml, check).len() == document_events(xml, check).len(),
        match document_events(xml, check)[i] {
            RawView::Tag { empty, name, attributes } => document_nodes(xml, check)[i] == (
            NodeView::Tag {
                empty,
                name: local_part(name),
                attributes: clean_attributes(attributes),
            }),
            RawView::End(name) => document_nodes(xml, check)[i] == NodeView::End(local_part(name)),
            RawView::Text(Some(t)) => document_nodes(xml, check)[i] == NodeView::Text(t),
            RawView::Text(None) => document_nodes(xml, check)[i] == NodeView::Text(Seq::empty()),
            RawView::Other => document_nodes(xml, check)[i] == NodeView::Other,
        },
{
}

} // verus!
