//! Parses the `ComicInfo.xml` sidecar that many .cbz and .cbr files embed (the
//! ComicRack/ComicTagger standard). When present it is free, offline and
//! authoritative.
use crate::number::{parse_i32, read_i32};
use crate::text::{
    all_space, bare, begins_with, chars_of, ends_with, find_at, finishes_with, first_at,
    first_at_is_first, is_space, occurs_at, opt_text, starts_with, string_of, trim,
    trim_takes_the_space_around, trimmed,
};
use vstd::prelude::*;
use vstd::slice::slice_subrange;

verus! {

/// The subset of the fields of a `ComicInfo.xml` that the library cares about.
#[derive(Debug, Clone)]
pub struct ComicInfo {
    pub series: Option<String>,
    pub number: Option<String>,
    pub volume: Option<String>,
    pub year: Option<i32>,
    pub summary: Option<String>,
    pub publisher: Option<String>,
    pub writer: Option<String>,
    pub genre: Option<String>,
}

impl Default for ComicInfo {
    fn default() -> (r: Self)
        ensures
            r.has_nothing(),
    {
        ComicInfo {
            series: None,
            number: None,
            volume: None,
            year: None,
            summary: None,
            publisher: None,
            writer: None,
            genre: None,
        }
    }
}

impl ComicInfo {
    /// Whether no field is present.
    pub open spec fn has_nothing(self) -> bool {
        nothing_in(self@)
    }

    /// Whether no field is present.
    pub fn is_empty(&self) -> (r: bool)
        ensures
            r == self.has_nothing(),
    {
        self.series.is_none() && self.number.is_none() && self.volume.is_none()
            && self.year.is_none() && self.summary.is_none() && self.publisher.is_none()
            && self.writer.is_none() && self.genre.is_none()
    }
}

/// The predefined entity of XML with which a text begins, if it begins with
/// one: how long it is, and the character that it stands for.
pub open spec fn entity_at_start(s: Seq<char>) -> Option<(int, char)> {
    if starts_with(s, "&amp;"@) {
        Some((5, '&'))
    } else if starts_with(s, "&lt;"@) {
        Some((4, '<'))
    } else if starts_with(s, "&gt;"@) {
        Some((4, '>'))
    } else if starts_with(s, "&quot;"@) {
        Some((6, '"'))
    } else if starts_with(s, "&apos;"@) {
        Some((6, '\''))
    } else {
        None
    }
}

/// A text with the five predefined entities of XML resolved, each of them once:
/// what an entity stands for is not read again.
pub open spec fn xml_unescaped(s: Seq<char>) -> Seq<char>
    decreases s.len(),
{
    if s.len() == 0 {
        s
    } else {
        proof {
            reveal_strlit("&amp;");
            reveal_strlit("&lt;");
            reveal_strlit("&gt;");
            reveal_strlit("&quot;");
            reveal_strlit("&apos;");
        }
        match entity_at_start(s) {
            Some((n, c)) => seq![c] + xml_unescaped(s.skip(n)),
            None => seq![s[0]] + xml_unescaped(s.drop_first()),
        }
    }
}

/// The text between the first `<name>` and the first `</name>` behind it.
pub open spec fn element_text(xml: Seq<char>, name: Seq<char>) -> Option<Seq<char>> {
    let open = "<"@ + name + ">"@;
    let close = "</"@ + name + ">"@;
    match first_at(xml, open, 0) {
        None => None,
        Some(i) => match first_at(xml, close, (i + open.len()) as int) {
            None => None,
            Some(j) => Some(xml.subrange((i + open.len()) as int, j)),
        },
    }
}

/// A trimmed text, taken out of its CDATA section if it is one.
pub open spec fn cdata_unwrapped(s: Seq<char>) -> Seq<char> {
    let head = "<![CDATA["@;
    let tail = "]]>"@;
    let inner = s.skip(head.len() as int);
    if starts_with(s, head) && ends_with(inner, tail) {
        trim(inner.take(inner.len() - tail.len()))
    } else {
        s
    }
}

/// The value of the element `name`: its text without the whitespace around
/// it, without a CDATA section around that, and with the entities resolved.
/// An element that is empty counts as missing.
pub open spec fn value_of(xml: Seq<char>, name: Seq<char>) -> Option<Seq<char>> {
    match element_text(xml, name) {
        None => None,
        Some(t) => {
            let raw = cdata_unwrapped(trim(t));
            if raw.len() == 0 {
                None
            } else {
                Some(xml_unescaped(raw))
            }
        },
    }
}

/// The number that the element `name` holds, if it holds one.
pub open spec fn number_of(xml: Seq<char>, name: Seq<char>) -> Option<int> {
    match value_of(xml, name) {
        None => None,
        Some(v) => read_i32(v),
    }
}

/// The predefined entity of XML with which a text begins, if it begins with
/// one.
fn starting_entity(v: &[char]) -> (r: Option<(usize, char)>)
    ensures
        match r {
            Some((n, c)) => entity_at_start(v@) == Some((n as int, c)) && 0 < n <= v@.len(),
            None => entity_at_start(v@) is None,
        },
{
    proof {
        reveal_strlit("&amp;");
        reveal_strlit("&lt;");
        reveal_strlit("&gt;");
        reveal_strlit("&quot;");
        reveal_strlit("&apos;");
    }
    if begins_with(v, "&amp;") {
        Some((5, '&'))
    } else if begins_with(v, "&lt;") {
        Some((4, '<'))
    } else if begins_with(v, "&gt;") {
        Some((4, '>'))
    } else if begins_with(v, "&quot;") {
        Some((6, '"'))
    } else if begins_with(v, "&apos;") {
        Some((6, '\''))
    } else {
        None
    }
}

/// Resolves the five predefined entities of XML, each of them once.
pub fn unescape(v: &[char]) -> (r: Vec<char>)
    ensures
        r@ == xml_unescaped(v@),
{
    let mut r: Vec<char> = Vec::new();
    let mut i: usize = 0;
    assert(v@.skip(0) == v@);
    while i < v.len()
        invariant
            i <= v@.len(),
            r@ + xml_unescaped(v@.skip(i as int)) == xml_unescaped(v@),
        decreases v@.len() - i,
    {
        let rest = slice_subrange(v, i, v.len());
        assert(rest@ == v@.skip(i as int));
        match starting_entity(rest) {
            Some((n, c)) => {
                assert(rest@.skip(n as int) == v@.skip(i + n));
                r.push(c);
                i = i + n;
            },
            None => {
                assert(rest@.drop_first() == v@.skip(i + 1));
                r.push(v[i]);
                i = i + 1;
            },
        }
    }
    assert(v@.skip(v@.len() as int) == Seq::<char>::empty());
    r
}

/// A trimmed text, taken out of its CDATA section if it is one.
fn unwrap_cdata(v: &[char]) -> (r: &[char])
    ensures
        r@ == cdata_unwrapped(v@),
{
    if begins_with(v, "<![CDATA[") {
        proof {
            reveal_strlit("<![CDATA[");
            reveal_strlit("]]>");
        }
        let inner = slice_subrange(v, 9, v.len());
        assert(inner@ == v@.skip(9));
        if finishes_with(inner, "]]>") {
            let body = slice_subrange(inner, 0, inner.len() - 3);
            assert(body@ == inner@.take(inner@.len() - 3));
            return trimmed(body);
        }
    }
    v
}

/// The value of the first element `name` of a flat document, with the entities
/// resolved and a CDATA section unwrapped.
pub fn tag(xml: &[char], name: &str) -> (r: Option<Vec<char>>)
    ensures
        match r {
            Some(v) => value_of(xml@, name@) == Some(v@),
            None => value_of(xml@, name@) is None,
        },
{
    let open_text = crate::text::concat3("<", name, ">");
    let close_text = crate::text::concat3("</", name, ">");
    let open = chars_of(open_text.as_str());
    let close = chars_of(close_text.as_str());
    match find_at(xml, open.as_slice(), 0) {
        None => None,
        Some(i) => {
            proof {
                first_at_is_first(xml@, open@, 0);
            }
            let len: usize = xml.len();
            assert(i + open@.len() <= len);
            let start: usize = i + open.len();
            match find_at(xml, close.as_slice(), start) {
                None => None,
                Some(end) => {
                    proof {
                        first_at_is_first(xml@, close@, start as int);
                    }
                    let raw = unwrap_cdata(trimmed(slice_subrange(xml, start, end)));
                    if raw.len() == 0 {
                        None
                    } else {
                        Some(unescape(raw))
                    }
                },
            }
        },
    }
}

/// The value of the element `name`, as a string.
fn text_field(xml: &[char], name: &str) -> (r: Option<String>)
    ensures
        opt_text(r) == value_of(xml@, name@),
{
    match tag(xml, name) {
        Some(v) => Some(string_of(v.as_slice())),
        None => None,
    }
}

/// The model of what a `ComicInfo.xml` says.
pub struct InfoView {
    pub series: Option<Seq<char>>,
    pub number: Option<Seq<char>>,
    pub volume: Option<Seq<char>>,
    pub year: Option<int>,
    pub summary: Option<Seq<char>>,
    pub publisher: Option<Seq<char>>,
    pub writer: Option<Seq<char>>,
    pub genre: Option<Seq<char>>,
}

impl View for ComicInfo {
    type V = InfoView;

    open spec fn view(&self) -> InfoView {
        InfoView {
            series: opt_text(self.series),
            number: opt_text(self.number),
            volume: opt_text(self.volume),
            year: match self.year {
                Some(y) => Some(y as int),
                None => None,
            },
            summary: opt_text(self.summary),
            publisher: opt_text(self.publisher),
            writer: opt_text(self.writer),
            genre: opt_text(self.genre),
        }
    }
}

/// Whether no field is present.
pub open spec fn nothing_in(v: InfoView) -> bool {
    &&& v.series is None
    &&& v.number is None
    &&& v.volume is None
    &&& v.year is None
    &&& v.summary is None
    &&& v.publisher is None
    &&& v.writer is None
    &&& v.genre is None
}

/// What a `ComicInfo.xml` says.
pub open spec fn info_of(xml: Seq<char>) -> InfoView {
    InfoView {
        series: value_of(xml, "Series"@),
        number: value_of(xml, "Number"@),
        volume: value_of(xml, "Volume"@),
        year: number_of(xml, "Year"@),
        summary: value_of(xml, "Summary"@),
        publisher: value_of(xml, "Publisher"@),
        writer: value_of(xml, "Writer"@),
        genre: value_of(xml, "Genre"@),
    }
}

/// Reads the fields of a `ComicInfo.xml`.
pub fn parse(xml: &str) -> (r: ComicInfo)
    ensures
        r@ == info_of(xml@),
{
    let chars = chars_of(xml);
    let v = chars.as_slice();
    let year: Option<i32> = match tag(v, "Year") {
        Some(y) => parse_i32(y.as_slice()),
        None => None,
    };
    ComicInfo {
        series: text_field(v, "Series"),
        number: text_field(v, "Number"),
        volume: text_field(v, "Volume"),
        year,
        summary: text_field(v, "Summary"),
        publisher: text_field(v, "Publisher"),
        writer: text_field(v, "Writer"),
        genre: text_field(v, "Genre"),
    }
}

// ── Laws ─────────────────────────────────────────────────────────────────────

/// Text without `&` is left alone, each of the five predefined entities becomes its
/// character, and an `&` that begins none of them stays.
pub proof fn entities_are_resolved(a: Seq<char>, s: Seq<char>)
    requires
        !a.contains('&'),
    ensures
        xml_unescaped(a + s) == a + xml_unescaped(s),
        xml_unescaped(a) == a,
        xml_unescaped(seq!['&', 'a', 'm', 'p', ';'] + s) == seq!['&'] + xml_unescaped(s),
        xml_unescaped(seq!['&', 'l', 't', ';'] + s) == seq!['<'] + xml_unescaped(s),
        xml_unescaped(seq!['&', 'g', 't', ';'] + s) == seq!['>'] + xml_unescaped(s),
        xml_unescaped(seq!['&', 'q', 'u', 'o', 't', ';'] + s) == seq!['"'] + xml_unescaped(s),
        xml_unescaped(seq!['&', 'a', 'p', 'o', 's', ';'] + s) == seq!['\''] + xml_unescaped(s),
        s.len() > 0 && s[0] != 'a' && s[0] != 'l' && s[0] != 'g' && s[0] != 'q' ==> xml_unescaped(
            seq!['&'] + s,
        ) == seq!['&'] + xml_unescaped(s),
{
    plain_stays(a, s);
    let none = Seq::<char>::empty();
    plain_stays(a, none);
    assert(a + none =~= a);
    assert(a + xml_unescaped(none) =~= a);
    reveal_strlit("&amp;");
    reveal_strlit("&lt;");
    reveal_strlit("&gt;");
    reveal_strlit("&quot;");
    reveal_strlit("&apos;");
    an_entity(seq!['&', 'a', 'm', 'p', ';'], '&', s);
    an_entity(seq!['&', 'l', 't', ';'], '<', s);
    an_entity(seq!['&', 'g', 't', ';'], '>', s);
    an_entity(seq!['&', 'q', 'u', 'o', 't', ';'], '"', s);
    an_entity(seq!['&', 'a', 'p', 'o', 's', ';'], '\'', s);
    if s.len() > 0 && s[0] != 'a' && s[0] != 'l' && s[0] != 'g' && s[0] != 'q' {
        let t = seq!['&'] + s;
        assert(t.drop_first() =~= s);
        no_entity(t);
    }
}

/// A text that no entity begins.
proof fn no_entity(t: Seq<char>)
    requires
        t.len() > 0,
        t[0] != '&' || (t.len() > 1 && t[1] != 'a' && t[1] != 'l' && t[1] != 'g' && t[1] != 'q'),
    ensures
        entity_at_start(t) is None,
{
    reveal_strlit("&amp;");
    reveal_strlit("&lt;");
    reveal_strlit("&gt;");
    reveal_strlit("&quot;");
    reveal_strlit("&apos;");
    assert forall|e: Seq<char>|
        #![trigger starts_with(t, e)]
        e.len() > 1 && e[0] == '&' && (e[1] == 'a' || e[1] == 'l' || e[1] == 'g' || e[1]
            == 'q') implies !starts_with(t, e) by {
        if starts_with(t, e) {
            assert(t.subrange(0, e.len() as int)[0] == t[0]);
            assert(t.subrange(0, e.len() as int)[1] == t[1]);
        }
    }
}

/// An entity at the front.
proof fn an_entity(e: Seq<char>, c: char, s: Seq<char>)
    requires
        (e == seq!['&', 'a', 'm', 'p', ';'] && c == '&') || (e == seq!['&', 'l', 't', ';'] && c
            == '<') || (e == seq!['&', 'g', 't', ';'] && c == '>') || (e == seq![
            '&',
            'q',
            'u',
            'o',
            't',
            ';',
        ] && c == '"') || (e == seq!['&', 'a', 'p', 'o', 's', ';'] && c == '\''),
    ensures
        xml_unescaped(e + s) == seq![c] + xml_unescaped(s),
{
    reveal_strlit("&amp;");
    reveal_strlit("&lt;");
    reveal_strlit("&gt;");
    reveal_strlit("&quot;");
    reveal_strlit("&apos;");
    assert("&amp;"@ =~= seq!['&', 'a', 'm', 'p', ';']);
    assert("&lt;"@ =~= seq!['&', 'l', 't', ';']);
    assert("&gt;"@ =~= seq!['&', 'g', 't', ';']);
    assert("&quot;"@ =~= seq!['&', 'q', 'u', 'o', 't', ';']);
    assert("&apos;"@ =~= seq!['&', 'a', 'p', 'o', 's', ';']);
    let t = e + s;
    assert(t.subrange(0, e.len() as int) =~= e);
    assert(starts_with(t, e));
    assert forall|f: Seq<char>|
        #![trigger starts_with(t, f)]
        f.len() > 2 && (f[1] != e[1] || f[2] != e[2]) implies !starts_with(t, f) by {
        if starts_with(t, f) {
            assert(t.subrange(0, f.len() as int)[1] == t[1]);
            assert(t.subrange(0, f.len() as int)[2] == t[2]);
        }
    }
    assert(t.skip(e.len() as int) =~= s);
}

/// Text without `&` stays.
proof fn plain_stays(a: Seq<char>, s: Seq<char>)
    requires
        !a.contains('&'),
    ensures
        xml_unescaped(a + s) == a + xml_unescaped(s),
    decreases a.len(),
{
    if a.len() == 0 {
        assert(a + s =~= s);
        assert(a + xml_unescaped(s) =~= xml_unescaped(s));
    } else {
        let rest = a.drop_first();
        let t = a + s;
        assert(a.contains(a[0]));
        assert(t.drop_first() =~= rest + s);
        assert(!rest.contains('&')) by {
            if rest.contains('&') {
                let k = choose|k: int| 0 <= k < rest.len() && rest[k] == '&';
                assert(a[k + 1] == '&');
            }
        }
        plain_stays(rest, s);
        no_entity(t);
        assert(seq![a[0]] + (rest + xml_unescaped(s)) =~= a + xml_unescaped(s));
    }
}

/// The element `name` of a document is what stands between its first start tag and
/// the end tag behind it.
proof fn the_element(
    before: Seq<char>,
    name: Seq<char>,
    t: Seq<char>,
    behind: Seq<char>,
)
    requires
        !t.contains('<'),
        forall|j: int|
            0 <= j < before.len() ==> !occurs_at(
                before + ("<"@ + name + ">"@) + t + ("</"@ + name + ">"@) + behind,
                "<"@ + name + ">"@,
                j,
            ),
    ensures
        element_text(
            before + ("<"@ + name + ">"@) + t + ("</"@ + name + ">"@) + behind,
            name,
        ) == Some(t),
{
    let open = "<"@ + name + ">"@;
    let close = "</"@ + name + ">"@;
    let xml = before + open + t + close + behind;
    reveal_strlit("</");
    let at = before.len() as int;
    let start = at + open.len();
    let end = start + t.len();
    assert(xml.subrange(at, at + open.len()) =~= open);
    assert(occurs_at(xml, open, at));
    first_at_is_first(xml, open, 0);
    assert(first_at(xml, open, 0) == Some(at));
    assert(xml.subrange(end, end + close.len()) =~= close);
    assert(occurs_at(xml, close, end));
    first_at_is_first(xml, close, start);
    assert forall|j: int| start <= j < end implies !occurs_at(xml, close, j) by {
        if occurs_at(xml, close, j) {
            assert(close[0] == '<');
            assert(xml.subrange(j, j + close.len())[0] == xml[j]);
            assert(xml[j] == t[j - start]);
            assert(t.contains(t[j - start]));
        }
    }
    assert(first_at(xml, close, start) == Some(end));
    assert(xml.subrange(start, end) =~= t);
}

/// The value of an element is its text without the whitespace around it; an element
/// with nothing but whitespace in it counts as missing.
pub proof fn an_element_gives_its_text(
    before: Seq<char>,
    name: Seq<char>,
    blank: Seq<char>,
    t: Seq<char>,
    behind: Seq<char>,
)
    requires
        !t.contains('<'),
        !t.contains('&'),
        bare(t),
        all_space(blank),
        forall|j: int|
            0 <= j < before.len() ==> !occurs_at(
                before + ("<"@ + name + ">"@) + (blank + t + blank) + ("</"@ + name + ">"@)
                    + behind,
                "<"@ + name + ">"@,
                j,
            ),
    ensures
        value_of(
            before + ("<"@ + name + ">"@) + (blank + t + blank) + ("</"@ + name + ">"@) + behind,
            name,
        ) == (if t.len() > 0 {
            Some(t)
        } else {
            None
        }),
{
    let whole = blank + t + blank;
    assert(!whole.contains('<')) by {
        if whole.contains('<') {
            let k = choose|k: int| 0 <= k < whole.len() && whole[k] == '<';
            if k < blank.len() {
                assert(is_space(blank[k]));
            } else if k < blank.len() + t.len() {
                assert(t.contains(t[k - blank.len()]));
            } else {
                assert(is_space(blank[k - blank.len() - t.len()]));
            }
        }
    }
    the_element(before, name, whole, behind);
    trim_takes_the_space_around(blank, t, blank);
    reveal_strlit("<![CDATA[");
    assert(!starts_with(t, "<![CDATA["@)) by {
        if starts_with(t, "<![CDATA["@) {
            assert(t.subrange(0, 9)[0] == t[0]);
            assert(t.contains(t[0]));
        }
    }
    entities_are_resolved(t, t);
}

/// A CDATA section gives what is in it, without the whitespace around it.
pub proof fn sections_are_unwrapped(blank: Seq<char>, t: Seq<char>)
    requires
        all_space(blank),
        bare(t),
    ensures
        cdata_unwrapped("<![CDATA["@ + (blank + t + blank) + "]]>"@) == t,
        t.len() == 0 || t[0] != '<' ==> cdata_unwrapped(t) == t,
{
    let head = "<![CDATA["@;
    let tail = "]]>"@;
    reveal_strlit("<![CDATA[");
    reveal_strlit("]]>");
    let mid = blank + t + blank;
    let s = head + mid + tail;
    assert(s.subrange(0, 9) =~= head);
    let inner = s.skip(9);
    assert(inner =~= mid + tail);
    assert(inner.subrange(inner.len() - 3, inner.len() as int) =~= tail);
    assert(inner.take(inner.len() - 3) =~= mid);
    trim_takes_the_space_around(blank, t, blank);
    if t.len() == 0 || t[0] != '<' {
        if starts_with(t, head) {
            assert(t.subrange(0, 9)[0] == t[0]);
        }
    }
}

/// Each field of a description is read from the element of its name, wherever the
/// element stands; the year is a number or nothing.
pub proof fn each_field_has_its_element(
    before: Seq<char>,
    t: Seq<char>,
    behind: Seq<char>,
    year: Seq<char>,
)
    requires
        !before.contains('<'),
        !t.contains('<'),
        !t.contains('&'),
        bare(t),
        t.len() > 0,
        1 <= year.len() <= 4,
        crate::number::all_digits(year),
    ensures
        info_of(before + "<Series>"@ + t + "</Series>"@ + behind).series == Some(t),
        info_of(before + "<Number>"@ + t + "</Number>"@ + behind).number == Some(t),
        info_of(before + "<Volume>"@ + t + "</Volume>"@ + behind).volume == Some(t),
        info_of(before + "<Summary>"@ + t + "</Summary>"@ + behind).summary == Some(t),
        info_of(before + "<Publisher>"@ + t + "</Publisher>"@ + behind).publisher == Some(t),
        info_of(before + "<Writer>"@ + t + "</Writer>"@ + behind).writer == Some(t),
        info_of(before + "<Genre>"@ + t + "</Genre>"@ + behind).genre == Some(t),
        info_of(before + "<Year>"@ + year + "</Year>"@ + behind).year == Some(
            crate::number::decimal_value(year) as int,
        ),
{
    the_tags();
    more_tags();
    field(before, "Series"@, t, behind);
    field(before, "Number"@, t, behind);
    field(before, "Volume"@, t, behind);
    field(before, "Summary"@, t, behind);
    field(before, "Publisher"@, t, behind);
    field(before, "Writer"@, t, behind);
    field(before, "Genre"@, t, behind);
    assert forall|i: int| 0 <= i < year.len() implies (#[trigger] year[i]) != '<' && year[i] != '&'
        && !is_space(year[i]) by {
        assert(crate::text::is_digit(year[i]));
    }
    field(before, "Year"@, year, behind);
    crate::number::signed_numbers_read_back(0, year);
    short_year(year);
}

/// The tags of fields, piece by piece.
proof fn the_tags()
    ensures
        "<Series>"@ == "<"@ + "Series"@ + ">"@,
        "</Series>"@ == "</"@ + "Series"@ + ">"@,
        "<Number>"@ == "<"@ + "Number"@ + ">"@,
        "</Number>"@ == "</"@ + "Number"@ + ">"@,
        "<Volume>"@ == "<"@ + "Volume"@ + ">"@,
        "</Volume>"@ == "</"@ + "Volume"@ + ">"@,
        "<Year>"@ == "<"@ + "Year"@ + ">"@,
        "</Year>"@ == "</"@ + "Year"@ + ">"@,
{
    assert("<Series>"@ =~= "<"@ + "Series"@ + ">"@ && "</Series>"@ =~= "</"@ + "Series"@ + ">"@) by {
        reveal_strlit("<");
        reveal_strlit("</");
        reveal_strlit(">");
        reveal_strlit("Series");
        reveal_strlit("<Series>");
        reveal_strlit("</Series>");
    }
    assert("<Number>"@ =~= "<"@ + "Number"@ + ">"@ && "</Number>"@ =~= "</"@ + "Number"@ + ">"@) by {
        reveal_strlit("<");
        reveal_strlit("</");
        reveal_strlit(">");
        reveal_strlit("Number");
        reveal_strlit("<Number>");
        reveal_strlit("</Number>");
    }
    assert("<Volume>"@ =~= "<"@ + "Volume"@ + ">"@ && "</Volume>"@ =~= "</"@ + "Volume"@ + ">"@) by {
        reveal_strlit("<");
        reveal_strlit("</");
        reveal_strlit(">");
        reveal_strlit("Volume");
        reveal_strlit("<Volume>");
        reveal_strlit("</Volume>");
    }
    assert("<Year>"@ =~= "<"@ + "Year"@ + ">"@ && "</Year>"@ =~= "</"@ + "Year"@ + ">"@) by {
        reveal_strlit("<");
        reveal_strlit("</");
        reveal_strlit(">");
        reveal_strlit("Year");
        reveal_strlit("<Year>");
        reveal_strlit("</Year>");
    }
}

/// The tags of further fields, piece by piece.
proof fn more_tags()
    ensures
        "<Summary>"@ == "<"@ + "Summary"@ + ">"@,
        "</Summary>"@ == "</"@ + "Summary"@ + ">"@,
        "<Publisher>"@ == "<"@ + "Publisher"@ + ">"@,
        "</Publisher>"@ == "</"@ + "Publisher"@ + ">"@,
        "<Writer>"@ == "<"@ + "Writer"@ + ">"@,
        "</Writer>"@ == "</"@ + "Writer"@ + ">"@,
        "<Genre>"@ == "<"@ + "Genre"@ + ">"@,
        "</Genre>"@ == "</"@ + "Genre"@ + ">"@,
{
    assert("<Summary>"@ =~= "<"@ + "Summary"@ + ">"@ && "</Summary>"@ =~= "</"@ + "Summary"@ + ">"@) by {
        reveal_strlit("<");
        reveal_strlit("</");
        reveal_strlit(">");
        reveal_strlit("Summary");
        reveal_strlit("<Summary>");
        reveal_strlit("</Summary>");
    }
    assert("<Publisher>"@ =~= "<"@ + "Publisher"@ + ">"@ && "</Publisher>"@ =~= "</"@ + "Publisher"@ + ">"@) by {
        reveal_strlit("<");
        reveal_strlit("</");
        reveal_strlit(">");
        reveal_strlit("Publisher");
        reveal_strlit("<Publisher>");
        reveal_strlit("</Publisher>");
    }
    assert("<Writer>"@ =~= "<"@ + "Writer"@ + ">"@ && "</Writer>"@ =~= "</"@ + "Writer"@ + ">"@) by {
        reveal_strlit("<");
        reveal_strlit("</");
        reveal_strlit(">");
        reveal_strlit("Writer");
        reveal_strlit("<Writer>");
        reveal_strlit("</Writer>");
    }
    assert("<Genre>"@ =~= "<"@ + "Genre"@ + ">"@ && "</Genre>"@ =~= "</"@ + "Genre"@ + ">"@) by {
        reveal_strlit("<");
        reveal_strlit("</");
        reveal_strlit(">");
        reveal_strlit("Genre");
        reveal_strlit("<Genre>");
        reveal_strlit("</Genre>");
    }
}

/// Four digits fit 32 bits.
proof fn short_year(s: Seq<char>)
    requires
        s.len() <= 4,
        crate::number::all_digits(s),
    ensures
        crate::number::decimal_value(s) <= 9999,
{
    reveal_with_fuel(crate::number::decimal_value, 5);
    assert forall|i: int| 0 <= i < s.len() implies crate::number::digit_value(#[trigger] s[i])
        <= 9 by {
        assert(crate::text::is_digit(s[i]));
    }
}

/// The value of an element that nothing with a tag stands ahead of.
proof fn field(before: Seq<char>, name: Seq<char>, t: Seq<char>, behind: Seq<char>)
    requires
        !before.contains('<'),
        !t.contains('<'),
        !t.contains('&'),
        bare(t),
        t.len() > 0,
    ensures
        value_of(before + ("<"@ + name + ">"@) + t + ("</"@ + name + ">"@) + behind, name) == Some(
            t,
        ),
{
    let open = "<"@ + name + ">"@;
    let none = Seq::<char>::empty();
    let xml = before + open + t + ("</"@ + name + ">"@) + behind;
    assert(none + t + none =~= t);
    reveal_strlit("<");
    assert forall|j: int| 0 <= j < before.len() implies !occurs_at(xml, open, j) by {
        if occurs_at(xml, open, j) {
            assert(xml.subrange(j, j + open.len())[0] == open[0]);
            assert(xml[j] == before[j]);
            assert(before.contains(before[j]));
        }
    }
    an_element_gives_its_text(before, name, none, t, behind);
}

/// The entities in an element's text are resolved in its value.
pub proof fn values_are_resolved(
    before: Seq<char>,
    name: Seq<char>,
    a: Seq<char>,
    b: Seq<char>,
    behind: Seq<char>,
)
    requires
        !before.contains('<'),
        !a.contains('<') && !a.contains('&') && a.len() > 0 && bare(a),
        !b.contains('<') && !b.contains('&') && b.len() > 0 && bare(b),
    ensures
        value_of(
            before + ("<"@ + name + ">"@) + (a + seq!['&', 'a', 'm', 'p', ';'] + b) + ("</"@ + name
                + ">"@) + behind,
            name,
        ) == Some(a + seq!['&'] + b),
        value_of(
            before + ("<"@ + name + ">"@) + (a + seq!['&', 'l', 't', ';'] + b) + ("</"@ + name
                + ">"@) + behind,
            name,
        ) == Some(a + seq!['<'] + b),
{
    a_resolved_value(before, name, a, seq!['&', 'a', 'm', 'p', ';'], '&', b, behind);
    a_resolved_value(before, name, a, seq!['&', 'l', 't', ';'], '<', b, behind);
}

/// One entity in an element's text.
proof fn a_resolved_value(
    before: Seq<char>,
    name: Seq<char>,
    a: Seq<char>,
    e: Seq<char>,
    c: char,
    b: Seq<char>,
    behind: Seq<char>,
)
    requires
        !before.contains('<'),
        !a.contains('<') && !a.contains('&') && a.len() > 0 && bare(a),
        !b.contains('<') && !b.contains('&') && b.len() > 0 && bare(b),
        (e == seq!['&', 'a', 'm', 'p', ';'] && c == '&') || (e == seq!['&', 'l', 't', ';'] && c
            == '<'),
    ensures
        value_of(before + ("<"@ + name + ">"@) + (a + e + b) + ("</"@ + name + ">"@) + behind, name)
            == Some(a + seq![c] + b),
{
    let t = a + e + b;
    let open = "<"@ + name + ">"@;
    let none = Seq::<char>::empty();
    let xml = before + open + t + ("</"@ + name + ">"@) + behind;
    reveal_strlit("<");
    assert(!t.contains('<')) by {
        assert forall|i: int| 0 <= i < t.len() implies (#[trigger] t[i]) != '<' by {
            if i < a.len() {
                assert(a.contains(a[i]));
            } else if i >= a.len() + e.len() {
                assert(b.contains(b[i - a.len() - e.len()]));
            } else {
                assert(t[i] == e[i - a.len()]);
            }
        }
    }
    assert forall|j: int| 0 <= j < before.len() implies !occurs_at(xml, open, j) by {
        if occurs_at(xml, open, j) {
            assert(xml.subrange(j, j + open.len())[0] == open[0]);
            assert(xml[j] == before[j]);
            assert(before.contains(before[j]));
        }
    }
    the_element(before, name, t, behind);
    assert(t[0] == a[0] && t.last() == b.last());
    trim_takes_the_space_around(none, t, none);
    assert(none + t + none =~= t);
    sections_are_unwrapped(none, t);
    assert(t[0] != '<') by {
        assert(a.contains(a[0]));
    }
    assert(t =~= a + (e + b));
    entities_are_resolved(a, e + b);
    an_entity(e, c, b);
    entities_are_resolved(b, b);
    assert(a + (seq![c] + b) =~= a + seq![c] + b);
}

} // verus!
