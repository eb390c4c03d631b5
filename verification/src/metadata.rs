//! What a file name tells of a comic, and what an online catalogue adds.
use crate::number::{all_digits, decimal_value, only_digits, parse_decimal};
use crate::paths::{
    a_file_in_a_directory, stem_of, stem_or_all, stems_of_files, the_last_dot_starts_the_extension,
};
use crate::text::{
    all_space, bare, chars_of, every_occurrence_is_replaced, is_digit, is_hex_digit, is_space,
    is_upper, join, join_rows, joined_words, no_space, occurs_at, one_piece, one_word_or_none,
    pieces_fall_apart_at_a_separator, pieces_make_up_the_text, replace_text, replaced, rows,
    split_chars, split_on, string_of, text_copy, trim, trim_takes_the_space_around, trimmed, words,
    words_fall_apart_at_a_blank, words_hold_no_blank, words_of,
};
use vstd::prelude::*;

verus! {

/// What is known of a series.
#[derive(Clone, Debug)]
pub struct SeriesMetadata {
    pub title: String,
    pub description: String,
    pub status: String,
    pub genres: Vec<String>,
    pub chapter_count: Option<u32>,
    pub score: Option<u32>,
    pub url: Option<String>,
}

/// A series as AniList describes it.
pub struct AniListMedia {
    pub romaji: Option<String>,
    pub english: Option<String>,
    pub description: Option<String>,
    pub status: Option<String>,
    pub chapters: Option<u32>,
    pub genres: Option<Vec<String>>,
    pub average_score: Option<u32>,
    pub site_url: Option<String>,
}

/// A best-effort breakdown of a comic's file name into series, issue and year:
/// "Civil War 001 (2006) (Digital) (Zone-Empire).cbr" is issue 1 of the series
/// "Civil War", from the year 2006.
#[derive(Clone, Debug)]
pub struct ParsedFilename {
    pub series: String,
    pub issue: Option<u32>,
    pub year: Option<u32>,
}

// ── Titles ───────────────────────────────────────────────────────────────────

/// Whether a word looks like a ULID: 26 digits and capital letters.
pub open spec fn looks_like_ulid(w: Seq<char>) -> bool {
    w.len() == 26 && forall|i: int| 0 <= i < w.len() ==> is_digit(#[trigger] w[i]) || is_upper(w[i])
}

/// Whether every character of a text is a hexadecimal digit.
pub open spec fn all_hex(s: Seq<char>) -> bool {
    forall|i: int| 0 <= i < s.len() ==> is_hex_digit(#[trigger] s[i])
}

/// How many digits the groups of a UUID have.
pub open spec fn uuid_groups() -> Seq<int> {
    seq![8, 4, 4, 4, 12]
}

/// Whether a word looks like a UUID: 36 characters in five groups of eight, four,
/// four, four and twelve hexadecimal digits, with hyphens between them.
pub open spec fn looks_like_uuid(w: Seq<char>) -> bool {
    let parts = split_on(w, '-');
    &&& w.len() == 36
    &&& parts.len() == 5
    &&& forall|i: int|
        0 <= i < 5 ==> (#[trigger] parts[i]).len() == uuid_groups()[i] && all_hex(parts[i])
}

/// Whether a word is an identifier and no part of a title.
pub open spec fn id_token(w: Seq<char>) -> bool {
    looks_like_ulid(w) || looks_like_uuid(w)
}

/// The words without the identifiers at their end.
pub open spec fn without_ids(ws: Seq<Seq<char>>) -> Seq<Seq<char>>
    decreases ws.len(),
{
    if ws.len() > 0 && id_token(ws.last()) {
        without_ids(ws.drop_last())
    } else {
        ws
    }
}

/// The title that a file or folder name stands for: its words up to the
/// identifiers that some tools append, or the whole name where nothing else
/// is in it.
pub open spec fn title_of(raw: Seq<char>) -> Seq<char> {
    let base = stem_of(raw);
    let clean = without_ids(words(base));
    if clean.len() == 0 {
        base
    } else {
        join(clean, seq![' '])
    }
}

/// Whether every character of a text is a hexadecimal digit.
fn only_hex(v: &[char]) -> (r: bool)
    ensures
        r == all_hex(v@),
{
    for i in 0..v.len()
        invariant
            forall|j: int| 0 <= j < i ==> is_hex_digit(#[trigger] v@[j]),
    {
        let c = v[i];
        if !(('0' <= c && c <= '9') || ('a' <= c && c <= 'f') || ('A' <= c && c <= 'F')) {
            assert(!is_hex_digit(v@[i as int]));
            return false;
        }
    }
    true
}

/// Whether a word is an identifier and no part of a title.
pub fn is_id_token(w: &[char]) -> (r: bool)
    ensures
        r == id_token(w@),
{
    if w.len() == 26 {
        for i in 0..w.len()
            invariant
                w@.len() == 26,
                forall|j: int| 0 <= j < i ==> is_digit(#[trigger] w@[j]) || is_upper(w@[j]),
        {
            let c = w[i];
            if !(('0' <= c && c <= '9') || ('A' <= c && c <= 'Z')) {
                assert(!(is_digit(w@[i as int]) || is_upper(w@[i as int])));
                return false;
            }
        }
        return true;
    }
    if w.len() != 36 {
        return false;
    }
    let parts = split_chars(w, '-');
    let ghost all = rows(parts@);
    if parts.len() != 5 {
        return false;
    }
    let lengths: [usize; 5] = [8, 4, 4, 4, 12];
    for i in 0..parts.len()
        invariant
            all == rows(parts@),
            all == split_on(w@, '-'),
            w@.len() == 36,
            parts@.len() == 5,
            lengths@ == seq![8usize, 4, 4, 4, 12],
            forall|j: int|
                0 <= j < i ==> (#[trigger] all[j]).len() == uuid_groups()[j] && all_hex(all[j]),
    {
        assert(all[i as int] == parts@[i as int]@);
        assert(lengths@[i as int] == uuid_groups()[i as int]);
        if parts[i].len() != lengths[i] || !only_hex(parts[i].as_slice()) {
            assert(!(split_on(w@, '-')[i as int].len() == uuid_groups()[i as int] && all_hex(
                split_on(w@, '-')[i as int],
            )));
            return false;
        }
    }
    true
}

/// Derives a clean search title from a file or folder name, without the ULID
/// and UUID identifiers that tools append.
pub fn extract_title(raw: &str) -> (r: String)
    ensures
        r@ == title_of(raw@),
{
    let base = stem_or_all(raw);
    let v = chars_of(base.as_str());
    let mut ws = words_of(v.as_slice());
    let ghost all = words(base@);
    while ws.len() > 0 && is_id_token(ws[ws.len() - 1].as_slice())
        invariant
            without_ids(rows(ws@)) == without_ids(all),
        decreases ws@.len(),
    {
        let ghost before = rows(ws@);
        assert(before.last() == ws@.last()@);
        ws.pop();
        assert(rows(ws@) =~= before.drop_last());
    }
    assert(ws@.len() > 0 ==> rows(ws@).last() == ws@.last()@);
    if ws.len() == 0 {
        return base;
    }
    let mut sep: Vec<char> = Vec::new();
    sep.push(' ');
    assert(sep@ =~= seq![' ']);
    let joined = join_rows(&ws, sep.as_slice());
    string_of(joined.as_slice())
}

// ── File names ───────────────────────────────────────────────────────────────

/// The year that a bracketed group names, if it names one.
pub open spec fn year_in(group: Seq<char>) -> Option<nat> {
    let g = trim(group);
    if g.len() == 4 && all_digits(g) && 1900 <= decimal_value(g) <= 2100 {
        Some(decimal_value(g))
    } else {
        None
    }
}

/// What a name has shown up to some point: how deep in brackets the point is,
/// the text of the group last opened, the text outside all brackets, and the
/// year found first.
pub struct GroupScan {
    pub depth: nat,
    pub group: Seq<char>,
    pub outside: Seq<char>,
    pub year: Option<nat>,
}

/// A name, read from left to right.
pub open spec fn scan_groups(s: Seq<char>) -> GroupScan
    decreases s.len(),
{
    if s.len() == 0 {
        GroupScan { depth: 0, group: Seq::empty(), outside: Seq::empty(), year: None }
    } else {
        let before = scan_groups(s.drop_last());
        let c = s.last();
        if c == '(' || c == '[' {
            GroupScan { depth: before.depth + 1, group: Seq::empty(), ..before }
        } else if (c == ')' || c == ']') && before.depth > 0 {
            GroupScan {
                depth: (before.depth - 1) as nat,
                year: if before.year is None {
                    year_in(before.group)
                } else {
                    before.year
                },
                ..before
            }
        } else if before.depth > 0 {
            GroupScan { group: before.group.push(c), ..before }
        } else {
            GroupScan { outside: before.outside.push(c), ..before }
        }
    }
}

/// The issue number that a word stands for: at most four digits.
pub open spec fn issue_in(w: Seq<char>) -> Option<nat> {
    if 0 < w.len() <= 4 && all_digits(w) {
        Some(decimal_value(w))
    } else {
        None
    }
}

/// The issue number at the end of a list of words.
pub open spec fn issue_of(ws: Seq<Seq<char>>) -> Option<nat> {
    if ws.len() > 0 {
        issue_in(ws.last())
    } else {
        None
    }
}

/// The series that a name stands for: the words outside all brackets, without
/// the issue number; the whole name, where no such word is left.
pub open spec fn series_of(base: Seq<char>) -> Seq<char> {
    let ws = words(scan_groups(base).outside);
    let named = if issue_of(ws) is Some {
        ws.drop_last()
    } else {
        ws
    };
    let series = trim(join(named, seq![' ']));
    if series.len() == 0 {
        base
    } else {
        series
    }
}

/// The number that an optional `u32` holds.
pub open spec fn opt_nat(o: Option<u32>) -> Option<nat> {
    match o {
        Some(n) => Some(n as nat),
        None => None,
    }
}

/// Four digits are at most 9999.
proof fn short_value(s: Seq<char>)
    requires
        s.len() <= 4,
        all_digits(s),
    ensures
        decimal_value(s) <= 9999,
{
    reveal_with_fuel(decimal_value, 5);
    assert forall|i: int| 0 <= i < s.len() implies crate::number::digit_value(#[trigger] s[i])
        <= 9 by {
        assert(is_digit(s[i]));
    }
}

/// The year that a bracketed group names, if it names one.
fn group_year(group: &[char]) -> (r: Option<u32>)
    ensures
        opt_nat(r) == year_in(group@),
{
    let g = trimmed(group);
    if g.len() == 4 && only_digits(g) {
        proof {
            short_value(g@);
        }
        if let Some(y) = parse_decimal(g, 9999) {
            if 1900 <= y && y <= 2100 {
                return Some(y as u32);
            }
        }
    }
    None
}

/// The model of what a file name says.
pub struct ParsedView {
    pub series: Seq<char>,
    pub issue: Option<nat>,
    pub year: Option<nat>,
}

impl View for ParsedFilename {
    type V = ParsedView;

    open spec fn view(&self) -> ParsedView {
        ParsedView {
            series: self.series@,
            issue: opt_nat(self.issue),
            year: opt_nat(self.year),
        }
    }
}

/// What a comic's file name says of series, issue and year.
pub open spec fn parsed_of(raw: Seq<char>) -> ParsedView {
    ParsedView {
        series: series_of(stem_of(raw)),
        issue: issue_of(words(scan_groups(stem_of(raw)).outside)),
        year: scan_groups(stem_of(raw)).year,
    }
}

/// A year that a file name names lies between 1900 and 2100, an issue is at most
/// 9999, and the series is empty only where the whole name is.
pub proof fn file_names_give_plausible_numbers(raw: Seq<char>)
    ensures
        parsed_of(raw).year matches Some(y) ==> 1900 <= y <= 2100,
        parsed_of(raw).issue matches Some(n) ==> n <= 9999,
        parsed_of(raw).series.len() == 0 ==> stem_of(raw).len() == 0,
{
    year_is_plausible(stem_of(raw));
    let ws = words(scan_groups(stem_of(raw)).outside);
    if issue_of(ws) is Some {
        short_value(ws.last());
    }
}

/// A year that brackets name lies between 1900 and 2100.
proof fn year_is_plausible(s: Seq<char>)
    ensures
        scan_groups(s).year matches Some(y) ==> 1900 <= y <= 2100,
    decreases s.len(),
{
    if s.len() > 0 {
        year_is_plausible(s.drop_last());
    }
}

/// Whether a text has no brackets in it.
pub open spec fn no_brackets(s: Seq<char>) -> bool {
    forall|i: int|
        0 <= i < s.len() ==> (#[trigger] s[i]) != '(' && s[i] != ')' && s[i] != '[' && s[i] != ']'
}

/// Text without brackets goes to the group that is open, or else stays outside.
proof fn scan_plain(s: Seq<char>, t: Seq<char>)
    requires
        no_brackets(t),
    ensures
        scan_groups(s + t) == (if scan_groups(s).depth > 0 {
            GroupScan { group: scan_groups(s).group + t, ..scan_groups(s) }
        } else {
            GroupScan { outside: scan_groups(s).outside + t, ..scan_groups(s) }
        }),
    decreases t.len(),
{
    let before = scan_groups(s);
    if t.len() == 0 {
        assert(s + t =~= s);
        assert(before.group + t =~= before.group);
        assert(before.outside + t =~= before.outside);
    } else {
        let rest = t.drop_last();
        assert((s + t).drop_last() =~= s + rest);
        assert forall|i: int| 0 <= i < rest.len() implies (#[trigger] rest[i]) != '(' && rest[i]
            != ')' && rest[i] != '[' && rest[i] != ']' by {
            assert(rest[i] == t[i]);
        }
        scan_plain(s, rest);
        assert(t[t.len() - 1] != '(');
        assert((before.group + rest).push(t.last()) =~= before.group + t);
        assert((before.outside + rest).push(t.last()) =~= before.outside + t);
    }
}

/// A group in brackets is cut out of a name, and the year that it names is
/// taken.
pub proof fn a_group_is_cut_out(a: Seq<char>, group: Seq<char>, b: Seq<char>)
    requires
        no_brackets(a),
        no_brackets(group),
        no_brackets(b),
    ensures
        scan_groups(a + seq!['('] + group + seq![')'] + b).outside == a + b,
        scan_groups(a + seq!['('] + group + seq![')'] + b).year == year_in(group),
        scan_groups(a + seq!['['] + group + seq![']'] + b).outside == a + b,
        scan_groups(a + seq!['['] + group + seq![']'] + b).year == year_in(group),
{
    cut_out(a, group, b, '(', ')');
    cut_out(a, group, b, '[', ']');
}

/// A group between the given brackets is cut out.
proof fn cut_out(a: Seq<char>, group: Seq<char>, b: Seq<char>, open: char, close: char)
    requires
        no_brackets(a),
        no_brackets(group),
        no_brackets(b),
        open == '(' || open == '[',
        close == ')' || close == ']',
    ensures
        scan_groups(a + seq![open] + group + seq![close] + b).outside == a + b,
        scan_groups(a + seq![open] + group + seq![close] + b).year == year_in(group),
{
    let none = Seq::<char>::empty();
    assert(none + a =~= a);
    scan_plain(none, a);
    let opened = a + seq![open];
    assert(opened.drop_last() =~= a);
    scan_plain(opened, group);
    let filled = opened + group;
    assert(scan_groups(filled).group =~= group);
    let closed = filled + seq![close];
    assert(closed.drop_last() =~= filled);
    assert(scan_groups(closed).depth == 0);
    scan_plain(closed, b);
}

/// Breaks a comic's file name down into series, issue and year.
pub fn parse_filename(raw: &str) -> (r: ParsedFilename)
    ensures
        r@ == parsed_of(raw@),
{
    let base = stem_or_all(raw);
    let v = chars_of(base.as_str());
    let mut year: Option<u32> = None;
    let mut outside: Vec<char> = Vec::new();
    let mut group: Vec<char> = Vec::new();
    let mut depth: usize = 0;
    for i in 0..v.len()
        invariant
            depth <= i,
            scan_groups(v@.take(i as int)) == (GroupScan {
                depth: depth as nat,
                group: group@,
                outside: outside@,
                year: opt_nat(year),
            }),
    {
        assert(v@.take(i + 1).drop_last() == v@.take(i as int));
        let c = v[i];
        if c == '(' || c == '[' {
            depth = depth + 1;
            group = Vec::new();
            assert(group@ == Seq::<char>::empty());
        } else if (c == ')' || c == ']') && depth > 0 {
            depth = depth - 1;
            if year.is_none() {
                year = group_year(group.as_slice());
            }
        } else if depth > 0 {
            group.push(c);
        } else {
            outside.push(c);
        }
    }
    assert(v@.take(v@.len() as int) == v@);
    let mut ws = words_of(outside.as_slice());
    let ghost all = rows(ws@);
    let mut issue: Option<u32> = None;
    if ws.len() > 0 {
        let last = ws[ws.len() - 1].as_slice();
        assert(all.last() == last@);
        if last.len() > 0 && last.len() <= 4 && only_digits(last) {
            proof {
                short_value(last@);
            }
            if let Some(n) = parse_decimal(last, 9999) {
                issue = Some(n as u32);
            }
        }
    }
    if issue.is_some() {
        ws.pop();
        assert(rows(ws@) =~= all.drop_last());
    }
    let mut sep: Vec<char> = Vec::new();
    sep.push(' ');
    assert(sep@ =~= seq![' ']);
    let joined = join_rows(&ws, sep.as_slice());
    let series = trimmed(joined.as_slice());
    ParsedFilename {
        series: if series.len() == 0 {
            base
        } else {
            string_of(series)
        },
        issue,
        year,
    }
}

// ── Descriptions ─────────────────────────────────────────────────────────────

/// Whether the end of a text lies inside a tag.
pub open spec fn ends_in_tag(s: Seq<char>) -> bool
    decreases s.len(),
{
    if s.len() == 0 {
        false
    } else if s.last() == '<' {
        true
    } else if s.last() == '>' {
        false
    } else {
        ends_in_tag(s.drop_last())
    }
}

/// The characters of a text that stand outside its tags.
pub open spec fn outside_tags(s: Seq<char>) -> Seq<char>
    decreases s.len(),
{
    if s.len() == 0 {
        s
    } else {
        let before = outside_tags(s.drop_last());
        if s.last() == '<' || s.last() == '>' || ends_in_tag(s.drop_last()) {
            before
        } else {
            before.push(s.last())
        }
    }
}

/// A text with the entities of HTML resolved, one after the other.
pub open spec fn html_unescaped(s: Seq<char>) -> Seq<char> {
    let s = replaced(s, "&amp;"@, "&"@);
    let s = replaced(s, "&lt;"@, "<"@);
    let s = replaced(s, "&gt;"@, ">"@);
    let s = replaced(s, "&quot;"@, "\""@);
    let s = replaced(s, "&#39;"@, "'"@);
    replaced(s, "\n"@, " "@)
}

/// A description without markup: its words, with one blank between each two.
pub open spec fn plain_text(s: Seq<char>) -> Seq<char> {
    join(words(html_unescaped(outside_tags(s))), seq![' '])
}

/// Removes the markup from a description.
pub fn strip_html(s: &str) -> (r: String)
    ensures
        r@ == plain_text(s@),
{
    let v = chars_of(s);
    let mut out: Vec<char> = Vec::new();
    let mut in_tag = false;
    for i in 0..v.len()
        invariant
            in_tag == ends_in_tag(v@.take(i as int)),
            out@ == outside_tags(v@.take(i as int)),
    {
        assert(v@.take(i + 1).drop_last() == v@.take(i as int));
        let c = v[i];
        if c == '<' {
            in_tag = true;
        } else if c == '>' {
            in_tag = false;
        } else if !in_tag {
            out.push(c);
        }
    }
    assert(v@.take(v@.len() as int) == v@);
    proof {
        reveal_strlit("&amp;");
        reveal_strlit("&lt;");
        reveal_strlit("&gt;");
        reveal_strlit("&quot;");
        reveal_strlit("&#39;");
        reveal_strlit("\n");
    }
    let out = replace_text(out.as_slice(), "&amp;", "&");
    let out = replace_text(out.as_slice(), "&lt;", "<");
    let out = replace_text(out.as_slice(), "&gt;", ">");
    let out = replace_text(out.as_slice(), "&quot;", "\"");
    let out = replace_text(out.as_slice(), "&#39;", "'");
    let out = replace_text(out.as_slice(), "\n", " ");
    let ws = words_of(out.as_slice());
    let mut sep: Vec<char> = Vec::new();
    sep.push(' ');
    assert(sep@ =~= seq![' ']);
    let joined = join_rows(&ws, sep.as_slice());
    string_of(joined.as_slice())
}

// ── AniList ──────────────────────────────────────────────────────────────────

/// The text of an optional string; the default, where there is none.
pub open spec fn text_or(o: Option<String>, default: Seq<char>) -> Seq<char> {
    match o {
        Some(s) => s@,
        None => default,
    }
}

/// What is known of a series once AniList has answered the search for
/// `search_title`. The English title is preferred to the Japanese one.
pub fn series_from_media(media: Option<AniListMedia>, search_title: &str) -> (r: Result<
    SeriesMetadata,
    String,
>)
    ensures
        match media {
            None => r matches Err(e) && e@ == "no AniList results for '"@ + search_title@ + "'"@,
            Some(m) => {
                &&& r matches Ok(s)
                &&& s.title@ == text_or(m.english, text_or(m.romaji, search_title@))
                &&& s.description@ == (match m.description {
                    Some(d) => plain_text(d@),
                    None => Seq::<char>::empty(),
                })
                &&& s.status@ == text_or(m.status, Seq::empty())
                &&& s.genres@ == (match m.genres {
                    Some(g) => g@,
                    None => Seq::empty(),
                })
                &&& s.chapter_count == m.chapters
                &&& s.score == m.average_score
                &&& s.url == m.site_url
            },
        },
{
    match media {
        None => Err(crate::text::concat3("no AniList results for '", search_title, "'")),
        Some(m) => {
            let title = match m.english {
                Some(t) => t,
                None => match m.romaji {
                    Some(t) => t,
                    None => text_copy(search_title),
                },
            };
            let description = match m.description {
                Some(d) => strip_html(d.as_str()),
                None => String::new(),
            };
            let status = match m.status {
                Some(s) => s,
                None => String::new(),
            };
            let genres = match m.genres {
                Some(g) => g,
                None => Vec::new(),
            };
            Ok(
                SeriesMetadata {
                    title,
                    description,
                    status,
                    genres,
                    chapter_count: m.chapters,
                    score: m.average_score,
                    url: m.site_url,
                },
            )
        },
    }
}

// ── Laws ─────────────────────────────────────────────────────────────────────

/// Whether a text has neither brackets, dots nor slashes in it.
pub open spec fn plain_name(s: Seq<char>) -> bool {
    no_brackets(s) && !s.contains('.') && !s.contains('/')
}

/// A name with an extension or without has the same stem.
proof fn plain_stem(s: Seq<char>, extension: Seq<char>)
    requires
        s.len() > 0,
        plain_name(s),
        plain_name(extension),
    ensures
        stem_of(s) == s,
        stem_of(s + seq!['.'] + extension) == s,
{
    assert(s != seq!['.'] && s != seq!['.', '.']) by {
        assert(seq!['.'][0] == '.' && seq!['.', '.'][0] == '.');
        assert(seq!['.'].contains('.') && seq!['.', '.'].contains('.'));
    }
    a_file_in_a_directory(seq!['/'], s);
    the_last_dot_starts_the_extension(seq!['x'], s);
    stems_of_files(Seq::empty(), s, extension);
}

/// What the scan of a text without brackets leaves.
proof fn plain_scan(s: Seq<char>)
    requires
        no_brackets(s),
    ensures
        scan_groups(s).outside == s,
        scan_groups(s).year is None,
        scan_groups(s).depth == 0,
{
    let none = Seq::<char>::empty();
    scan_plain(none, s);
    assert(none + s =~= s);
}

/// The words of a name ahead of a number.
proof fn words_and_number(s: Seq<char>, d: Seq<char>)
    requires
        d.len() > 0,
        all_digits(d),
    ensures
        words(s + seq![' '] + d) == words(s).push(d),
        words(d) == seq![d],
{
    assert(no_space(d)) by {
        assert forall|i: int| 0 <= i < d.len() implies !is_space(#[trigger] d[i]) by {
            assert(is_digit(d[i]));
        }
    }
    words_fall_apart_at_a_blank(s, ' ', d);
    one_word_or_none(d);
    assert(words(s) + seq![d] =~= words(s).push(d));
}

/// Words, joined by blanks, are left alone by trimming.
proof fn joined_stay(s: Seq<char>)
    ensures
        trim(join(words(s), seq![' '])) == join(words(s), seq![' ']),
        words(s).len() > 0 ==> join(words(s), seq![' ']).len() > 0,
{
    words_hold_no_blank(s);
    joined_words(words(s));
    let t = join(words(s), seq![' ']);
    let none = Seq::<char>::empty();
    trim_takes_the_space_around(none, t, none);
    assert(none + t + none =~= t);
}

/// A number of one to four digits behind the words of a name is the issue, and the
/// words ahead of it, with one blank between each two, are the series. An extension
/// does not matter.
pub proof fn a_number_at_the_end_is_the_issue(s: Seq<char>, d: Seq<char>, extension: Seq<char>)
    requires
        plain_name(s),
        plain_name(extension),
        words(s).len() > 0,
        1 <= d.len() <= 4,
        all_digits(d),
    ensures
        parsed_of(s + seq![' '] + d) == (ParsedView {
            series: join(words(s), seq![' ']),
            issue: Some(decimal_value(d)),
            year: None,
        }),
        parsed_of(s + seq![' '] + d + seq!['.'] + extension) == parsed_of(s + seq![' '] + d),
{
    let base = s + seq![' '] + d;
    assert(plain_name(base)) by {
        assert forall|i: int| 0 <= i < base.len() implies (#[trigger] base[i]) != '(' && base[i]
            != ')' && base[i] != '[' && base[i] != ']' && base[i] != '.' && base[i] != '/' by {
            if i < s.len() {
                assert(base[i] == s[i]);
                assert(s.contains(s[i]));
            } else if i > s.len() {
                assert(is_digit(d[i - s.len() - 1]));
            }
        }
    }
    plain_stem(base, extension);
    plain_scan(base);
    words_and_number(s, d);
    joined_stay(s);
    assert(words(s).push(d).drop_last() =~= words(s));
}

/// A name that does not end with such a number has no issue, and all its words are
/// the series.
pub proof fn other_names_have_no_issue(s: Seq<char>, extension: Seq<char>)
    requires
        plain_name(s),
        plain_name(extension),
        words(s).len() > 0,
        words(s).last().len() > 4 || exists|i: int|
            0 <= i < words(s).last().len() && !is_digit(#[trigger] words(s).last()[i]),
    ensures
        parsed_of(s) == (ParsedView { series: join(words(s), seq![' ']), issue: None, year: None }),
        parsed_of(s + seq!['.'] + extension) == parsed_of(s),
{
    assert(s.len() > 0);
    plain_stem(s, extension);
    plain_scan(s);
    joined_stay(s);
}

/// A name that is nothing but a number is both: the issue, and for want of other
/// words the series.
pub proof fn a_bare_number_is_series_and_issue(d: Seq<char>, extension: Seq<char>)
    requires
        1 <= d.len() <= 4,
        all_digits(d),
        plain_name(extension),
    ensures
        parsed_of(d + seq!['.'] + extension) == (ParsedView {
            series: d,
            issue: Some(decimal_value(d)),
            year: None,
        }),
{
    assert(plain_name(d)) by {
        assert forall|i: int| 0 <= i < d.len() implies (#[trigger] d[i]) != '(' && d[i] != ')'
            && d[i] != '[' && d[i] != ']' && d[i] != '.' && d[i] != '/' by {
            assert(is_digit(d[i]));
        }
    }
    plain_stem(d, extension);
    plain_scan(d);
    words_and_number(Seq::empty(), d);
    let none = Seq::<Seq<char>>::empty();
    assert(seq![d].drop_last() =~= none);
    assert(join(none, seq![' ']) =~= Seq::empty());
}

/// A group in brackets changes nothing about the series and the issue: they are
/// those of the name without it. If the group is a year from 1900 to 2100 in four
/// digits, with blanks around it or without, that is the year.
pub proof fn a_group_only_tells_the_year(a: Seq<char>, group: Seq<char>, b: Seq<char>)
    requires
        plain_name(a),
        plain_name(group),
        plain_name(b),
        (a + b).len() > 0,
        words(a + b).len() > 1 || (words(a + b).len() == 1 && !(words(a + b)[0].len() <= 4
            && all_digits(words(a + b)[0]))),
    ensures
        parsed_of(a + seq!['('] + group + seq![')'] + b) == (ParsedView {
            year: year_in(group),
            ..parsed_of(a + b)
        }),
        parsed_of(a + seq!['['] + group + seq![']'] + b) == (ParsedView {
            year: year_in(group),
            ..parsed_of(a + b)
        }),
{
    group_tells_the_year(a, group, b, '(', ')');
    group_tells_the_year(a, group, b, '[', ']');
}

/// A group between the given brackets.
proof fn group_tells_the_year(
    a: Seq<char>,
    group: Seq<char>,
    b: Seq<char>,
    open: char,
    close: char,
)
    requires
        plain_name(a),
        plain_name(group),
        plain_name(b),
        (a + b).len() > 0,
        words(a + b).len() > 1 || (words(a + b).len() == 1 && issue_in(words(a + b)[0]) is None),
        (open == '(' && close == ')') || (open == '[' && close == ']'),
    ensures
        parsed_of(a + seq![open] + group + seq![close] + b) == (ParsedView {
            year: year_in(group),
            ..parsed_of(a + b)
        }),
{
    let x = a + seq![open] + group + seq![close] + b;
    let y = a + b;
    cut_out(a, group, b, open, close);
    assert forall|i: int| 0 <= i < y.len() implies (#[trigger] y[i]) != '(' && y[i] != ')' && y[i]
        != '[' && y[i] != ']' && y[i] != '.' && y[i] != '/' by {
        if i < a.len() {
            assert(y[i] == a[i]);
            assert(a.contains(a[i]));
        } else {
            assert(y[i] == b[i - a.len()]);
            assert(b.contains(b[i - a.len()]));
        }
    }
    assert(!y.contains('.') && !y.contains('/'));
    plain_stem(y, Seq::empty());
    plain_scan(y);
    bracketed_stem(a, group, b, open, close);
    let ws = words(y);
    words_hold_no_blank(y);
    let named = if issue_of(ws) is Some {
        ws.drop_last()
    } else {
        ws
    };
    assert forall|i: int| 0 <= i < named.len() implies (#[trigger] named[i]).len() > 0 && no_space(
        named[i],
    ) by {
        assert(named[i] == ws[i]);
    }
    joined_words(named);
    let t = join(named, seq![' ']);
    let none = Seq::<char>::empty();
    trim_takes_the_space_around(none, t, none);
    assert(none + t + none =~= t);
}

/// The stem of a name with a group in brackets.
proof fn bracketed_stem(a: Seq<char>, group: Seq<char>, b: Seq<char>, open: char, close: char)
    requires
        plain_name(a),
        plain_name(group),
        plain_name(b),
        (open == '(' && close == ')') || (open == '[' && close == ']'),
    ensures
        stem_of(a + seq![open] + group + seq![close] + b) == a + seq![open] + group + seq![close]
            + b,
{
    let x = a + seq![open] + group + seq![close] + b;
    assert forall|i: int| 0 <= i < x.len() implies (#[trigger] x[i]) != '.' && x[i] != '/' by {
        if i < a.len() {
            assert(x[i] == a[i]);
            assert(a.contains(a[i]));
        } else if a.len() < i < a.len() + 1 + group.len() {
            assert(x[i] == group[i - a.len() - 1]);
            assert(group.contains(group[i - a.len() - 1]));
        } else if i > a.len() + 1 + group.len() {
            assert(x[i] == b[i - a.len() - group.len() - 2]);
            assert(b.contains(b[i - a.len() - group.len() - 2]));
        }
    }
    assert(!x.contains('.') && !x.contains('/'));
    assert(x.len() > 0);
    assert(x != seq!['.'] && x != seq!['.', '.']) by {
        assert(seq!['.'][0] == '.' && seq!['.', '.'][0] == '.');
    }
    a_file_in_a_directory(seq!['/'], x);
    the_last_dot_starts_the_extension(seq!['x'], x);
}

/// A group is a year exactly if, without the blanks around it, it is four digits from
/// 1900 to 2100.
pub proof fn years_have_four_digits(before: Seq<char>, y: Seq<char>, behind: Seq<char>)
    requires
        all_space(before),
        all_space(behind),
        bare(y),
    ensures
        year_in(before + y + behind) == (if y.len() == 4 && all_digits(y) && 1900 <= decimal_value(
            y,
        ) <= 2100 {
            Some(decimal_value(y))
        } else {
            None
        }),
{
    trim_takes_the_space_around(before, y, behind);
}

/// The first group that names a year decides.
pub proof fn the_first_year_stays(s: Seq<char>, t: Seq<char>)
    requires
        scan_groups(s).year is Some,
    ensures
        scan_groups(s + t).year == scan_groups(s).year,
    decreases t.len(),
{
    if t.len() == 0 {
        assert(s + t =~= s);
    } else {
        assert((s + t).drop_last() =~= s + t.drop_last());
        the_first_year_stays(s, t.drop_last());
    }
}

/// Whether a character is a digit, or a letter from `a` to `f` in either case.
pub open spec fn hexadecimal(c: char) -> bool {
    ('0' <= c && c <= '9') || ('a' <= c && c <= 'f') || ('A' <= c && c <= 'F')
}

/// A UUID is told by the places of its hyphens: 36 characters with hyphens at the
/// places 8, 13, 18 and 23, and hexadecimal digits at all others. A ULID is 26
/// capital letters and digits.
pub proof fn identifiers_are_told_by_their_form(w: Seq<char>)
    ensures
        id_token(w) <==> {
            ||| w.len() == 26 && forall|i: int|
                0 <= i < 26 ==> ('0' <= #[trigger] w[i] && w[i] <= '9') || ('A' <= w[i] && w[i]
                    <= 'Z')
            ||| w.len() == 36 && w[8] == '-' && w[13] == '-' && w[18] == '-' && w[23] == '-'
                && forall|i: int|
                0 <= i < 36 && i != 8 && i != 13 && i != 18 && i != 23 ==> hexadecimal(
                    #[trigger] w[i],
                )
        },
{
    if w.len() == 36 {
        let a = w.subrange(0, 8);
        let b = w.subrange(9, 13);
        let c = w.subrange(14, 18);
        let d = w.subrange(19, 23);
        let e = w.subrange(24, 36);
        let h = '-';
        if w[8] == h && w[13] == h && w[18] == h && w[23] == h && forall|i: int|
            0 <= i < 36 && i != 8 && i != 13 && i != 18 && i != 23 ==> hexadecimal(
                #[trigger] w[i],
            ) {
            assert(!a.contains(h) && !b.contains(h) && !c.contains(h) && !d.contains(h)
                && !e.contains(h)) by {
                assert forall|i: int| 0 <= i < 36 && i != 8 && i != 13 && i != 18 && i != 23 implies (
                #[trigger] w[i]) != h by {
                    assert(hexadecimal(w[i]));
                }
            }
            one_piece(a, h);
            one_piece(b, h);
            one_piece(c, h);
            one_piece(d, h);
            one_piece(e, h);
            let ab = a + seq![h] + b;
            let abc = ab + seq![h] + c;
            let abcd = abc + seq![h] + d;
            pieces_fall_apart_at_a_separator(a, h, b);
            pieces_fall_apart_at_a_separator(ab, h, c);
            pieces_fall_apart_at_a_separator(abc, h, d);
            pieces_fall_apart_at_a_separator(abcd, h, e);
            assert(abcd + seq![h] + e =~= w);
            let parts = split_on(w, h);
            assert(parts =~= seq![a, b, c, d, e]);
            assert(all_hex(a) && all_hex(b) && all_hex(c) && all_hex(d) && all_hex(e)) by {
                assert forall|i: int| 0 <= i < 36 && i != 8 && i != 13 && i != 18 && i != 23 implies is_hex_digit(
                #[trigger] w[i]) by {
                    assert(hexadecimal(w[i]));
                }
            }
            let sizes = uuid_groups();
            assert(sizes[0] == 8 && sizes[1] == 4 && sizes[2] == 4 && sizes[3] == 4 && sizes[4] == 12);
            assert(looks_like_uuid(w));
        }
        if looks_like_uuid(w) {
            uuid_form(w);
        }
    }
}

/// The form of a UUID.
proof fn uuid_form(w: Seq<char>)
    requires
        looks_like_uuid(w),
    ensures
        w[8] == '-' && w[13] == '-' && w[18] == '-' && w[23] == '-',
        forall|i: int|
            0 <= i < 36 && i != 8 && i != 13 && i != 18 && i != 23 ==> hexadecimal(#[trigger] w[i]),
{
    let h = '-';
    let p = split_on(w, h);
    let sizes = uuid_groups();
    assert(sizes[0] == 8 && sizes[1] == 4 && sizes[2] == 4 && sizes[3] == 4 && sizes[4] == 12);
    assert(p[0].len() == 8 && p[1].len() == 4 && p[2].len() == 4 && p[3].len() == 4 && p[4].len()
        == 12);
    pieces_make_up_the_text(w, h);
    let sep = seq![h];
    reveal_with_fuel(join, 6);
    assert(p.drop_last().last() == p[3]);
    assert(p.drop_last().drop_last().last() == p[2]);
    assert(p.drop_last().drop_last().drop_last().last() == p[1]);
    assert(p.drop_last().drop_last().drop_last().drop_last()[0] == p[0]);
    assert(w == p[0] + sep + p[1] + sep + p[2] + sep + p[3] + sep + p[4]);
    assert forall|i: int| 0 <= i < 36 && i != 8 && i != 13 && i != 18 && i != 23 implies hexadecimal(
        #[trigger] w[i],
    ) by {
        if i < 8 {
            assert(is_hex_digit(p[0][i]));
        } else if i < 13 {
            assert(is_hex_digit(p[1][i - 9]));
        } else if i < 18 {
            assert(is_hex_digit(p[2][i - 14]));
        } else if i < 23 {
            assert(is_hex_digit(p[3][i - 19]));
        } else {
            assert(is_hex_digit(p[4][i - 24]));
        }
    }
}

/// An identifier behind a name does not show in the title, however many there are;
/// the words of a name without one are the title, with one blank between each two.
pub proof fn identifiers_do_not_show(s: Seq<char>, id: Seq<char>)
    requires
        s.len() > 0,
        plain_name(s),
        words(s).len() > 0,
        id.len() > 0,
        no_space(id),
        plain_name(id),
        id_token(id),
    ensures
        without_ids(words(s)).len() > 0 ==> title_of(s + seq![' '] + id) == title_of(s),
        !id_token(words(s).last()) ==> title_of(s) == join(words(s), seq![' ']) && title_of(
            s + seq![' '] + id,
        ) == join(words(s), seq![' ']),
        title_of(id) == id,
{
    let x = s + seq![' '] + id;
    assert(plain_name(x)) by {
        assert forall|i: int| 0 <= i < x.len() implies (#[trigger] x[i]) != '(' && x[i] != ')' && x[i]
            != '[' && x[i] != ']' && x[i] != '.' && x[i] != '/' by {
            if i < s.len() {
                assert(x[i] == s[i]);
                assert(s.contains(s[i]));
            } else if i > s.len() {
                assert(x[i] == id[i - s.len() - 1]);
                assert(id.contains(id[i - s.len() - 1]));
            }
        }
    }
    plain_stem(s, Seq::empty());
    plain_stem(x, Seq::empty());
    plain_stem(id, Seq::empty());
    words_fall_apart_at_a_blank(s, ' ', id);
    one_word_or_none(id);
    let ws = words(x);
    assert(ws =~= words(s).push(id));
    assert(ws.drop_last() =~= words(s));
    assert(seq![id].drop_last() =~= Seq::empty());
    assert(without_ids(seq![id]) == without_ids(seq![id].drop_last()));
}

/// A description's tags go, from `<` to `>`, and the text around them stays.
pub proof fn tags_are_taken_out(a: Seq<char>, tag: Seq<char>, b: Seq<char>)
    requires
        !tag.contains('<'),
        !tag.contains('>'),
        !ends_in_tag(a),
    ensures
        outside_tags(a + seq!['<'] + tag + seq!['>'] + b) == outside_tags(a) + outside_tags(b),
{
    let opened = a + seq!['<'];
    assert(opened.drop_last() =~= a);
    assert(ends_in_tag(opened));
    assert(outside_tags(opened) == outside_tags(a));
    within_a_tag(opened, tag);
    let closed = opened + tag + seq!['>'];
    assert(closed.drop_last() =~= opened + tag);
    assert(!ends_in_tag(closed));
    behind_tags(closed, b);
}

/// Text within a tag.
proof fn within_a_tag(s: Seq<char>, t: Seq<char>)
    requires
        ends_in_tag(s),
        !t.contains('<'),
        !t.contains('>'),
    ensures
        ends_in_tag(s + t),
        outside_tags(s + t) == outside_tags(s),
    decreases t.len(),
{
    if t.len() == 0 {
        assert(s + t =~= s);
    } else {
        let rest = t.drop_last();
        assert((s + t).drop_last() =~= s + rest);
        assert(t.contains(t[t.len() - 1]));
        assert(!rest.contains('<') && !rest.contains('>')) by {
            assert forall|i: int| 0 <= i < rest.len() implies (#[trigger] rest[i]) != '<' && rest[i]
                != '>' by {
                assert(t.contains(t[i]));
            }
        }
        within_a_tag(s, rest);
    }
}

/// Text behind text that does not end within a tag.
proof fn behind_tags(s: Seq<char>, t: Seq<char>)
    requires
        !ends_in_tag(s),
    ensures
        outside_tags(s + t) == outside_tags(s) + outside_tags(t),
        ends_in_tag(s + t) == ends_in_tag(t),
    decreases t.len(),
{
    if t.len() == 0 {
        assert(s + t =~= s);
        assert(outside_tags(s) + outside_tags(t) =~= outside_tags(s));
    } else {
        let rest = t.drop_last();
        assert((s + t).drop_last() =~= s + rest);
        behind_tags(s, rest);
        assert((s + t).last() == t.last());
        assert(outside_tags(s + t) =~= outside_tags(s) + outside_tags(t));
    }
}

/// A description without tags and entities keeps its words, with one blank between
/// each two.
pub proof fn plain_descriptions_keep_their_words(s: Seq<char>)
    requires
        !s.contains('<'),
        !s.contains('>'),
        !s.contains('&'),
        !s.contains('\n'),
    ensures
        plain_text(s) == join(words(s), seq![' ']),
{
    untagged(s);
    reveal_strlit("&amp;");
    reveal_strlit("&lt;");
    reveal_strlit("&gt;");
    reveal_strlit("&quot;");
    reveal_strlit("&#39;");
    reveal_strlit("\n");
    not_replaced(s, "&amp;"@, "&"@);
    not_replaced(s, "&lt;"@, "<"@);
    not_replaced(s, "&gt;"@, ">"@);
    not_replaced(s, "&quot;"@, "\""@);
    not_replaced(s, "&#39;"@, "'"@);
    not_replaced(s, "\n"@, " "@);
}

/// A text without tags stays.
proof fn untagged(s: Seq<char>)
    requires
        !s.contains('<'),
        !s.contains('>'),
    ensures
        outside_tags(s) == s,
        !ends_in_tag(s),
    decreases s.len(),
{
    if s.len() > 0 {
        let rest = s.drop_last();
        assert(s.contains(s[s.len() - 1]));
        assert(!rest.contains('<') && !rest.contains('>')) by {
            assert forall|i: int| 0 <= i < rest.len() implies (#[trigger] rest[i]) != '<' && rest[i]
                != '>' by {
                assert(s.contains(s[i]));
            }
        }
        untagged(rest);
        assert(rest.push(s.last()) =~= s);
    }
}

/// A text without the first character of another is left alone by its replacement.
proof fn not_replaced(s: Seq<char>, pat: Seq<char>, to: Seq<char>)
    requires
        pat.len() > 0,
        !s.contains(pat[0]),
    ensures
        replaced(s, pat, to) == s,
{
    assert forall|j: int| 0 <= j < s.len() implies !occurs_at(s, pat, j) by {
        if occurs_at(s, pat, j) {
            assert(s.subrange(j, j + pat.len())[0] == s[j]);
            assert(s.contains(s[j]));
        }
    }
    every_occurrence_is_replaced(s, pat, to, s.len() as int);
}

/// Brackets within brackets go with them, and a closing bracket that nothing opened stays.
pub proof fn nested_groups_go_with_their_group(
    a: Seq<char>,
    x: Seq<char>,
    y: Seq<char>,
    z: Seq<char>,
    b: Seq<char>,
)
    requires
        no_brackets(a),
        no_brackets(x),
        no_brackets(y),
        no_brackets(z),
        no_brackets(b),
    ensures
        scan_groups(
            a + seq!['('] + x + seq!['('] + y + seq![')'] + z + seq![')'] + b,
        ).outside == a + b,
        scan_groups(a + seq![')'] + b).outside == a + seq![')'] + b,
        scan_groups(a + seq!['('] + x).outside == a,
{
    plain_scan(a);
    let s1 = a + seq!['('];
    assert(s1.drop_last() =~= a);
    scan_plain(s1, x);
    let s2 = s1 + x;
    let s3 = s2 + seq!['('];
    assert(s3.drop_last() =~= s2);
    scan_plain(s3, y);
    let s4 = s3 + y;
    let s5 = s4 + seq![')'];
    assert(s5.drop_last() =~= s4);
    scan_plain(s5, z);
    let s6 = s5 + z;
    let s7 = s6 + seq![')'];
    assert(s7.drop_last() =~= s6);
    scan_plain(s7, b);
    let t = a + seq![')'];
    assert(t.drop_last() =~= a);
    scan_plain(t, b);
    assert(scan_groups(t).outside =~= t);
}

/// The entities of HTML are resolved in a description.
pub proof fn html_entities_are_resolved(a: Seq<char>, b: Seq<char>)
    requires
        !a.contains('&') && !a.contains(';') && !a.contains('\n'),
        !b.contains('&') && !b.contains(';') && !b.contains('\n'),
    ensures
        html_unescaped(a + "&amp;"@ + b) == a + seq!['&'] + b,
        html_unescaped(a + "&lt;"@ + b) == a + seq!['<'] + b,
        html_unescaped(a + "&gt;"@ + b) == a + seq!['>'] + b,
        html_unescaped(a + "&quot;"@ + b) == a + seq!['"'] + b,
        html_unescaped(a + "&#39;"@ + b) == a + seq!['\''] + b,
        html_unescaped(a + b) == a + b,
{
    an_html_entity(a, b, 0);
    an_html_entity(a, b, 1);
    an_html_entity(a, b, 2);
    an_html_entity(a, b, 3);
    an_html_entity(a, b, 4);
    let t = a + b;
    assert(!t.contains('&') && !t.contains('\n')) by {
        assert forall|i: int| 0 <= i < t.len() implies (#[trigger] t[i]) != '&' && t[i] != '\n' by {
            if i < a.len() {
                assert(a.contains(a[i]));
            } else {
                assert(b.contains(b[i - a.len()]));
            }
        }
    }
    reveal_strlit("&amp;");
    reveal_strlit("&lt;");
    reveal_strlit("&gt;");
    reveal_strlit("&quot;");
    reveal_strlit("&#39;");
    reveal_strlit("\n");
    not_replaced(t, "&amp;"@, "&"@);
    not_replaced(t, "&lt;"@, "<"@);
    not_replaced(t, "&gt;"@, ">"@);
    not_replaced(t, "&quot;"@, "\""@);
    not_replaced(t, "&#39;"@, "'"@);
    not_replaced(t, "\n"@, " "@);
}

/// The entities that are resolved, in their order, and what they stand for.
spec fn html_entity(k: int) -> (Seq<char>, char) {
    if k == 0 {
        ("&amp;"@, '&')
    } else if k == 1 {
        ("&lt;"@, '<')
    } else if k == 2 {
        ("&gt;"@, '>')
    } else if k == 3 {
        ("&quot;"@, '"')
    } else {
        ("&#39;"@, '\'')
    }
}

/// One entity alone is resolved.
proof fn an_html_entity(a: Seq<char>, b: Seq<char>, k: int)
    requires
        !a.contains('&') && !a.contains(';') && !a.contains('\n'),
        !b.contains('&') && !b.contains(';') && !b.contains('\n'),
        0 <= k < 5,
    ensures
        html_unescaped(a + html_entity(k).0 + b) == a + seq![html_entity(k).1] + b,
{
    reveal_strlit("&amp;");
    reveal_strlit("&lt;");
    reveal_strlit("&gt;");
    reveal_strlit("&quot;");
    reveal_strlit("&#39;");
    reveal_strlit("&");
    reveal_strlit("<");
    reveal_strlit(">");
    reveal_strlit("\"");
    reveal_strlit("'");
    reveal_strlit("\n");
    reveal_strlit(" ");
    assert("&"@ =~= seq!['&'] && "<"@ =~= seq!['<'] && ">"@ =~= seq!['>'] && "\""@ =~= seq!['"']
        && "'"@ =~= seq!['\'']);
    let (e, c) = html_entity(k);
    let s = a + e + b;
    let t = a + seq![c] + b;
    if k > 0 {
        alone(a, e, b, "&amp;"@, "&"@);
    }
    if k > 1 {
        alone(a, e, b, "&lt;"@, "<"@);
    }
    if k > 2 {
        alone(a, e, b, "&gt;"@, ">"@);
    }
    if k > 3 {
        alone(a, e, b, "&quot;"@, "\""@);
    }
    resolved_once(a, e, b, seq![c]);
    no_semicolon(a, c, b);
    unfinished(t, "&lt;"@, "<"@, 3);
    unfinished(t, "&gt;"@, ">"@, 3);
    unfinished(t, "&quot;"@, "\""@, 5);
    unfinished(t, "&#39;"@, "'"@, 4);
    not_replaced(t, "\n"@, " "@);
}

/// What is left when an entity was resolved has neither a semicolon nor a line break.
proof fn no_semicolon(a: Seq<char>, c: char, b: Seq<char>)
    requires
        !a.contains(';') && !a.contains('\n'),
        !b.contains(';') && !b.contains('\n'),
        c != ';' && c != '\n',
    ensures
        !(a + seq![c] + b).contains(';'),
        !(a + seq![c] + b).contains('\n'),
{
    let t = a + seq![c] + b;
    assert forall|i: int| 0 <= i < t.len() implies (#[trigger] t[i]) != ';' && t[i] != '\n' by {
        if i < a.len() {
            assert(a.contains(a[i]));
        } else if i > a.len() {
            assert(b.contains(b[i - a.len() - 1]));
        }
    }
}

/// An entity is not replaced where its semicolon is nowhere.
proof fn unfinished(s: Seq<char>, pat: Seq<char>, to: Seq<char>, k: int)
    requires
        0 <= k < pat.len(),
        pat[k] == ';',
        !s.contains(';'),
    ensures
        replaced(s, pat, to) == s,
{
    assert forall|j: int| 0 <= j < s.len() implies !occurs_at(s, pat, j) by {
        if occurs_at(s, pat, j) {
            assert(s.subrange(j, j + pat.len())[k] == s[j + k]);
            assert(s.contains(s[j + k]));
        }
    }
    every_occurrence_is_replaced(s, pat, to, s.len() as int);
}

/// An entity is left alone where another is replaced.
proof fn alone(a: Seq<char>, e: Seq<char>, b: Seq<char>, pat: Seq<char>, to: Seq<char>)
    requires
        !a.contains('&'),
        !b.contains('&'),
        e.len() > 1,
        pat.len() > 1,
        pat[0] == '&',
        pat[1] != e[1],
        forall|i: int| 1 <= i < e.len() ==> (#[trigger] e[i]) != '&',
    ensures
        replaced(a + e + b, pat, to) == a + e + b,
{
    let s = a + e + b;
    assert forall|j: int| 0 <= j < s.len() implies !occurs_at(s, pat, j) by {
        if occurs_at(s, pat, j) {
            assert(s.subrange(j, j + pat.len())[0] == s[j]);
            assert(s.subrange(j, j + pat.len())[1] == s[j + 1]);
            if j < a.len() {
                assert(a.contains(a[j]));
            } else if j >= a.len() + e.len() {
                assert(b.contains(b[j - a.len() - e.len()]));
            } else if j > a.len() {
                assert(s[j] == e[j - a.len()]);
            }
        }
    }
    every_occurrence_is_replaced(s, pat, to, s.len() as int);
}

/// An entity is replaced.
proof fn resolved_once(a: Seq<char>, e: Seq<char>, b: Seq<char>, to: Seq<char>)
    requires
        !a.contains('&'),
        !b.contains('&'),
        e.len() > 0,
        e[0] == '&',
    ensures
        replaced(a + e + b, e, to) == a + to + b,
{
    let s = a + e + b;
    let at = a.len() as int;
    assert forall|j: int| 0 <= j < at implies !occurs_at(s, e, j) by {
        if occurs_at(s, e, j) {
            assert(s.subrange(j, j + e.len())[0] == s[j]);
            assert(a.contains(a[j]));
        }
    }
    assert(s.subrange(at, at + e.len()) =~= e);
    every_occurrence_is_replaced(s, e, to, at);
    assert(s.take(at) =~= a);
    assert(s.skip(at + e.len()) =~= b);
    not_replaced(b, e, to);
}

/// A `>` that closes no tag goes, too, and a tag that is never closed takes everything
/// behind it along.
pub proof fn stray_marks_go(a: Seq<char>, b: Seq<char>, t: Seq<char>)
    requires
        !ends_in_tag(a),
        !t.contains('>'),
        !t.contains('<'),
    ensures
        outside_tags(a + seq!['>'] + b) == outside_tags(a) + outside_tags(b),
        outside_tags(a + seq!['<'] + t) == outside_tags(a),
        !b.contains('<') && !b.contains('>') ==> outside_tags(b) == b,
{
    let closed = a + seq!['>'];
    assert(closed.drop_last() =~= a);
    assert(outside_tags(closed) == outside_tags(a));
    behind_tags(closed, b);
    let opened = a + seq!['<'];
    assert(opened.drop_last() =~= a);
    assert(outside_tags(opened) == outside_tags(a));
    within_a_tag(opened, t);
    if !b.contains('<') && !b.contains('>') {
        untagged(b);
    }
}

} // verus!
