//! Text primitives.
//!
//! Every text is modelled by the sequence of its characters. The functions
//! here are the few operations on such sequences that the rest of the library
//! is built from: comparing, searching, trimming, splitting, joining and
//! replacing.
use vstd::prelude::*;
use vstd::slice::slice_subrange;

verus! {

/// Trusted: `String::push` appends one character at the end of the string.
pub assume_specification[ String::push ](s: &mut String, c: char)
    ensures
        final(s)@ == old(s)@.push(c),
;

/// The name of what `str::to_lowercase` makes of a text: the Unicode
/// lowercase mapping, locale independent.
pub uninterp spec fn unicode_lowercase(s: Seq<char>) -> Seq<char>;

/// Trusted: calls `str::to_lowercase`. Its result is a function of the text
/// alone; the Unicode mapping itself is only named.
#[verifier::external_body]
pub(crate) fn unicode_lower(s: &str) -> (r: String)
    ensures
        r@ == unicode_lowercase(s@),
{
    s.to_lowercase()
}

/// The name of what `String::from_utf8_lossy` makes of a byte string.
pub uninterp spec fn lossy_text(bytes: Seq<u8>) -> Seq<char>;

/// Trusted: calls `String::from_utf8_lossy`. On valid UTF-8 the result is the
/// text that the bytes encode; what stands for invalid bytes is only named.
#[verifier::external_body]
pub(crate) fn text_from_bytes(bytes: &[u8]) -> (r: String)
    ensures
        r@ == lossy_text(bytes@),
        vstd::utf8::valid_utf8(bytes@) ==> vstd::utf8::encode_utf8(r@) == bytes@,
{
    String::from_utf8_lossy(bytes).into_owned()
}

// ── Conversions ──────────────────────────────────────────────────────────────

/// The texts of a sequence of strings.
pub open spec fn texts(v: Seq<String>) -> Seq<Seq<char>> {
    v.map_values(|s: String| s@)
}

/// The text of an optional string.
pub open spec fn opt_text(o: Option<String>) -> Option<Seq<char>> {
    match o {
        Some(s) => Some(s@),
        None => None,
    }
}

/// The characters of a text, as a vector.
pub fn chars_of(s: &str) -> (v: Vec<char>)
    ensures
        v@ == s@,
{
    let mut v: Vec<char> = Vec::new();
    for c in iter: s.chars()
        invariant
            v@ == iter.seq().take(iter.index()),
            iter.seq() == s@,
    {
        v.push(c);
    }
    v
}

/// The string made of the given characters.
pub fn string_of(v: &[char]) -> (s: String)
    ensures
        s@ == v@,
{
    let mut s = String::new();
    for i in 0..v.len()
        invariant
            s@ == v@.take(i as int),
    {
        s.push(v[i]);
        assert(v@.take(i + 1) == v@.take(i as int).push(v@[i as int]));
    }
    assert(v@.take(v@.len() as int) == v@);
    s
}

/// Appends all of `tail` to `v`.
pub fn push_all(v: &mut Vec<char>, tail: &[char])
    ensures
        final(v)@ == old(v)@ + tail@,
{
    let ghost before = v@;
    for i in 0..tail.len()
        invariant
            v@ == before + tail@.take(i as int),
    {
        v.push(tail[i]);
        assert(tail@.take(i + 1) == tail@.take(i as int).push(tail@[i as int]));
    }
    assert(tail@.take(tail@.len() as int) == tail@);
}

/// Whether two character slices hold the same text.
pub fn same_chars(a: &[char], b: &[char]) -> (r: bool)
    ensures
        r == (a@ == b@),
{
    if a.len() != b.len() {
        return false;
    }
    for i in 0..a.len()
        invariant
            a@.len() == b@.len(),
            a@.take(i as int) == b@.take(i as int),
    {
        if a[i] != b[i] {
            assert(a@[i as int] != b@[i as int]);
            return false;
        }
        assert(a@.take(i + 1) == a@.take(i as int).push(a@[i as int]));
        assert(b@.take(i + 1) == b@.take(i as int).push(b@[i as int]));
    }
    assert(a@.take(a@.len() as int) == a@);
    assert(b@.take(b@.len() as int) == b@);
    true
}

/// Whether two strings hold the same text.
pub fn same_text(a: &str, b: &str) -> (r: bool)
    ensures
        r == (a@ == b@),
{
    let x = chars_of(a);
    let y = chars_of(b);
    same_chars(x.as_slice(), y.as_slice())
}

/// A copy of a text.
pub fn text_copy(s: &str) -> (r: String)
    ensures
        r@ == s@,
{
    s.to_owned()
}

/// Three texts, one after the other.
pub fn concat3(a: &str, b: &str, c: &str) -> (r: String)
    ensures
        r@ == a@ + b@ + c@,
{
    let mut r = a.to_owned();
    r.append(b);
    r.append(c);
    r
}

/// Copies a list of strings.
pub fn copy_texts(v: &Vec<String>) -> (r: Vec<String>)
    ensures
        r@ == v@,
{
    let mut r: Vec<String> = Vec::new();
    for i in 0..v.len()
        invariant
            r@ == v@.take(i as int),
    {
        r.push(v[i].clone());
        assert(v@.take(i + 1) == v@.take(i as int).push(v@[i as int]));
    }
    assert(v@.take(v@.len() as int) == v@);
    r
}

/// A copy of an optional string.
pub fn copy_opt(o: &Option<String>) -> (r: Option<String>)
    ensures
        r == *o,
{
    match o {
        Some(s) => Some(s.clone()),
        None => None,
    }
}

// ── Character classes ────────────────────────────────────────────────────────

/// The characters with Unicode's `White_Space` property.
pub open spec fn is_space(c: char) -> bool {
    let n = c as u32;
    ||| 0x09 <= n <= 0x0d
    ||| n == 0x20
    ||| n == 0x85
    ||| n == 0xa0
    ||| n == 0x1680
    ||| 0x2000 <= n <= 0x200a
    ||| n == 0x2028
    ||| n == 0x2029
    ||| n == 0x202f
    ||| n == 0x205f
    ||| n == 0x3000
}

/// Whether a character has Unicode's `White_Space` property.
pub fn is_space_char(c: char) -> (r: bool)
    ensures
        r == is_space(c),
{
    let n: u32 = c as u32;
    (0x09 <= n && n <= 0x0d) || n == 0x20 || n == 0x85 || n == 0xa0 || n == 0x1680 || (0x2000 <= n
        && n <= 0x200a) || n == 0x2028 || n == 0x2029 || n == 0x202f || n == 0x205f || n == 0x3000
}

/// The ASCII decimal digits.
pub open spec fn is_digit(c: char) -> bool {
    '0' <= c && c <= '9'
}

/// Whether a character is an ASCII decimal digit.
pub fn is_digit_char(c: char) -> (r: bool)
    ensures
        r == is_digit(c),
{
    '0' <= c && c <= '9'
}

/// The ASCII hexadecimal digits, in either case.
pub open spec fn is_hex_digit(c: char) -> bool {
    is_digit(c) || ('a' <= c && c <= 'f') || ('A' <= c && c <= 'F')
}

/// The ASCII capital letters.
pub open spec fn is_upper(c: char) -> bool {
    'A' <= c && c <= 'Z'
}

/// The lowercase form of an ASCII letter; any other character as it is.
pub open spec fn lower_char(c: char) -> char {
    if is_upper(c) {
        (c as u8 + 32) as u8 as char
    } else {
        c
    }
}

/// A text with its ASCII letters in lowercase.
pub open spec fn ascii_lower(s: Seq<char>) -> Seq<char> {
    s.map_values(|c: char| lower_char(c))
}

/// The lowercase form of an ASCII letter.
pub fn to_lower_char(c: char) -> (r: char)
    ensures
        r == lower_char(c),
{
    if 'A' <= c && c <= 'Z' {
        (c as u8 + 32) as char
    } else {
        c
    }
}

/// The characters of a text with its ASCII letters in lowercase.
pub fn lower_chars(s: &str) -> (v: Vec<char>)
    ensures
        v@ == ascii_lower(s@),
{
    let mut v = chars_of(s);
    let ghost orig = v@;
    let n: usize = v.len();
    for i in 0..n
        invariant
            n == v@.len(),
            v@.len() == orig.len(),
            forall|j: int| 0 <= j < i ==> v@[j] == lower_char(orig[j]),
            forall|j: int| i <= j < n ==> v@[j] == orig[j],
    {
        let c = v[i];
        v.set(i, to_lower_char(c));
    }
    assert(v@ =~= ascii_lower(orig));
    v
}

/// Whether the character `a` is the character `b`, a capital ASCII letter being
/// taken for the small one that stands 32 places behind it.
pub open spec fn same_letter(a: char, b: char) -> bool {
    if 'A' <= a && a <= 'Z' {
        a as int + 32 == b as int
    } else {
        a == b
    }
}

/// Whether a name ends in the given small letters, whichever case it writes them
/// in.
pub open spec fn ends_in(name: Seq<char>, ending: Seq<char>) -> bool {
    ending.len() <= name.len() && forall|i: int|
        0 <= i < ending.len() ==> same_letter(
            name[name.len() - ending.len() + i],
            #[trigger] ending[i],
        )
}

/// Lowercasing turns each capital ASCII letter into the small one and leaves every
/// other character alone.
pub proof fn lowercase_letter_by_letter(s: Seq<char>)
    ensures
        ascii_lower(s).len() == s.len(),
        forall|i: int| 0 <= i < s.len() ==> same_letter(s[i], #[trigger] ascii_lower(s)[i]),
{
    assert forall|i: int| 0 <= i < s.len() implies same_letter(
        s[i],
        #[trigger] ascii_lower(s)[i],
    ) by {
        lowered(s[i], ascii_lower(s)[i]);
    }
}

/// What the lowercase form of a character is.
proof fn lowered(a: char, b: char)
    ensures
        lower_char(a) == b <==> same_letter(a, b),
{
    if is_upper(a) {
        assert((a as u8 + 32) as u8 as char as int == a as int + 32);
    }
}

/// The lowercase form of a name ends with a text exactly if the name ends in it
/// in whichever case; and what stands ahead of the ending does not matter.
pub proof fn endings_ignore_case(name: Seq<char>, ending: Seq<char>)
    ensures
        ends_with(ascii_lower(name), ending) <==> ends_in(name, ending),
        forall|front: Seq<char>|
            ends_in(name, ending) ==> #[trigger] ends_in(front + name, ending),
{
    let lower = ascii_lower(name);
    let at = name.len() - ending.len();
    if at >= 0 {
        let tail = lower.subrange(at, lower.len() as int);
        assert forall|i: int| 0 <= i < ending.len() implies (tail[i] == #[trigger] ending[i]
            <==> same_letter(name[at + i], ending[i])) by {
            lowered(name[at + i], ending[i]);
        }
        if ends_in(name, ending) {
            assert(tail =~= ending);
        }
        if tail == ending {
            assert forall|i: int| 0 <= i < ending.len() implies same_letter(
                name[at + i],
                #[trigger] ending[i],
            ) by {
                assert(tail[i] == ending[i]);
            }
        }
    }
    assert forall|front: Seq<char>| ends_in(name, ending) implies #[trigger] ends_in(
        front + name,
        ending,
    ) by {
        let whole = front + name;
        assert forall|i: int| 0 <= i < ending.len() implies same_letter(
            whole[whole.len() - ending.len() + i],
            #[trigger] ending[i],
        ) by {
            assert(whole[whole.len() - ending.len() + i] == name[at + i]);
        }
    }
}

// ── Searching ────────────────────────────────────────────────────────────────

/// Whether `pat` stands in `s` at position `i`.
pub open spec fn occurs_at(s: Seq<char>, pat: Seq<char>, i: int) -> bool {
    0 <= i && i + pat.len() <= s.len() && s.subrange(i, i + pat.len()) == pat
}

/// Whether `s` begins with `pat`.
pub open spec fn starts_with(s: Seq<char>, pat: Seq<char>) -> bool {
    occurs_at(s, pat, 0)
}

/// Whether `s` ends with `pat`.
pub open spec fn ends_with(s: Seq<char>, pat: Seq<char>) -> bool {
    occurs_at(s, pat, s.len() - pat.len())
}

/// The first position at or after `from` at which `pat` stands in `s`.
pub open spec fn first_at(s: Seq<char>, pat: Seq<char>, from: int) -> Option<int>
    decreases s.len() + 1 - from,
{
    if from + pat.len() > s.len() || from < 0 {
        None
    } else if occurs_at(s, pat, from) {
        Some(from)
    } else {
        first_at(s, pat, from + 1)
    }
}

/// Whether `pat` stands somewhere in `s`.
pub open spec fn contains_text(s: Seq<char>, pat: Seq<char>) -> bool {
    exists|i: int| occurs_at(s, pat, i)
}

/// Whether `pat` stands in `v` at position `at`.
pub fn stands_at(v: &[char], pat: &[char], at: usize) -> (r: bool)
    ensures
        r == occurs_at(v@, pat@, at as int),
{
    if at > v.len() || pat.len() > v.len() - at {
        return false;
    }
    same_chars(slice_subrange(v, at, at + pat.len()), pat)
}

/// Whether `v` begins with the text `pat`.
pub fn begins_with(v: &[char], pat: &str) -> (r: bool)
    ensures
        r == starts_with(v@, pat@),
{
    let p = chars_of(pat);
    stands_at(v, p.as_slice(), 0)
}

/// Whether `v` ends with the text `pat`.
pub fn finishes_with(v: &[char], pat: &str) -> (r: bool)
    ensures
        r == ends_with(v@, pat@),
{
    let p = chars_of(pat);
    if p.len() > v.len() {
        return false;
    }
    stands_at(v, p.as_slice(), v.len() - p.len())
}

/// The first position at or after `from` at which `pat` stands in `v`.
pub fn find_at(v: &[char], pat: &[char], from: usize) -> (r: Option<usize>)
    ensures
        match r {
            Some(i) => first_at(v@, pat@, from as int) == Some(i as int),
            None => first_at(v@, pat@, from as int) is None,
        },
{
    let mut i: usize = from;
    while i <= v.len() && pat.len() <= v.len() - i
        invariant
            from <= i,
            i <= v@.len() || i == from,
            first_at(v@, pat@, i as int) == first_at(v@, pat@, from as int),
        decreases v@.len() + 1 - i,
    {
        if stands_at(v, pat, i) {
            return Some(i);
        }
        if i == v.len() {
            assert(first_at(v@, pat@, i + 1) is None);
            return None;
        }
        i = i + 1;
    }
    None
}

/// Where the first occurrence is: it is an occurrence, and none comes earlier.
pub proof fn first_at_is_first(s: Seq<char>, pat: Seq<char>, from: int)
    requires
        0 <= from,
    ensures
        match first_at(s, pat, from) {
            Some(i) => {
                &&& from <= i
                &&& occurs_at(s, pat, i)
                &&& forall|j: int| from <= j < i ==> !occurs_at(s, pat, j)
            },
            None => forall|j: int| from <= j ==> !occurs_at(s, pat, j),
        },
    decreases s.len() + 1 - from,
{
    if from + pat.len() <= s.len() && !occurs_at(s, pat, from) {
        first_at_is_first(s, pat, from + 1);
    }
}

/// Whether `v` holds the text `pat` somewhere.
pub fn holds_text(v: &[char], pat: &str) -> (r: bool)
    ensures
        r == contains_text(v@, pat@),
{
    let p = chars_of(pat);
    let found = find_at(v, p.as_slice(), 0);
    proof {
        first_at_is_first(v@, p@, 0);
    }
    found.is_some()
}

// ── Trimming ─────────────────────────────────────────────────────────────────

/// A text without its leading whitespace.
pub open spec fn trim_start(s: Seq<char>) -> Seq<char>
    decreases s.len(),
{
    if s.len() > 0 && is_space(s[0]) {
        trim_start(s.drop_first())
    } else {
        s
    }
}

/// A text without its trailing whitespace.
pub open spec fn trim_end(s: Seq<char>) -> Seq<char>
    decreases s.len(),
{
    if s.len() > 0 && is_space(s.last()) {
        trim_end(s.drop_last())
    } else {
        s
    }
}

/// A text without its leading and trailing whitespace.
pub open spec fn trim(s: Seq<char>) -> Seq<char> {
    trim_end(trim_start(s))
}

/// A trimmed text neither begins nor ends with whitespace, and trimming it again
/// changes nothing.
pub proof fn trim_leaves_no_space(s: Seq<char>)
    ensures
        trim(s).len() > 0 ==> !is_space(trim(s)[0]) && !is_space(trim(s).last()),
        trim(trim(s)) == trim(s),
{
    trim_start_stops(s);
    trim_end_stops(trim_start(s));
    let t = trim(s);
    assert(trim_start(t) == t);
    assert(trim_end(t) == t);
}

/// Where trimming at the start stops.
proof fn trim_start_stops(s: Seq<char>)
    ensures
        trim_start(s).len() > 0 ==> !is_space(trim_start(s)[0]),
    decreases s.len(),
{
    if s.len() > 0 && is_space(s[0]) {
        trim_start_stops(s.drop_first());
    }
}

/// Where trimming at the end stops; the start stays.
proof fn trim_end_stops(s: Seq<char>)
    ensures
        trim_end(s).len() > 0 ==> !is_space(trim_end(s).last()) && trim_end(s)[0] == s[0],
    decreases s.len(),
{
    if s.len() > 0 && is_space(s.last()) {
        trim_end_stops(s.drop_last());
    }
}

/// The part of `v` between its leading and its trailing whitespace.
pub fn trimmed(v: &[char]) -> (r: &[char])
    ensures
        r@ == trim(v@),
{
    let mut start: usize = 0;
    assert(v@.skip(0) == v@);
    while start < v.len() && is_space_char(v[start])
        invariant
            start <= v@.len(),
            trim_start(v@.skip(start as int)) == trim_start(v@),
        decreases v@.len() - start,
    {
        assert(v@.skip(start as int).drop_first() == v@.skip(start + 1));
        start = start + 1;
    }
    let ghost tail = v@.skip(start as int);
    let mut end: usize = v.len();
    assert(v@.subrange(start as int, end as int) == tail);
    while end > start && is_space_char(v[end - 1])
        invariant
            start <= end <= v@.len(),
            tail == v@.skip(start as int),
            trim_end(v@.subrange(start as int, end as int)) == trim_end(tail),
        decreases end,
    {
        assert(v@.subrange(start as int, end as int).drop_last() == v@.subrange(
            start as int,
            end - 1,
        ));
        end = end - 1;
    }
    slice_subrange(v, start, end)
}

// ── Splitting and joining ────────────────────────────────────────────────────

/// The pieces of a text between the occurrences of `sep`. There is always at
/// least one piece, and pieces may be empty.
pub open spec fn split_on(s: Seq<char>, sep: char) -> Seq<Seq<char>>
    decreases s.len(),
{
    if s.len() == 0 {
        seq![Seq::<char>::empty()]
    } else {
        let before = split_on(s.drop_last(), sep);
        if s.last() == sep {
            before.push(Seq::<char>::empty())
        } else {
            before.update(before.len() - 1, before.last().push(s.last()))
        }
    }
}

/// The words of a text: its maximal runs of characters that are no whitespace.
pub open spec fn words(s: Seq<char>) -> Seq<Seq<char>>
    decreases s.len(),
{
    if s.len() == 0 {
        Seq::empty()
    } else {
        let before = words(s.drop_last());
        if is_space(s.last()) {
            before
        } else if s.len() >= 2 && !is_space(s[s.len() - 2]) {
            before.update(before.len() - 1, before.last().push(s.last()))
        } else {
            before.push(seq![s.last()])
        }
    }
}

/// The pieces, one after the other, with `sep` between each two.
pub open spec fn join(pieces: Seq<Seq<char>>, sep: Seq<char>) -> Seq<char>
    decreases pieces.len(),
{
    if pieces.len() == 0 {
        Seq::empty()
    } else if pieces.len() == 1 {
        pieces[0]
    } else {
        join(pieces.drop_last(), sep) + sep + pieces.last()
    }
}

/// The character sequences of a vector of character vectors.
pub open spec fn rows(v: Seq<Vec<char>>) -> Seq<Seq<char>> {
    v.map_values(|x: Vec<char>| x@)
}

/// There is always a piece.
pub proof fn split_on_has_pieces(s: Seq<char>, sep: char)
    ensures
        split_on(s, sep).len() > 0,
    decreases s.len(),
{
    if s.len() > 0 {
        split_on_has_pieces(s.drop_last(), sep);
    }
}

/// Splits a text at every `sep`.
pub fn split_chars(v: &[char], sep: char) -> (r: Vec<Vec<char>>)
    ensures
        rows(r@) == split_on(v@, sep),
        r@.len() > 0,
{
    let mut r: Vec<Vec<char>> = Vec::new();
    let mut cur: Vec<char> = Vec::new();
    assert(rows(r@).push(cur@) =~= split_on(v@.take(0), sep));
    for i in 0..v.len()
        invariant
            rows(r@).push(cur@) == split_on(v@.take(i as int), sep),
    {
        let ghost r0 = r@;
        let ghost c0 = cur@;
        assert(v@.take(i + 1).drop_last() == v@.take(i as int));
        if v[i] == sep {
            r.push(cur);
            cur = Vec::new();
            assert(rows(r@) =~= rows(r0).push(c0));
            assert(cur@ == Seq::<char>::empty());
        } else {
            cur.push(v[i]);
        }
        assert(rows(r@).push(cur@) =~= split_on(v@.take(i + 1), sep));
    }
    assert(v@.take(v@.len() as int) == v@);
    let ghost r0 = r@;
    let ghost c0 = cur@;
    r.push(cur);
    assert(rows(r@) =~= rows(r0).push(c0));
    r
}

/// The words of a text.
pub fn words_of(v: &[char]) -> (r: Vec<Vec<char>>)
    ensures
        rows(r@) == words(v@),
{
    let mut r: Vec<Vec<char>> = Vec::new();
    let mut cur: Vec<char> = Vec::new();
    assert(rows(r@) =~= words(v@.take(0)));
    for i in 0..v.len()
        invariant
            (cur@.len() > 0) == (i > 0 && !is_space(v@[i - 1])),
            words(v@.take(i as int)) == (if cur@.len() > 0 {
                rows(r@).push(cur@)
            } else {
                rows(r@)
            }),
    {
        let ghost r0 = r@;
        let ghost c0 = cur@;
        let ghost s = v@.take(i + 1);
        assert(s.drop_last() == v@.take(i as int));
        if is_space_char(v[i]) {
            if cur.len() > 0 {
                r.push(cur);
                cur = Vec::new();
                assert(rows(r@) =~= rows(r0).push(c0));
            }
        } else {
            cur.push(v[i]);
            proof {
                if c0.len() > 0 {
                    assert(s[s.len() - 2] == v@[i - 1]);
                    assert(words(s) =~= rows(r0).push(c0.push(v@[i as int])));
                } else {
                    assert(cur@ =~= seq![v@[i as int]]);
                    assert(s.len() >= 2 ==> s[s.len() - 2] == v@[i - 1]);
                    assert(words(s) =~= rows(r@).push(seq![v@[i as int]]));
                }
            }
        }
    }
    assert(v@.take(v@.len() as int) == v@);
    if cur.len() > 0 {
        let ghost r0 = r@;
        let ghost c0 = cur@;
        r.push(cur);
        assert(rows(r@) =~= rows(r0).push(c0));
    }
    r
}

/// Joins the pieces with `sep` between each two.
pub fn join_rows(pieces: &Vec<Vec<char>>, sep: &[char]) -> (r: Vec<char>)
    ensures
        r@ == join(rows(pieces@), sep@),
{
    let mut r: Vec<char> = Vec::new();
    for i in 0..pieces.len()
        invariant
            r@ == join(rows(pieces@).take(i as int), sep@),
    {
        if i > 0 {
            push_all(&mut r, sep);
        }
        push_all(&mut r, pieces[i].as_slice());
        assert(rows(pieces@).take(i + 1).drop_last() == rows(pieces@).take(i as int));
    }
    assert(rows(pieces@).take(pieces@.len() as int) == rows(pieces@));
    r
}

/// Joins strings with `sep` between each two.
pub fn join_texts(pieces: &Vec<String>, sep: &str) -> (r: String)
    ensures
        r@ == join(texts(pieces@), sep@),
{
    let mut r = String::new();
    for i in 0..pieces.len()
        invariant
            r@ == join(texts(pieces@).take(i as int), sep@),
    {
        if i > 0 {
            r.append(sep);
        }
        r.append(pieces[i].as_str());
        assert(texts(pieces@).take(i + 1).drop_last() == texts(pieces@).take(i as int));
    }
    assert(texts(pieces@).take(pieces@.len() as int) == texts(pieces@));
    r
}

// ── Replacing ────────────────────────────────────────────────────────────────

/// A text with each occurrence of `pat`, taken from left to right without
/// overlap, replaced by `to`.
pub open spec fn replaced(s: Seq<char>, pat: Seq<char>, to: Seq<char>) -> Seq<char>
    decreases s.len(),
{
    if s.len() == 0 || pat.len() == 0 {
        s
    } else if starts_with(s, pat) {
        to + replaced(s.skip(pat.len() as int), pat, to)
    } else {
        seq![s[0]] + replaced(s.drop_first(), pat, to)
    }
}

/// Replaces each occurrence of `pat` in `v` by `to`.
pub fn replace_chars(v: &[char], pat: &[char], to: &[char]) -> (r: Vec<char>)
    requires
        pat@.len() > 0,
    ensures
        r@ == replaced(v@, pat@, to@),
{
    let mut r: Vec<char> = Vec::new();
    let mut i: usize = 0;
    assert(v@.skip(0) == v@);
    while i < v.len()
        invariant
            i <= v@.len(),
            pat@.len() > 0,
            r@ + replaced(v@.skip(i as int), pat@, to@) == replaced(v@, pat@, to@),
        decreases v@.len() - i,
    {
        let ghost rest = v@.skip(i as int);
        if stands_at(v, pat, i) {
            assert(rest.subrange(0, pat@.len() as int) == v@.subrange(i as int, i + pat@.len()));
            assert(rest.skip(pat@.len() as int) == v@.skip(i + pat@.len()));
            push_all(&mut r, to);
            i = i + pat.len();
        } else {
            assert(occurs_at(rest, pat@, 0) ==> rest.subrange(0, pat@.len() as int) == v@.subrange(
                i as int,
                i + pat@.len(),
            ));
            assert(rest.drop_first() == v@.skip(i + 1));
            r.push(v[i]);
            i = i + 1;
        }
    }
    assert(v@.skip(v@.len() as int) == Seq::<char>::empty());
    r
}

/// Replaces each occurrence of the text `pat` in `v` by `to`.
pub fn replace_text(v: &[char], pat: &str, to: &str) -> (r: Vec<char>)
    requires
        pat@.len() > 0,
    ensures
        r@ == replaced(v@, pat@, to@),
{
    let p = chars_of(pat);
    let t = chars_of(to);
    replace_chars(v, p.as_slice(), t.as_slice())
}

// ── Shortening ───────────────────────────────────────────────────────────────

/// A text of more than `limit` characters, cut to its first `keep` with an
/// ellipsis behind them; a shorter text as it is.
pub open spec fn shortened(s: Seq<char>, limit: int, keep: int) -> Seq<char> {
    if s.len() > limit {
        s.take(keep) + "…"@
    } else {
        s
    }
}

/// Shortens a text for display.
pub fn shorten(s: &str, limit: usize, keep: usize) -> (r: String)
    requires
        keep <= limit,
    ensures
        r@ == shortened(s@, limit as int, keep as int),
{
    let v = chars_of(s);
    if v.len() > limit {
        let mut r = string_of(slice_subrange(v.as_slice(), 0, keep));
        r.append("…");
        r
    } else {
        s.to_owned()
    }
}

// ── Laws ─────────────────────────────────────────────────────────────────────

/// Whether every character of a text is whitespace.
pub open spec fn all_space(s: Seq<char>) -> bool {
    forall|i: int| 0 <= i < s.len() ==> is_space(#[trigger] s[i])
}

/// Whether no character of a text is whitespace.
pub open spec fn no_space(s: Seq<char>) -> bool {
    forall|i: int| 0 <= i < s.len() ==> !is_space(#[trigger] s[i])
}

/// Whether a text neither begins nor ends with whitespace.
pub open spec fn bare(s: Seq<char>) -> bool {
    s.len() > 0 ==> !is_space(s[0]) && !is_space(s.last())
}

/// Trimming takes the whitespace around a text away, all of it, and nothing else.
pub proof fn trim_takes_the_space_around(before: Seq<char>, s: Seq<char>, behind: Seq<char>)
    requires
        all_space(before),
        all_space(behind),
        bare(s),
    ensures
        trim(before + s + behind) == s,
{
    let all = before + s + behind;
    assert(all =~= before + (s + behind));
    trim_start_drops(before, s + behind);
    if s.len() > 0 {
        assert((s + behind)[0] == s[0]);
        assert(trim_start(s + behind) == s + behind);
        trim_end_drops(s, behind);
        assert(trim_end(s) == s);
    } else {
        assert(s + behind =~= behind);
        trim_start_drops(behind, s);
        assert(behind + s =~= behind);
        assert(trim(all) =~= s);
    }
}

/// Whitespace at the start goes.
proof fn trim_start_drops(before: Seq<char>, s: Seq<char>)
    requires
        all_space(before),
    ensures
        trim_start(before + s) == trim_start(s),
    decreases before.len(),
{
    if before.len() == 0 {
        assert(before + s =~= s);
    } else {
        let rest = before.drop_first();
        assert((before + s).drop_first() =~= rest + s);
        assert((before + s)[0] == before[0]);
        assert forall|i: int| 0 <= i < rest.len() implies is_space(#[trigger] rest[i]) by {
            assert(rest[i] == before[i + 1]);
        }
        trim_start_drops(rest, s);
    }
}

/// Whitespace at the end goes.
proof fn trim_end_drops(s: Seq<char>, behind: Seq<char>)
    requires
        all_space(behind),
    ensures
        trim_end(s + behind) == trim_end(s),
    decreases behind.len(),
{
    if behind.len() == 0 {
        assert(s + behind =~= s);
    } else {
        let rest = behind.drop_last();
        assert((s + behind).drop_last() =~= s + rest);
        assert((s + behind).last() == behind[behind.len() - 1]);
        trim_end_drops(s, rest);
    }
}

/// A text falls into the words ahead of a blank and those behind it.
pub proof fn words_fall_apart_at_a_blank(a: Seq<char>, c: char, b: Seq<char>)
    requires
        is_space(c),
    ensures
        words(a + seq![c] + b) == words(a) + words(b),
    decreases b.len(),
{
    let s = a + seq![c] + b;
    if b.len() == 0 {
        assert(s.drop_last() =~= a);
        assert(s.last() == c);
        assert(words(a) + words(b) =~= words(a));
    } else {
        let rest = b.drop_last();
        words_fall_apart_at_a_blank(a, c, rest);
        assert(s.drop_last() =~= a + seq![c] + rest);
        assert(s.last() == b.last());
        if !is_space(b.last()) {
            if b.len() >= 2 {
                assert(s[s.len() - 2] == b[b.len() - 2]);
                if !is_space(b[b.len() - 2]) {
                    last_word(rest);
                }
            } else {
                assert(s[s.len() - 2] == c);
                assert(words(rest) =~= Seq::empty());
            }
        }
        assert(words(s) =~= words(a) + words(b));
    }
}

/// A text that does not end with whitespace has a word.
proof fn last_word(s: Seq<char>)
    requires
        s.len() > 0,
        !is_space(s.last()),
    ensures
        words(s).len() > 0,
    decreases s.len(),
{
    if s.len() >= 2 && !is_space(s[s.len() - 2]) {
        last_word(s.drop_last());
    }
}

/// A text without whitespace is one word, and one that is nothing else has none.
pub proof fn one_word_or_none(s: Seq<char>)
    ensures
        s.len() > 0 && no_space(s) ==> words(s) == seq![s],
        all_space(s) ==> words(s) == Seq::<Seq<char>>::empty(),
    decreases s.len(),
{
    if s.len() > 0 {
        let rest = s.drop_last();
        one_word_or_none(rest);
        if no_space(s) {
            assert(!is_space(s[s.len() - 1]));
            if rest.len() > 0 {
                assert(!is_space(s[s.len() - 2]));
                assert(no_space(rest)) by {
                    assert forall|i: int| 0 <= i < rest.len() implies !is_space(
                        #[trigger] rest[i],
                    ) by {
                        assert(rest[i] == s[i]);
                    }
                }
                assert(words(rest) == seq![rest]);
                assert(rest.push(s.last()) =~= s);
            } else {
                assert(seq![s.last()] =~= s);
            }
            assert(words(s) =~= seq![s]);
        }
        if all_space(s) {
            assert(is_space(s[s.len() - 1]));
            assert(all_space(rest)) by {
                assert forall|i: int| 0 <= i < rest.len() implies is_space(#[trigger] rest[i]) by {
                    assert(rest[i] == s[i]);
                }
            }
        }
    }
}

/// No word is empty, and none holds whitespace.
pub proof fn words_hold_no_blank(s: Seq<char>)
    ensures
        forall|i: int| 0 <= i < words(s).len() ==> (#[trigger] words(s)[i]).len() > 0 && no_space(
            words(s)[i],
        ),
    decreases s.len(),
{
    if s.len() > 0 {
        let rest = s.drop_last();
        let before = words(rest);
        words_hold_no_blank(rest);
        if !is_space(s.last()) && s.len() >= 2 && !is_space(s[s.len() - 2]) {
            last_word(rest);
            assert(no_space(before[before.len() - 1]));
        }
        assert forall|i: int| 0 <= i < words(s).len() implies (#[trigger] words(s)[i]).len() > 0
            && no_space(words(s)[i]) by {
            if i < before.len() {
                assert(no_space(before[i]));
            }
        }
    }
}

/// A text falls into the pieces ahead of a separator and those behind it.
pub proof fn pieces_fall_apart_at_a_separator(a: Seq<char>, sep: char, b: Seq<char>)
    ensures
        split_on(a + seq![sep] + b, sep) == split_on(a, sep) + split_on(b, sep),
    decreases b.len(),
{
    let s = a + seq![sep] + b;
    if b.len() == 0 {
        assert(s.drop_last() =~= a);
        assert(split_on(s, sep) =~= split_on(a, sep) + split_on(b, sep));
    } else {
        let rest = b.drop_last();
        pieces_fall_apart_at_a_separator(a, sep, rest);
        split_on_has_pieces(rest, sep);
        assert(s.drop_last() =~= a + seq![sep] + rest);
        assert(s.last() == b.last());
        assert(split_on(s, sep) =~= split_on(a, sep) + split_on(b, sep));
    }
}

/// A text without the separator is one piece.
pub proof fn one_piece(s: Seq<char>, sep: char)
    requires
        !s.contains(sep),
    ensures
        split_on(s, sep) == seq![s],
    decreases s.len(),
{
    if s.len() == 0 {
        assert(s =~= Seq::empty());
    } else {
        let rest = s.drop_last();
        assert(s.last() == s[s.len() - 1]);
        assert(!rest.contains(sep)) by {
            if rest.contains(sep) {
                let k = choose|k: int| 0 <= k < rest.len() && rest[k] == sep;
                assert(s[k] == sep);
            }
        }
        one_piece(rest, sep);
        assert(rest.push(s.last()) =~= s);
        assert(split_on(s, sep) =~= seq![s]);
    }
}

/// No piece holds the separator, and the pieces, joined by it, are the text.
pub proof fn pieces_make_up_the_text(s: Seq<char>, sep: char)
    ensures
        join(split_on(s, sep), seq![sep]) == s,
        forall|i: int| 0 <= i < split_on(s, sep).len() ==> !(#[trigger] split_on(s, sep)[i]).contains(sep),
    decreases s.len(),
{
    let all = split_on(s, sep);
    if s.len() == 0 {
        assert(join(all, seq![sep]) =~= s);
    } else {
        let rest = s.drop_last();
        let before = split_on(rest, sep);
        pieces_make_up_the_text(rest, sep);
        split_on_has_pieces(rest, sep);
        assert(s =~= rest.push(s.last()));
        if s.last() == sep {
            assert(all.drop_last() =~= before);
            assert(join(all, seq![sep]) =~= s);
            assert(!Seq::<char>::empty().contains(sep));
        } else {
            assert(all.drop_last() =~= before.drop_last());
            assert(before.last() == before[before.len() - 1]);
            assert(join(all, seq![sep]) =~= s);
            assert forall|i: int| 0 <= i < all.len() implies !(#[trigger] all[i]).contains(sep) by {
                if i == before.len() - 1 {
                    let longer = before.last().push(s.last());
                    if longer.contains(sep) {
                        let k = choose|k: int| 0 <= k < longer.len() && longer[k] == sep;
                        assert(before[before.len() - 1][k] == sep);
                    }
                } else {
                    assert(all[i] == before[i]);
                }
            }
        }
    }
}

/// Joined lists, joined: the separator stands between each two pieces, and only
/// there.
pub proof fn joining_goes_on(a: Seq<Seq<char>>, b: Seq<Seq<char>>, sep: Seq<char>)
    requires
        a.len() > 0,
        b.len() > 0,
    ensures
        join(a + b, sep) == join(a, sep) + sep + join(b, sep),
        a.len() == 1 ==> join(a, sep) == a[0],
        join(Seq::<Seq<char>>::empty(), sep).len() == 0,
    decreases b.len(),
{
    let all = a + b;
    assert(all.drop_last() =~= a + b.drop_last());
    assert(all.last() == b.last());
    if b.len() == 1 {
        assert(a + b.drop_last() =~= a);
        assert(join(all, sep) =~= join(a, sep) + sep + join(b, sep));
    } else {
        joining_goes_on(a, b.drop_last(), sep);
        assert(join(all, sep) =~= join(a, sep) + sep + join(b, sep));
    }
}

/// Words, joined by blanks, neither begin nor end with whitespace, and have the
/// same words again.
pub proof fn joined_words(ws: Seq<Seq<char>>)
    requires
        forall|i: int| 0 <= i < ws.len() ==> (#[trigger] ws[i]).len() > 0 && no_space(ws[i]),
    ensures
        bare(join(ws, seq![' '])),
        words(join(ws, seq![' '])) == ws,
        ws.len() > 0 ==> join(ws, seq![' ']).len() > 0,
    decreases ws.len(),
{
    let t = join(ws, seq![' ']);
    if ws.len() == 0 {
        assert(words(t) =~= ws);
    } else if ws.len() == 1 {
        one_word_or_none(ws[0]);
        assert(no_space(ws[0]));
        assert(ws =~= seq![ws[0]]);
        assert(!is_space(ws[0][0]) && !is_space(ws[0][ws[0].len() - 1]));
    } else {
        let rest = ws.drop_last();
        let w = ws[ws.len() - 1];
        assert(no_space(w));
        joined_words(rest);
        let front = join(rest, seq![' ']);
        assert(t == front + seq![' '] + w);
        words_fall_apart_at_a_blank(front, ' ', w);
        one_word_or_none(w);
        assert(rest + seq![w] =~= ws);
        assert(t[0] == front[0]);
        assert(t.last() == w[w.len() - 1]);
    }
}

/// Where a text first stands in another, it is replaced, and what is behind it is
/// gone through in the same way; where it stands nowhere, nothing changes.
pub proof fn every_occurrence_is_replaced(s: Seq<char>, pat: Seq<char>, to: Seq<char>, i: int)
    requires
        pat.len() > 0,
        0 <= i,
        forall|j: int| 0 <= j < i ==> !occurs_at(s, pat, j),
    ensures
        occurs_at(s, pat, i) ==> replaced(s, pat, to) == s.take(i) + to + replaced(
            s.skip(i + pat.len()),
            pat,
            to,
        ),
        i >= s.len() ==> replaced(s, pat, to) == s,
    decreases s.len(),
{
    if s.len() == 0 {
    } else if i == 0 {
        if occurs_at(s, pat, 0) {
            assert(s.take(0) + to =~= to);
        }
    } else {
        let rest = s.drop_first();
        assert(!occurs_at(s, pat, 0));
        assert forall|j: int| 0 <= j implies #[trigger] occurs_at(rest, pat, j) == occurs_at(
            s,
            pat,
            j + 1,
        ) by {
            if j + pat.len() <= rest.len() {
                assert(rest.subrange(j, j + pat.len()) =~= s.subrange(j + 1, j + 1 + pat.len()));
            }
        }
        assert forall|j: int| 0 <= j < i - 1 implies !occurs_at(rest, pat, j) by {
            assert(occurs_at(rest, pat, j) == occurs_at(s, pat, j + 1));
        }
        every_occurrence_is_replaced(rest, pat, to, i - 1);
        assert(occurs_at(rest, pat, i - 1) == occurs_at(s, pat, i));
        assert(s =~= seq![s[0]] + rest);
        if occurs_at(s, pat, i) {
            assert(rest.skip(i - 1 + pat.len()) =~= s.skip(i + pat.len()));
            assert(s.take(i) =~= seq![s[0]] + rest.take(i - 1));
            assert(replaced(s, pat, to) =~= s.take(i) + to + replaced(
                s.skip(i + pat.len()),
                pat,
                to,
            ));
        }
    }
}

/// A text that is not too long is shown as it is; of a longer one, the first
/// characters are shown, and an ellipsis in place of the others.
pub proof fn long_texts_are_cut(s: Seq<char>, limit: int, keep: int)
    requires
        0 <= keep <= limit,
    ensures
        s.len() <= limit ==> shortened(s, limit, keep) == s,
        s.len() > limit ==> shortened(s, limit, keep).len() == keep + 1 && shortened(
            s,
            limit,
            keep,
        ).last() == '…' && forall|i: int|
            0 <= i < keep ==> shortened(s, limit, keep)[i] == s[i],
{
    reveal_strlit("…");
}

/// The characters that count as whitespace are these twenty-five, and the letters
/// and digits of ASCII are none of them.
pub proof fn the_white_spaces(c: char)
    ensures
        is_space(c) <==> seq![
            '\t',
            '\n',
            '\u{b}',
            '\u{c}',
            '\r',
            ' ',
            '\u{85}',
            '\u{a0}',
            '\u{1680}',
            '\u{2000}',
            '\u{2001}',
            '\u{2002}',
            '\u{2003}',
            '\u{2004}',
            '\u{2005}',
            '\u{2006}',
            '\u{2007}',
            '\u{2008}',
            '\u{2009}',
            '\u{200a}',
            '\u{2028}',
            '\u{2029}',
            '\u{202f}',
            '\u{205f}',
            '\u{3000}',
        ].contains(c),
        is_digit(c) || is_upper(c) || is_hex_digit(c) ==> !is_space(c),
{
    let all = seq![
        '\t',
        '\n',
        '\u{b}',
        '\u{c}',
        '\r',
        ' ',
        '\u{85}',
        '\u{a0}',
        '\u{1680}',
        '\u{2000}',
        '\u{2001}',
        '\u{2002}',
        '\u{2003}',
        '\u{2004}',
        '\u{2005}',
        '\u{2006}',
        '\u{2007}',
        '\u{2008}',
        '\u{2009}',
        '\u{200a}',
        '\u{2028}',
        '\u{2029}',
        '\u{202f}',
        '\u{205f}',
        '\u{3000}',
    ];
    let n = c as u32;
    if is_space(c) {
        let k: int = if n <= 0x0d {
            n - 0x09
        } else if n == 0x20 {
            5
        } else if n == 0x85 {
            6
        } else if n == 0xa0 {
            7
        } else if n == 0x1680 {
            8
        } else if n <= 0x200a {
            9 + (n - 0x2000)
        } else if n == 0x2028 {
            20
        } else if n == 0x2029 {
            21
        } else if n == 0x202f {
            22
        } else if n == 0x205f {
            23
        } else {
            24
        };
        assert(all[k] == c);
    }
    if all.contains(c) {
        let k = choose|k: int| 0 <= k < all.len() && all[k] == c;
        assert(is_space(all[k]));
    }
}

/// A text is found exactly where it stands: at the front of what begins with it, at the end
/// of what ends with it, and somewhere in what is made of it and other texts.
pub proof fn texts_are_found_where_they_stand(a: Seq<char>, t: Seq<char>, b: Seq<char>, s: Seq<char>)
    ensures
        occurs_at(a + t + b, t, a.len() as int),
        contains_text(a + t + b, t),
        starts_with(t + b, t),
        ends_with(a + t, t),
        starts_with(s, t) ==> s == t + s.skip(t.len() as int),
        ends_with(s, t) ==> s == s.take(s.len() - t.len()) + t,
        contains_text(s, t) ==> exists|i: int|
            0 <= i && i + t.len() <= s.len() && #[trigger] s.subrange(i, i + t.len()) == t,
        t.len() > s.len() ==> !contains_text(s, t) && !starts_with(s, t) && !ends_with(s, t),
{
    let all = a + t + b;
    assert(all.subrange(a.len() as int, (a.len() + t.len()) as int) =~= t);
    assert(occurs_at(all, t, a.len() as int));
    assert((t + b).subrange(0, t.len() as int) =~= t);
    assert((a + t).subrange(a.len() as int, (a + t).len() as int) =~= t);
    if starts_with(s, t) {
        assert(s =~= s.subrange(0, t.len() as int) + s.skip(t.len() as int));
    }
    if ends_with(s, t) {
        assert(s =~= s.take(s.len() - t.len()) + s.subrange(
            s.len() - t.len(),
            s.len() as int,
        ));
    }
    if contains_text(s, t) {
        let i = choose|i: int| occurs_at(s, t, i);
        assert(s.subrange(i, i + t.len()) == t);
    }
}

/// The digits are the ten from `0` to `9`; the hexadecimal ones have the letters up to `f`
/// besides, in either case; and the capital letters are those from `A` to `Z`.
pub proof fn the_digits_and_letters(c: char)
    ensures
        is_digit(c) <==> 48 <= c as u32 <= 57,
        is_hex_digit(c) <==> 48 <= c as u32 <= 57 || 65 <= c as u32 <= 70 || 97 <= c as u32 <= 102,
        is_upper(c) <==> 65 <= c as u32 <= 90,
{
}

} // verus!
