//! Paths as text, with the meaning that a Unix system gives them: `/`
//! separates, a leading `/` is the root, and empty components and `.` behind
//! the first component count for nothing. A path that is not UTF-8 is known here
//! by its text with replacement characters only.
use crate::text::{
    chars_of, join, join_rows, push_all, rows, same_chars, split_chars, split_on, string_of,
};
use vstd::prelude::*;
use vstd::slice::slice_subrange;

verus! {

// ── Components ───────────────────────────────────────────────────────────────

/// The root, as a component.
pub open spec fn root() -> Seq<char> {
    seq!['/']
}

/// The current directory, as a component.
pub open spec fn here() -> Seq<char> {
    seq!['.']
}

/// The parent directory, as a component.
pub open spec fn up() -> Seq<char> {
    seq!['.', '.']
}

/// The components among the pieces between the separators.
pub open spec fn kept_pieces(pieces: Seq<Seq<char>>) -> Seq<Seq<char>>
    decreases pieces.len(),
{
    if pieces.len() == 0 {
        Seq::empty()
    } else {
        let before = kept_pieces(pieces.drop_last());
        let p = pieces.last();
        if p.len() == 0 || (p == here() && pieces.len() > 1) {
            before
        } else {
            before.push(p)
        }
    }
}

/// The components of a path.
pub open spec fn components(s: Seq<char>) -> Seq<Seq<char>> {
    let body = kept_pieces(split_on(s, '/'));
    if s.len() > 0 && s[0] == '/' {
        seq![root()] + body
    } else {
        body
    }
}

/// Whether a component is a plain name.
pub open spec fn is_plain(c: Seq<char>) -> bool {
    c != root() && c != here() && c != up()
}

/// The last component of a path, if it is a plain name.
pub open spec fn name_of(s: Seq<char>) -> Option<Seq<char>> {
    let c = components(s);
    if c.len() > 0 && is_plain(c.last()) {
        Some(c.last())
    } else {
        None
    }
}

/// The position of the last `.` in a name.
pub open spec fn last_dot(s: Seq<char>) -> Option<int>
    decreases s.len(),
{
    if s.len() == 0 {
        None
    } else if s.last() == '.' {
        Some(s.len() - 1)
    } else {
        last_dot(s.drop_last())
    }
}

/// A file name without its extension. A `.` at the front starts no extension.
pub open spec fn without_extension(name: Seq<char>) -> Seq<char> {
    match last_dot(name) {
        Some(i) => if i > 0 {
            name.take(i)
        } else {
            name
        },
        None => name,
    }
}

/// The file name of a path without its extension; the whole text where the
/// path has no file name.
pub open spec fn stem_of(s: Seq<char>) -> Seq<char> {
    match name_of(s) {
        Some(n) => without_extension(n),
        None => s,
    }
}

/// Components, written as a path again.
pub open spec fn path_text(c: Seq<Seq<char>>) -> Seq<char> {
    if c.len() > 0 && c[0] == root() {
        root() + join(c.drop_first(), root())
    } else {
        join(c, root())
    }
}

/// The path without its last component; empty, where it has none but the root.
pub open spec fn parent_of(s: Seq<char>) -> Seq<char> {
    let c = components(s);
    if c.len() > 0 && c.last() != root() {
        path_text(c.drop_last())
    } else {
        Seq::empty()
    }
}

/// The path `rel` as seen from `base`.
pub open spec fn joined(base: Seq<char>, rel: Seq<char>) -> Seq<char> {
    if base.len() == 0 || (rel.len() > 0 && rel[0] == '/') {
        rel
    } else if base.last() == '/' {
        base + rel
    } else {
        base + root() + rel
    }
}

/// Whether the path `s` lies at or below the path `dir`.
pub open spec fn lies_under(s: Seq<char>, dir: Seq<char>) -> bool {
    let c = components(s);
    let d = components(dir);
    d.len() <= c.len() && c.take(d.len() as int) == d
}

/// Whether two texts are the same path.
pub open spec fn same_components(a: Seq<char>, b: Seq<char>) -> bool {
    components(a) == components(b)
}

/// Whether a piece is the text `.`.
fn is_here(p: &[char]) -> (r: bool)
    ensures
        r == (p@ == here()),
{
    let r = p.len() == 1 && p[0] == '.';
    assert(r ==> p@ =~= here());
    r
}

/// Whether a piece is the text `..`.
pub(crate) fn is_up(p: &[char]) -> (r: bool)
    ensures
        r == (p@ == up()),
{
    let r = p.len() == 2 && p[0] == '.' && p[1] == '.';
    assert(r ==> p@ =~= up());
    r
}

/// Whether a component is the root.
fn is_root(p: &[char]) -> (r: bool)
    ensures
        r == (p@ == root()),
{
    let r = p.len() == 1 && p[0] == '/';
    assert(r ==> p@ =~= root());
    r
}

/// The components of a path.
pub fn components_of(s: &str) -> (r: Vec<Vec<char>>)
    ensures
        rows(r@) == components(s@),
{
    let v = chars_of(s);
    let pieces = split_chars(v.as_slice(), '/');
    let mut r: Vec<Vec<char>> = Vec::new();
    if v.len() > 0 && v[0] == '/' {
        let mut c: Vec<char> = Vec::new();
        c.push('/');
        assert(c@ =~= root());
        r.push(c);
    }
    let ghost lead = rows(r@);
    assert(lead =~= (if v@.len() > 0 && v@[0] == '/' {
        seq![root()]
    } else {
        Seq::empty()
    }));
    let ghost all = rows(pieces@);
    for i in 0..pieces.len()
        invariant
            all == rows(pieces@),
            rows(r@) == lead + kept_pieces(all.take(i as int)),
    {
        assert(all.take(i + 1).drop_last() == all.take(i as int));
        assert(all[i as int] == pieces@[i as int]@);
        if !(pieces[i].len() == 0 || (i > 0 && is_here(pieces[i].as_slice()))) {
            let ghost r0 = r@;
            let mut c: Vec<char> = Vec::new();
            push_all(&mut c, pieces[i].as_slice());
            assert(c@ =~= pieces@[i as int]@);
            r.push(c);
            assert(rows(r@) =~= rows(r0).push(all[i as int]));
        }
    }
    assert(all.take(all.len() as int) == all);
    r
}

/// The last component of a path, if it is a plain name.
pub fn file_name(s: &str) -> (r: Option<String>)
    ensures
        match r {
            Some(n) => name_of(s@) == Some(n@),
            None => name_of(s@) is None,
        },
{
    let c = components_of(s);
    if c.len() == 0 {
        return None;
    }
    let last = c[c.len() - 1].as_slice();
    assert(last@ == rows(c@).last());
    if is_root(last) || is_here(last) || is_up(last) {
        None
    } else {
        Some(string_of(last))
    }
}

/// A file name without its extension.
fn drop_extension(v: &[char]) -> (r: &[char])
    ensures
        r@ == without_extension(v@),
{
    let mut i: usize = v.len();
    assert(v@.take(v@.len() as int) == v@);
    while i > 0
        invariant
            i <= v@.len(),
            last_dot(v@) == last_dot(v@.take(i as int)),
        decreases i,
    {
        assert(v@.take(i as int).drop_last() == v@.take(i - 1));
        if v[i - 1] == '.' {
            if i > 1 {
                return slice_subrange(v, 0, i - 1);
            } else {
                return v;
            }
        }
        i = i - 1;
    }
    v
}

/// The file name of a path without its extension.
pub fn file_stem(s: &str) -> (r: Option<String>)
    ensures
        match r {
            Some(n) => name_of(s@) is Some && n@ == without_extension(name_of(s@)->0),
            None => name_of(s@) is None,
        },
{
    match file_name(s) {
        Some(n) => {
            let v = chars_of(n.as_str());
            Some(string_of(drop_extension(v.as_slice())))
        },
        None => None,
    }
}

/// The file name of a path without its extension; the whole text where the
/// path has no file name.
pub fn stem_or_all(s: &str) -> (r: String)
    ensures
        r@ == stem_of(s@),
{
    match file_stem(s) {
        Some(n) => n,
        None => s.to_owned(),
    }
}

/// The path without its last component.
pub fn parent_path(s: &str) -> (r: String)
    ensures
        r@ == parent_of(s@),
{
    let mut c = components_of(s);
    if c.len() == 0 || is_root(c[c.len() - 1].as_slice()) {
        assert(c@.len() > 0 ==> rows(c@).last() == c@.last()@);
        return String::new();
    }
    let ghost before = rows(c@);
    assert(before.last() == c@.last()@);
    c.pop();
    assert(rows(c@) =~= before.drop_last());
    let mut sep: Vec<char> = Vec::new();
    sep.push('/');
    assert(sep@ =~= root());
    let mut out: Vec<char> = Vec::new();
    if c.len() > 0 && is_root(c[0].as_slice()) {
        assert(rows(c@)[0] == c@[0]@);
        let ghost rest = rows(c@).drop_first();
        c.remove(0);
        assert(rows(c@) =~= rest);
        out.push('/');
        let body = join_rows(&c, sep.as_slice());
        push_all(&mut out, body.as_slice());
        assert(out@ =~= root() + body@);
    } else {
        assert(c@.len() > 0 ==> rows(c@)[0] == c@[0]@);
        out = join_rows(&c, sep.as_slice());
    }
    string_of(out.as_slice())
}

/// The path `rel` as seen from `base`.
pub fn join_path(base: &str, rel: &str) -> (r: String)
    ensures
        r@ == joined(base@, rel@),
{
    let b = chars_of(base);
    let v = chars_of(rel);
    if b.len() == 0 || (v.len() > 0 && v[0] == '/') {
        return rel.to_owned();
    }
    let mut r = base.to_owned();
    if b[b.len() - 1] != '/' {
        r.push('/');
        assert(r@ =~= base@ + root());
    }
    r.append(rel);
    r
}

/// Whether the path `s` lies at or below the path `dir`.
pub fn path_lies_under(s: &str, dir: &str) -> (r: bool)
    ensures
        r == lies_under(s@, dir@),
{
    let c = components_of(s);
    let d = components_of(dir);
    if d.len() > c.len() {
        return false;
    }
    let ghost cs = rows(c@);
    let ghost ds = rows(d@);
    for i in 0..d.len()
        invariant
            cs == rows(c@),
            ds == rows(d@),
            cs == components(s@),
            ds == components(dir@),
            d@.len() <= c@.len(),
            cs.take(i as int) == ds.take(i as int),
    {
        assert(cs[i as int] == c@[i as int]@);
        assert(ds[i as int] == d@[i as int]@);
        if !same_chars(c[i].as_slice(), d[i].as_slice()) {
            assert(cs.take(ds.len() as int)[i as int] != ds[i as int]);
            return false;
        }
        assert(cs.take(i + 1) =~= cs.take(i as int).push(cs[i as int]));
        assert(ds.take(i + 1) =~= ds.take(i as int).push(ds[i as int]));
    }
    assert(ds.take(ds.len() as int) == ds);
    true
}

/// Whether two texts are the same path.
pub fn same_path(a: &str, b: &str) -> (r: bool)
    ensures
        r == same_components(a@, b@),
{
    let r = path_lies_under(a, b) && path_lies_under(b, a);
    proof {
        let ca = components(a@);
        let cb = components(b@);
        if r {
            assert(ca.take(cb.len() as int) =~= ca);
        }
        if ca == cb {
            assert(ca.take(cb.len() as int) =~= ca);
            assert(cb.take(ca.len() as int) =~= cb);
        }
    }
    r
}

/// Below a directory lies everything that lies below a path below it.
pub proof fn lies_under_transitive(a: Seq<char>, b: Seq<char>, c: Seq<char>)
    requires
        lies_under(a, b),
        lies_under(b, c),
    ensures
        lies_under(a, c),
{
    let n = components(c).len() as int;
    assert(components(a).take(n) =~= components(b).take(n)) by {
        assert(components(a).take(components(b).len() as int).take(n) =~= components(a).take(n));
    }
}

/// Different names below a directory give different paths.
pub proof fn names_lie_apart(dir: Seq<char>, a: Seq<char>, b: Seq<char>)
    requires
        a != b,
        a.len() == 0 || a[0] != '/',
        b.len() == 0 || b[0] != '/',
    ensures
        joined(dir, a) != joined(dir, b),
{
    let base = if dir.len() == 0 || dir.last() == '/' {
        dir
    } else {
        dir + root()
    };
    assert(joined(dir, a) =~= base + a);
    assert(joined(dir, b) =~= base + b);
    assert((base + a).skip(base.len() as int) =~= a);
    assert((base + b).skip(base.len() as int) =~= b);
}

/// Whether a text can be a file's name: it is not empty, has no slash in it, and is
/// neither `.` nor `..`.
pub open spec fn proper_name(n: Seq<char>) -> bool {
    n.len() > 0 && !n.contains('/') && n != seq!['.'] && n != seq!['.', '.']
}

/// The components of a path to a file in a directory are those of the directory and
/// the file's name; that name is the path's file name, and the path lies under the
/// directory.
pub proof fn a_file_in_a_directory(dir: Seq<char>, n: Seq<char>)
    requires
        dir.len() > 0,
        proper_name(n),
    ensures
        components(dir + seq!['/'] + n) == components(dir).push(n),
        name_of(dir + seq!['/'] + n) == Some(n),
        lies_under(dir + seq!['/'] + n, dir),
        !lies_under(dir, dir + seq!['/'] + n),
        name_of(n) == Some(n),
        components(n) == seq![n],
{
    let s = dir + seq!['/'] + n;
    let pieces = split_on(dir, '/');
    crate::text::pieces_fall_apart_at_a_separator(dir, '/', n);
    crate::text::one_piece(n, '/');
    crate::text::split_on_has_pieces(dir, '/');
    let all = split_on(s, '/');
    assert(all =~= pieces.push(n));
    assert(all.drop_last() =~= pieces);
    assert(s[0] == dir[0]);
    assert(components(s) =~= components(dir).push(n));
    assert(n[0] != '/') by {
        assert(n.contains(n[0]));
    }
    assert(n != root()) by {
        assert(root()[0] == '/');
    }
    assert(components(s).take(components(dir).len() as int) =~= components(dir));
    let one = seq![n];
    assert(one.drop_last() =~= Seq::empty());
    assert(kept_pieces(one) =~= seq![n]) by {
        assert(kept_pieces(one.drop_last()) =~= Seq::empty());
    }
}

/// Where the last dot is.
proof fn last_dot_is(a: Seq<char>, b: Seq<char>)
    requires
        !b.contains('.'),
    ensures
        last_dot(a + seq!['.'] + b) == Some(a.len() as int),
        last_dot(b) is None,
    decreases b.len(),
{
    let s = a + seq!['.'] + b;
    if b.len() > 0 {
        let rest = b.drop_last();
        assert(s.drop_last() =~= a + seq!['.'] + rest);
        assert(s.last() == b[b.len() - 1]);
        assert(b.contains(b[b.len() - 1]));
        assert(!rest.contains('.')) by {
            if rest.contains('.') {
                let k = choose|k: int| 0 <= k < rest.len() && rest[k] == '.';
                assert(b[k] == '.');
            }
        }
        last_dot_is(a, rest);
    }
}

/// Without its extension, a file's name is what stands ahead of its last dot, unless
/// nothing does; a name without a dot stays as it is.
pub proof fn the_last_dot_starts_the_extension(front: Seq<char>, extension: Seq<char>)
    requires
        !extension.contains('.'),
    ensures
        front.len() > 0 ==> without_extension(front + seq!['.'] + extension) == front,
        without_extension(seq!['.'] + extension) == seq!['.'] + extension,
        without_extension(extension) == extension,
{
    last_dot_is(front, extension);
    last_dot_is(Seq::empty(), extension);
    let none = Seq::<char>::empty();
    assert(none + seq!['.'] + extension =~= seq!['.'] + extension);
    assert((front + seq!['.'] + extension).take(front.len() as int) =~= front);
}

/// The stem of a file's name, with its directory or without.
pub proof fn stems_of_files(dir: Seq<char>, front: Seq<char>, extension: Seq<char>)
    requires
        front.len() > 0,
        !front.contains('/'),
        !extension.contains('/'),
        !extension.contains('.'),
        front != seq!['.'] || extension.len() > 0,
    ensures
        stem_of(front + seq!['.'] + extension) == front,
        dir.len() > 0 ==> stem_of(dir + seq!['/'] + (front + seq!['.'] + extension)) == front,
{
    let n = front + seq!['.'] + extension;
    assert(proper_name(n)) by {
        if n.contains('/') {
            let k = choose|k: int| 0 <= k < n.len() && n[k] == '/';
            if k < front.len() {
                assert(front[k] == '/');
            } else if k > front.len() {
                assert(extension[k - front.len() - 1] == '/');
            }
        }
        if n == seq!['.', '.'] {
            assert(front =~= seq!['.']) by {
                assert(n[0] == front[0]);
            }
        }
    }
    the_last_dot_starts_the_extension(front, extension);
    a_file_in_a_directory(seq!['/'], n);
    if dir.len() > 0 {
        a_file_in_a_directory(dir, n);
    }
}

/// A path as seen from a directory: an absolute one stays as it is, and any other
/// stands below the directory, behind exactly one slash.
pub proof fn paths_are_joined_by_one_slash(base: Seq<char>, rel: Seq<char>)
    ensures
        rel.len() > 0 && rel[0] == '/' ==> joined(base, rel) == rel,
        base.len() == 0 ==> joined(base, rel) == rel,
        base.len() > 0 && base.last() != '/' && (rel.len() == 0 || rel[0] != '/') ==> joined(
            base,
            rel,
        ) == base + seq!['/'] + rel && joined(base + seq!['/'], rel) == base + seq!['/'] + rel,
{
    assert((base + seq!['/']).last() == '/');
}

/// Files of different names in a directory do not lie under each other, nor do the
/// files below one lie under the other.
pub proof fn siblings_lie_apart(dir: Seq<char>, a: Seq<char>, b: Seq<char>, s: Seq<char>)
    requires
        dir.len() > 0,
        proper_name(a),
        proper_name(b),
        a != b,
        lies_under(s, dir + seq!['/'] + a),
    ensures
        !lies_under(s, dir + seq!['/'] + b),
        lies_under(s, dir),
{
    a_file_in_a_directory(dir, a);
    a_file_in_a_directory(dir, b);
    let n = components(dir).len() as int;
    let c = components(s);
    assert(c.take(n + 1)[n] == a);
    assert(c.take(n) =~= c.take(n + 1).take(n));
    assert(components(dir).push(a).take(n) =~= components(dir));
    if lies_under(s, dir + seq!['/'] + b) {
        assert(c.take(n + 1)[n] == b);
    }
}

/// Slashes at the end of a path, and steps that stay where they are, do not matter.
pub proof fn empty_steps_do_not_matter(dir: Seq<char>)
    requires
        dir.len() > 0,
    ensures
        components(dir + seq!['/']) == components(dir),
        components(dir + seq!['/', '.']) == components(dir),
{
    let pieces = split_on(dir, '/');
    let none = Seq::<char>::empty();
    crate::text::split_on_has_pieces(dir, '/');
    crate::text::pieces_fall_apart_at_a_separator(dir, '/', none);
    crate::text::pieces_fall_apart_at_a_separator(dir, '/', here());
    crate::text::one_piece(none, '/');
    crate::text::one_piece(here(), '/');
    assert(dir + seq!['/'] + none =~= dir + seq!['/']);
    assert(dir + seq!['/'] + here() =~= dir + seq!['/', '.']);
    assert((pieces + seq![none]).drop_last() =~= pieces);
    assert((pieces + seq![here()]).drop_last() =~= pieces);
    assert(components(dir + seq!['/']) =~= components(dir));
    assert(components(dir + seq!['/', '.']) =~= components(dir));
}

/// Whether components can be written as a path: none is empty, none has a slash in
/// it, and none but the first stays where it is.
spec fn writable(c: Seq<Seq<char>>, rooted: bool) -> bool {
    forall|i: int|
        0 <= i < c.len() ==> (#[trigger] c[i]).len() > 0 && !c[i].contains('/') && (c[i] == here()
            ==> i == 0 && !rooted)
}

/// What is kept of the pieces of a path can be written again.
proof fn kept_are_writable(pieces: Seq<Seq<char>>)
    requires
        forall|i: int| 0 <= i < pieces.len() ==> !(#[trigger] pieces[i]).contains('/'),
    ensures
        writable(kept_pieces(pieces), pieces.len() > 0 && pieces[0].len() == 0),
        kept_pieces(pieces).len() <= pieces.len(),
    decreases pieces.len(),
{
    if pieces.len() > 0 {
        let rest = pieces.drop_last();
        assert forall|i: int| 0 <= i < rest.len() implies !(#[trigger] rest[i]).contains('/') by {
            assert(rest[i] == pieces[i]);
        }
        kept_are_writable(rest);
        let before = kept_pieces(rest);
        let all = kept_pieces(pieces);
        let p = pieces[pieces.len() - 1];
        assert(pieces.len() > 1 ==> rest[0] == pieces[0]);
        assert(rest.len() == 0 ==> before.len() == 0);
        assert forall|i: int| 0 <= i < all.len() implies (#[trigger] all[i]).len() > 0
            && !all[i].contains('/') && (all[i] == here() ==> i == 0 && !(pieces[0].len()
            == 0)) by {
            if i < before.len() {
                assert(all[i] == before[i]);
            } else {
                assert(all[i] == p);
            }
        }
    }
}

/// Writable components are kept.
proof fn writable_are_kept(c: Seq<Seq<char>>, rooted: bool)
    requires
        writable(c, rooted),
    ensures
        !rooted ==> kept_pieces(c) == c,
        rooted ==> kept_pieces(seq![Seq::<char>::empty()] + c) == c,
    decreases c.len(),
{
    let lead = seq![Seq::<char>::empty()];
    if c.len() > 0 {
        let rest = c.drop_last();
        assert(writable(rest, rooted)) by {
            assert forall|i: int| 0 <= i < rest.len() implies (#[trigger] rest[i]).len() > 0
                && !rest[i].contains('/') && (rest[i] == here() ==> i == 0 && !rooted) by {
                assert(rest[i] == c[i]);
            }
        }
        writable_are_kept(rest, rooted);
        assert(c[c.len() - 1].len() > 0);
        assert((lead + c).drop_last() =~= lead + rest);
        assert(rest.push(c.last()) =~= c);
    } else {
        assert(lead + c =~= lead);
        assert(lead.drop_last() =~= Seq::empty());
        assert(kept_pieces(lead.drop_last()) =~= c);
        assert(kept_pieces(c) =~= c);
    }
}

/// The pieces of joined components are the components.
proof fn joined_pieces(c: Seq<Seq<char>>)
    requires
        c.len() > 0,
        forall|i: int| 0 <= i < c.len() ==> !(#[trigger] c[i]).contains('/'),
    ensures
        split_on(join(c, root()), '/') == c,
    decreases c.len(),
{
    if c.len() == 1 {
        crate::text::one_piece(c[0], '/');
        assert(seq![c[0]] =~= c);
    } else {
        let rest = c.drop_last();
        assert forall|i: int| 0 <= i < rest.len() implies !(#[trigger] rest[i]).contains('/') by {
            assert(rest[i] == c[i]);
        }
        joined_pieces(rest);
        assert(!c[c.len() - 1].contains('/'));
        crate::text::one_piece(c.last(), '/');
        crate::text::pieces_fall_apart_at_a_separator(join(rest, root()), '/', c.last());
        assert(rest + seq![c.last()] =~= c);
    }
}

/// Components, written as a path, are that path's components.
proof fn written_components(c: Seq<Seq<char>>, rooted: bool)
    requires
        writable(c, rooted),
    ensures
        !rooted ==> components(path_text(c)) == c,
        rooted ==> components(path_text(seq![root()] + c)) == seq![root()] + c,
{
    writable_are_kept(c, rooted);
    let body = join(c, root());
    let none = Seq::<char>::empty();
    if rooted {
        let whole = seq![root()] + c;
        assert(whole.drop_first() =~= c);
        let t = path_text(whole);
        assert(t == root() + body);
        assert(t =~= none + seq!['/'] + body);
        crate::text::pieces_fall_apart_at_a_separator(none, '/', body);
        crate::text::one_piece(none, '/');
        if c.len() > 0 {
            joined_pieces(c);
            assert(components(t) =~= whole);
        } else {
            assert(body =~= none);
            let two = seq![none, none];
            assert(split_on(t, '/') =~= two);
            assert(two.drop_last() =~= seq![none]);
            assert(seq![none].drop_last() =~= Seq::empty());
            assert(kept_pieces(seq![none]) == kept_pieces(seq![none].drop_last()));
            assert(kept_pieces(two) =~= Seq::empty());
            assert(components(t) =~= whole);
        }
    } else {
        if c.len() > 0 {
            joined_pieces(c);
            assert(c[0] != root()) by {
                assert(root()[0] == '/');
                assert(root().contains('/'));
            }
            assert(body[0] == c[0][0]) by {
                joined_starts(c);
            }
            assert(c[0].contains(c[0][0]));
            assert(components(path_text(c)) =~= c);
        } else {
            assert(path_text(c) =~= none);
            assert(split_on(none, '/') =~= seq![none]);
            assert(seq![none].drop_last() =~= Seq::empty());
            assert(kept_pieces(seq![none]) == kept_pieces(seq![none].drop_last()));
            assert(components(path_text(c)) =~= c);
        }
    }
}

/// Joined components begin with the first.
proof fn joined_starts(c: Seq<Seq<char>>)
    requires
        c.len() > 0,
        c[0].len() > 0,
    ensures
        join(c, root()).len() > 0,
        join(c, root())[0] == c[0][0],
    decreases c.len(),
{
    if c.len() > 1 {
        joined_starts(c.drop_last());
    }
}

/// The parent of a file in a directory is that directory.
pub proof fn the_parent_is_the_directory(dir: Seq<char>, n: Seq<char>)
    requires
        dir.len() > 0,
        proper_name(n),
    ensures
        components(parent_of(dir + seq!['/'] + n)) == components(dir),
        parent_of(n) == Seq::<char>::empty(),
{
    a_file_in_a_directory(dir, n);
    let pieces = split_on(dir, '/');
    crate::text::pieces_make_up_the_text(dir, '/');
    kept_are_writable(pieces);
    let rooted = dir[0] == '/';
    let body = kept_pieces(pieces);
    crate::text::split_on_has_pieces(dir, '/');
    if rooted {
        let rest = dir.drop_first();
        let none = Seq::<char>::empty();
        assert(dir =~= none + seq!['/'] + rest);
        crate::text::pieces_fall_apart_at_a_separator(none, '/', rest);
        crate::text::one_piece(none, '/');
        assert(pieces[0].len() == 0);
    } else {
        assert(writable(body, false));
    }
    written_components(body, rooted);
    assert(components(dir).push(n).drop_last() =~= components(dir));
    assert(n != root()) by {
        assert(root()[0] == '/');
        assert(root().contains('/'));
    }
    assert(seq![n].drop_last() =~= Seq::empty());
    assert(path_text(Seq::empty()) =~= Seq::<char>::empty());
}

/// Every path lies under itself, and two paths that lie under each other are the same.
pub proof fn a_path_lies_under_itself(a: Seq<char>, b: Seq<char>)
    ensures
        lies_under(a, a),
        lies_under(a, b) && lies_under(b, a) <==> same_components(a, b),
        same_components(a, b) <==> components(a) == components(b),
{
    let x = components(a);
    let y = components(b);
    assert(x.take(x.len() as int) =~= x);
    assert(y.take(y.len() as int) =~= y);
    if lies_under(a, b) && lies_under(b, a) {
        assert(x.take(y.len() as int) =~= x);
    }
}

} // verus!
