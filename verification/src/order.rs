//! The natural order of names, in which "page 2" comes before "page 10".
use crate::number::{all_digits, decimal_value, parse_decimal};
use crate::text::{chars_of, is_digit, is_digit_char, push_all, same_chars, string_of};
use vstd::prelude::*;

verus! {

// ── Keys ─────────────────────────────────────────────────────────────────────

/// The maximal runs of a name in which either every character is a digit or
/// none is.
pub open spec fn runs(s: Seq<char>) -> Seq<Seq<char>>
    decreases s.len(),
{
    if s.len() == 0 {
        Seq::empty()
    } else {
        let before = runs(s.drop_last());
        if s.len() >= 2 && is_digit(s[s.len() - 2]) == is_digit(s.last()) {
            before.update(before.len() - 1, before.last().push(s.last()))
        } else {
            before.push(seq![s.last()])
        }
    }
}

/// One part of a natural key: a run of digits counts by its value (zero, where
/// the value does not fit 64 bits), any other run by its text.
pub open spec fn run_key(run: Seq<char>) -> (Seq<char>, nat) {
    if run.len() > 0 && is_digit(run[0]) {
        let n = decimal_value(run);
        (Seq::empty(), if n <= u64::MAX { n } else { 0 })
    } else {
        (run, 0)
    }
}

/// The key by which a name is ordered.
pub open spec fn key_of(s: Seq<char>) -> Seq<(Seq<char>, nat)> {
    runs(s).map_values(|r: Seq<char>| run_key(r))
}

/// The key that a vector of parts stands for.
pub open spec fn key_view(k: Seq<(String, u64)>) -> Seq<(Seq<char>, nat)> {
    k.map_values(|p: (String, u64)| (p.0@, p.1 as nat))
}

/// The key that a vector of parts, held as characters, stands for.
spec fn parts_view(k: Seq<(Vec<char>, u64)>) -> Seq<(Seq<char>, nat)> {
    k.map_values(|p: (Vec<char>, u64)| (p.0@, p.1 as nat))
}

/// Every run is nonempty, and of one kind.
proof fn runs_uniform(s: Seq<char>)
    ensures
        s.len() > 0 ==> runs(s).len() > 0 && is_digit(runs(s).last()[0]) == is_digit(s.last()),
        forall|i: int| 0 <= i < runs(s).len() ==> #[trigger] runs(s)[i].len() > 0,
        forall|i: int, j: int|
            0 <= i < runs(s).len() && 0 <= j < runs(s)[i].len() ==> is_digit(
                #[trigger] runs(s)[i][j],
            ) == is_digit(runs(s)[i][0]),
    decreases s.len(),
{
    if s.len() > 0 {
        runs_uniform(s.drop_last());
    }
}

/// The key part of one run.
fn part_of(run: &[char]) -> (p: (Vec<char>, u64))
    requires
        run@.len() > 0,
        forall|j: int| 0 <= j < run@.len() ==> is_digit(#[trigger] run@[j]) == is_digit(run@[0]),
    ensures
        (p.0@, p.1 as nat) == run_key(run@),
{
    if is_digit_char(run[0]) {
        let n: u64 = match parse_decimal(run, u64::MAX) {
            Some(n) => n,
            None => 0,
        };
        (Vec::new(), n)
    } else {
        let mut text: Vec<char> = Vec::new();
        push_all(&mut text, run);
        assert(text@ =~= run@);
        (text, 0)
    }
}

/// The key by which a name is ordered, its texts held as characters.
fn key_parts(name: &str) -> (key: Vec<(Vec<char>, u64)>)
    ensures
        parts_view(key@) == key_of(name@),
{
    let v = chars_of(name);
    let mut key: Vec<(Vec<char>, u64)> = Vec::new();
    let mut cur: Vec<char> = Vec::new();
    assert(runs(v@.take(0)) =~= Seq::empty());
    for i in 0..v.len()
        invariant
            cur@.len() > 0 <==> i > 0,
            i > 0 ==> {
                &&& runs(v@.take(i as int)).len() == key@.len() + 1
                &&& runs(v@.take(i as int)).last() == cur@
            },
            i == 0 ==> key@.len() == 0,
            forall|j: int|
                0 <= j < key@.len() ==> ((#[trigger] key@[j]).0@, key@[j].1 as nat) == run_key(
                    runs(v@.take(i as int))[j],
                ),
    {
        let ghost s = v@.take(i + 1);
        assert(s.drop_last() == v@.take(i as int));
        assert(i > 0 ==> s[s.len() - 2] == v@[i - 1]);
        let ghost old_runs = runs(v@.take(i as int));
        proof {
            runs_uniform(v@.take(i as int));
        }
        if i > 0 && is_digit_char(v[i - 1]) != is_digit_char(v[i]) {
            assert forall|j: int| 0 <= j < cur@.len() implies is_digit(#[trigger] cur@[j])
                == is_digit(cur@[0]) by {
                assert(is_digit(old_runs[old_runs.len() - 1][j]) == is_digit(
                    old_runs[old_runs.len() - 1][0],
                ));
            }
            let ghost k0 = key@;
            key.push(part_of(cur.as_slice()));
            cur = Vec::new();
            cur.push(v[i]);
            assert(cur@ =~= seq![v@[i as int]]);
        } else {
            cur.push(v[i]);
            assert(i == 0 ==> cur@ =~= seq![v@[i as int]]);
        }
    }
    assert(v@.take(v@.len() as int) == v@);
    if cur.len() > 0 {
        let ghost all = runs(v@);
        proof {
            runs_uniform(v@);
        }
        assert forall|j: int| 0 <= j < cur@.len() implies is_digit(#[trigger] cur@[j]) == is_digit(
            cur@[0],
        ) by {
            assert(is_digit(all[all.len() - 1][j]) == is_digit(all[all.len() - 1][0]));
        }
        key.push(part_of(cur.as_slice()));
    }
    assert(parts_view(key@) =~= key_of(v@));
    key
}

/// The key by which a name is ordered.
pub fn natural_key(name: &str) -> (key: Vec<(String, u64)>)
    ensures
        key_view(key@) == key_of(name@),
{
    let parts = key_parts(name);
    let mut key: Vec<(String, u64)> = Vec::new();
    for i in 0..parts.len()
        invariant
            key@.len() == i,
            forall|j: int|
                0 <= j < i ==> ((#[trigger] key@[j]).0@, key@[j].1 as nat) == parts_view(parts@)[j],
    {
        key.push((string_of(parts[i].0.as_slice()), parts[i].1));
    }
    assert(key_view(key@) =~= parts_view(parts@));
    key
}

// ── The order ────────────────────────────────────────────────────────────────

/// Lexicographic order by code point.
pub open spec fn text_lt(a: Seq<char>, b: Seq<char>) -> bool
    decreases a.len(),
{
    if b.len() == 0 {
        false
    } else if a.len() == 0 {
        true
    } else if a[0] == b[0] {
        text_lt(a.drop_first(), b.drop_first())
    } else {
        a[0] < b[0]
    }
}

/// The order of key parts: by text, then by number.
pub open spec fn part_lt(a: (Seq<char>, nat), b: (Seq<char>, nat)) -> bool {
    text_lt(a.0, b.0) || (a.0 == b.0 && a.1 < b.1)
}

/// The order of keys: lexicographic by part.
pub open spec fn key_lt(a: Seq<(Seq<char>, nat)>, b: Seq<(Seq<char>, nat)>) -> bool
    decreases a.len(),
{
    if b.len() == 0 {
        false
    } else if a.len() == 0 {
        true
    } else if a[0] == b[0] {
        key_lt(a.drop_first(), b.drop_first())
    } else {
        part_lt(a[0], b[0])
    }
}

/// Whether the name `a` comes before the name `b` in natural order.
pub open spec fn name_lt(a: Seq<char>, b: Seq<char>) -> bool {
    key_lt(key_of(a), key_of(b))
}

/// No text comes before itself.
proof fn text_lt_irreflexive(a: Seq<char>)
    ensures
        !text_lt(a, a),
    decreases a.len(),
{
    if a.len() > 0 {
        text_lt_irreflexive(a.drop_first());
    }
}

/// The order of texts is transitive.
proof fn text_lt_transitive(a: Seq<char>, b: Seq<char>, c: Seq<char>)
    requires
        text_lt(a, b),
        text_lt(b, c),
    ensures
        text_lt(a, c),
    decreases a.len(),
{
    if a.len() > 0 && b.len() > 0 && c.len() > 0 && a[0] == b[0] && b[0] == c[0] {
        text_lt_transitive(a.drop_first(), b.drop_first(), c.drop_first());
    }
}

/// Of two different texts one comes first.
proof fn text_lt_total(a: Seq<char>, b: Seq<char>)
    ensures
        text_lt(a, b) || text_lt(b, a) || a == b,
    decreases a.len(),
{
    if a.len() > 0 && b.len() > 0 && a[0] == b[0] {
        text_lt_total(a.drop_first(), b.drop_first());
        if a.drop_first() == b.drop_first() {
            assert(a =~= seq![a[0]] + a.drop_first());
            assert(b =~= seq![b[0]] + b.drop_first());
        }
    } else if a.len() == 0 && b.len() == 0 {
        assert(a =~= b);
    }
}

/// The order of parts is irreflexive, transitive and total.
proof fn part_lt_order(a: (Seq<char>, nat), b: (Seq<char>, nat), c: (Seq<char>, nat))
    ensures
        !part_lt(a, a),
        part_lt(a, b) && part_lt(b, c) ==> part_lt(a, c),
        part_lt(a, b) || part_lt(b, a) || a == b,
        part_lt(a, b) ==> !part_lt(b, a),
{
    text_lt_irreflexive(a.0);
    text_lt_irreflexive(b.0);
    text_lt_total(a.0, b.0);
    if text_lt(a.0, b.0) && text_lt(b.0, c.0) {
        text_lt_transitive(a.0, b.0, c.0);
    }
    if text_lt(a.0, b.0) && text_lt(b.0, a.0) {
        text_lt_transitive(a.0, b.0, a.0);
    }
}

/// No key comes before itself.
pub proof fn key_lt_irreflexive(a: Seq<(Seq<char>, nat)>)
    ensures
        !key_lt(a, a),
    decreases a.len(),
{
    if a.len() > 0 {
        key_lt_irreflexive(a.drop_first());
    }
}

/// The order of keys is transitive.
pub proof fn key_lt_transitive(
    a: Seq<(Seq<char>, nat)>,
    b: Seq<(Seq<char>, nat)>,
    c: Seq<(Seq<char>, nat)>,
)
    requires
        key_lt(a, b),
        key_lt(b, c),
    ensures
        key_lt(a, c),
    decreases a.len(),
{
    if a.len() > 0 && b.len() > 0 && c.len() > 0 {
        part_lt_order(a[0], b[0], c[0]);
        part_lt_order(a[0], c[0], b[0]);
        part_lt_order(b[0], a[0], c[0]);
        if a[0] == b[0] && b[0] == c[0] {
            key_lt_transitive(a.drop_first(), b.drop_first(), c.drop_first());
        }
    }
}

/// Of two different keys one comes first.
pub proof fn key_lt_total(a: Seq<(Seq<char>, nat)>, b: Seq<(Seq<char>, nat)>)
    ensures
        key_lt(a, b) || key_lt(b, a) || a == b,
    decreases a.len(),
{
    if a.len() > 0 && b.len() > 0 {
        if a[0] == b[0] {
            key_lt_total(a.drop_first(), b.drop_first());
            if a.drop_first() == b.drop_first() {
                assert(a =~= seq![a[0]] + a.drop_first());
                assert(b =~= seq![b[0]] + b.drop_first());
            }
        } else {
            part_lt_order(a[0], b[0], a[0]);
        }
    } else if a.len() == 0 && b.len() == 0 {
        assert(a =~= b);
    }
}

/// The runs of two texts, where no run reaches from the one into the other.
proof fn runs_apart(a: Seq<char>, b: Seq<char>)
    requires
        a.len() == 0 || b.len() == 0 || is_digit(a.last()) != is_digit(b[0]),
    ensures
        runs(a + b) == runs(a) + runs(b),
    decreases b.len(),
{
    if b.len() == 0 {
        assert(a + b =~= a);
        assert(runs(a) + runs(b) =~= runs(a));
    } else {
        let s = a + b;
        let rest = b.drop_last();
        assert(s.drop_last() =~= a + rest);
        runs_apart(a, rest);
        runs_uniform(rest);
        if b.len() >= 2 {
            assert(s[s.len() - 2] == b[b.len() - 2]);
        } else {
            assert(runs(a) + runs(rest) =~= runs(a));
        }
        assert(runs(s) =~= runs(a) + runs(b));
    }
}

/// A text of digits is one run.
proof fn digits_are_one_run(s: Seq<char>)
    requires
        s.len() > 0,
        all_digits(s),
    ensures
        runs(s) == seq![s],
    decreases s.len(),
{
    let rest = s.drop_last();
    assert(is_digit(s[s.len() - 1]));
    if s.len() >= 2 {
        assert(is_digit(s[s.len() - 2]));
        assert forall|i: int| 0 <= i < rest.len() implies is_digit(#[trigger] rest[i]) by {
            assert(is_digit(s[i]));
        }
        digits_are_one_run(rest);
        assert(runs(rest).last() =~= rest);
        assert(rest.push(s.last()) =~= s);
        assert(runs(s) =~= seq![s]);
    } else {
        assert(runs(rest) =~= Seq::empty());
        assert(seq![s.last()] =~= s);
        assert(runs(s) =~= seq![s]);
    }
}

/// The key of a name with a numeral in it.
proof fn numeral_key(a: Seq<char>, n: Seq<char>, b: Seq<char>)
    requires
        a.len() == 0 || !is_digit(a.last()),
        b.len() == 0 || !is_digit(b[0]),
        n.len() > 0,
        all_digits(n),
        decimal_value(n) <= u64::MAX,
    ensures
        key_of(a + n + b) == key_of(a) + (seq![(Seq::<char>::empty(), decimal_value(n))] + key_of(
            b,
        )),
{
    assert(is_digit(n[0]) && is_digit(n[n.len() - 1]));
    runs_apart(a, n);
    assert((a + n).last() == n.last());
    runs_apart(a + n, b);
    digits_are_one_run(n);
    assert(runs(a + n + b) =~= runs(a) + (seq![n] + runs(b)));
    assert(key_of(a + n + b) =~= key_of(a) + (seq![(Seq::<char>::empty(), decimal_value(n))]
        + key_of(b)));
}

/// What two keys begin with in common does not decide their order.
proof fn common_start(p: Seq<(Seq<char>, nat)>, a: Seq<(Seq<char>, nat)>, b: Seq<(Seq<char>, nat)>)
    ensures
        key_lt(p + a, p + b) == key_lt(a, b),
    decreases p.len(),
{
    if p.len() == 0 {
        assert(p + a =~= a);
        assert(p + b =~= b);
    } else {
        assert((p + a).drop_first() =~= p.drop_first() + a);
        assert((p + b).drop_first() =~= p.drop_first() + b);
        common_start(p.drop_first(), a, b);
    }
}

/// Names that differ in one numeral only are ordered by its value, whatever
/// zeros it begins with: "page 2" comes before "page 10". This holds as long as
/// the values fit 64 bits.
pub proof fn numerals_order_by_value(a: Seq<char>, m: Seq<char>, n: Seq<char>, b: Seq<char>)
    requires
        a.len() == 0 || !is_digit(a.last()),
        b.len() == 0 || !is_digit(b[0]),
        m.len() > 0,
        n.len() > 0,
        all_digits(m),
        all_digits(n),
        decimal_value(m) <= u64::MAX,
        decimal_value(n) <= u64::MAX,
    ensures
        name_lt(a + m + b, a + n + b) <==> decimal_value(m) < decimal_value(n),
{
    let x = seq![(Seq::<char>::empty(), decimal_value(m))];
    let y = seq![(Seq::<char>::empty(), decimal_value(n))];
    numeral_key(a, m, b);
    numeral_key(a, n, b);
    common_start(key_of(a), x + key_of(b), y + key_of(b));
    assert((x + key_of(b)).drop_first() =~= key_of(b));
    assert((y + key_of(b)).drop_first() =~= key_of(b));
    key_lt_irreflexive(key_of(b));
}

/// Texts are ordered as in a dictionary: a text comes before another if the
/// other continues it, or if at the first place at which the two differ it has
/// the smaller character.
pub proof fn texts_are_ordered_as_in_a_dictionary(a: Seq<char>, b: Seq<char>)
    ensures
        text_lt(a, b) <==> {
            ||| a.len() < b.len() && b.take(a.len() as int) == a
            ||| exists|k: int|
                0 <= k < a.len() && k < b.len() && #[trigger] a.take(k) == b.take(k) && a[k] < b[k]
        },
    decreases a.len(),
{
    if a.len() == 0 || b.len() == 0 {
        assert(a.len() == 0 ==> b.take(a.len() as int) =~= a);
    } else {
        let x = a.drop_first();
        let y = b.drop_first();
        texts_are_ordered_as_in_a_dictionary(x, y);
        assert forall|k: int| 0 <= k < x.len() && k < y.len() implies (a[0] == b[0] && x.take(k)
            == y.take(k) <==> #[trigger] a.take(k + 1) == b.take(k + 1)) by {
            assert(a.take(k + 1) =~= seq![a[0]] + x.take(k));
            assert(b.take(k + 1) =~= seq![b[0]] + y.take(k));
            assert(a.take(k + 1)[0] == a[0] && b.take(k + 1)[0] == b[0]);
            assert(a.take(k + 1).drop_first() =~= x.take(k));
            assert(b.take(k + 1).drop_first() =~= y.take(k));
        }
        if a[0] == b[0] {
            if a.len() < b.len() {
                assert(b.take(a.len() as int) =~= seq![b[0]] + y.take(x.len() as int));
                assert(b.take(a.len() as int).drop_first() =~= y.take(x.len() as int));
                assert(a =~= seq![a[0]] + x);
            }
            if exists|k: int|
                0 <= k < a.len() && k < b.len() && #[trigger] a.take(k) == b.take(k) && a[k] < b[k] {
                let k = choose|k: int|
                    0 <= k < a.len() && k < b.len() && #[trigger] a.take(k) == b.take(k) && a[k]
                        < b[k];
                assert(a.take(k - 1 + 1) == b.take(k - 1 + 1));
                assert(x.take(k - 1) == y.take(k - 1) && x[k - 1] < y[k - 1]);
            }
            if exists|k: int|
                0 <= k < x.len() && k < y.len() && #[trigger] x.take(k) == y.take(k) && x[k] < y[k] {
                let k = choose|k: int|
                    0 <= k < x.len() && k < y.len() && #[trigger] x.take(k) == y.take(k) && x[k]
                        < y[k];
                assert(a.take(k + 1) == b.take(k + 1) && a[k + 1] < b[k + 1]);
            }
        } else {
            assert(a.take(0) =~= b.take(0));
            if b.take(a.len() as int) == a {
                assert(a.len() < b.len() ==> b.take(a.len() as int)[0] == b[0]);
            }
            assert forall|k: int| 0 < k < a.len() && k < b.len() implies #[trigger] a.take(k)
                != b.take(k) by {
                assert(a.take(k)[0] == a[0] && b.take(k)[0] == b[0]);
            }
        }
    }
}

/// Keys are ordered as in a dictionary, too: at the first place at which two
/// keys differ, the text of the part decides, and between equal texts the number.
pub proof fn keys_are_ordered_as_in_a_dictionary(
    a: Seq<(Seq<char>, nat)>,
    b: Seq<(Seq<char>, nat)>,
    k: int,
)
    requires
        0 <= k <= a.len(),
        k <= b.len(),
        a.take(k) == b.take(k),
        k < a.len() && k < b.len() ==> a[k] != b[k],
    ensures
        k == a.len() ==> (key_lt(a, b) <==> k < b.len()),
        k == b.len() ==> !key_lt(a, b),
        k < a.len() && k < b.len() ==> (key_lt(a, b) <==> if a[k].0 == b[k].0 {
            a[k].1 < b[k].1
        } else {
            text_lt(a[k].0, b[k].0)
        }),
{
    let p = a.take(k);
    assert(a =~= p + a.skip(k));
    assert(b =~= p + b.skip(k));
    common_start(p, a.skip(k), b.skip(k));
    if k < a.len() {
        text_lt_irreflexive(a[k].0);
    }
}

/// The runs of a name, one after the other, are the name; each of them consists
/// of digits alone or of other characters alone, and two of one kind never stand
/// side by side.
pub proof fn runs_make_up_the_name(s: Seq<char>)
    ensures
        runs(s).flatten() == s,
        forall|i: int| 0 <= i < runs(s).len() ==> #[trigger] runs(s)[i].len() > 0,
        forall|i: int, j: int|
            0 <= i < runs(s).len() && 0 <= j < runs(s)[i].len() ==> is_digit(
                #[trigger] runs(s)[i][j],
            ) == is_digit(runs(s)[i][0]),
        forall|i: int|
            1 <= i < runs(s).len() ==> is_digit(#[trigger] runs(s)[i][0]) != is_digit(
                runs(s)[i - 1][0],
            ),
    decreases s.len(),
{
    runs_uniform(s);
    if s.len() == 0 {
        assert(runs(s).flatten() =~= s);
    } else {
        let before = s.drop_last();
        let all = runs(s);
        let had = runs(before);
        runs_make_up_the_name(before);
        runs_uniform(before);
        all.lemma_flatten_and_flatten_alt_are_equivalent();
        had.lemma_flatten_and_flatten_alt_are_equivalent();
        assert(s =~= before.push(s.last()));
        if s.len() >= 2 && is_digit(s[s.len() - 2]) == is_digit(s.last()) {
            assert(before.last() == s[s.len() - 2]);
            assert(all.drop_last() =~= had.drop_last());
            assert(all.flatten_alt() == had.drop_last().flatten_alt() + had.last().push(s.last()));
            assert(all.flatten() =~= had.flatten().push(s.last()));
        } else {
            assert(all.drop_last() =~= had);
            assert(all.flatten_alt() == had.flatten_alt() + seq![s.last()]);
            assert(all.flatten() =~= s);
            assert(before.len() > 0 ==> before.last() == s[s.len() - 2]);
        }
    }
}

/// How the last run of a text goes on in a text of the same kind.
proof fn last_run_goes_on(a: Seq<char>, b: Seq<char>) -> (u: Seq<char>)
    requires
        a.len() > 0,
        b.len() > 0,
        is_digit(a.last()) == is_digit(b[0]),
    ensures
        u.len() > 0,
        runs(a).len() > 0,
        runs(a + b).len() >= runs(a).len(),
        runs(a + b).take(runs(a).len() - 1) == runs(a).drop_last(),
        runs(a + b)[runs(a).len() - 1] == runs(a).last() + u,
    decreases b.len(),
{
    let s = a + b;
    let rest = b.drop_last();
    runs_uniform(a);
    assert(s.drop_last() =~= a + rest);
    assert(s.last() == b.last());
    let n = runs(a).len() as int;
    if b.len() == 1 {
        assert(a + rest =~= a);
        assert(s[s.len() - 2] == a.last());
        assert(runs(s).take(n - 1) =~= runs(a).drop_last());
        assert(runs(a).last().push(b[0]) =~= runs(a).last() + seq![b[0]]);
        seq![b[0]]
    } else {
        let u = last_run_goes_on(a, rest);
        runs_uniform(a + rest);
        let before = runs(a + rest);
        assert(s[s.len() - 2] == (a + rest).last());
        if is_digit(s[s.len() - 2]) == is_digit(s.last()) && before.len() == n {
            assert(runs(s).take(n - 1) =~= runs(a).drop_last());
            assert((runs(a).last() + u).push(s.last()) =~= runs(a).last() + u.push(s.last()));
            u.push(s.last())
        } else {
            assert(runs(s).take(n - 1) =~= before.take(n - 1));
            assert(runs(s)[n - 1] == before[n - 1]);
            u
        }
    }
}

/// A name comes before every name that continues it, as long as it is no numeral
/// that is continued: "Batman " comes before "Batman Annual", and "Saga" before
/// "Saga 2".
pub proof fn a_name_comes_before_its_continuations(a: Seq<char>, b: Seq<char>)
    requires
        b.len() > 0,
        a.len() == 0 || !is_digit(a.last()) || !is_digit(b[0]),
    ensures
        name_lt(a, a + b),
        !name_lt(a + b, a),
{
    runs_uniform(a);
    runs_uniform(b);
    if a.len() == 0 || is_digit(a.last()) != is_digit(b[0]) {
        let none = Seq::<(Seq<char>, nat)>::empty();
        runs_apart(a, b);
        assert(key_of(a + b) =~= key_of(a) + key_of(b));
        assert(key_of(a) =~= key_of(a) + none);
        common_start(key_of(a), none, key_of(b));
        assert(runs(b).len() > 0);
    } else {
        let u = last_run_goes_on(a, b);
        let n = runs(a).len() - 1;
        let t = runs(a).last();
        runs_uniform(a + b);
        assert(!is_digit(t[0]));
        assert((t + u)[0] == t[0]);
        let x = key_of(a);
        let y = key_of(a + b);
        assert(x.take(n) =~= y.take(n)) by {
            assert forall|i: int| 0 <= i < n implies x[i] == y[i] by {
                assert(runs(a + b).take(n)[i] == runs(a).drop_last()[i]);
            }
        }
        assert(x[n] == (t, 0nat));
        assert(y[n] == (t + u, 0nat));
        texts_are_ordered_as_in_a_dictionary(t, t + u);
        assert((t + u).take(t.len() as int) =~= t);
        assert(t.len() != (t + u).len());
        keys_are_ordered_as_in_a_dictionary(x, y, n);
    }
    if name_lt(a + b, a) {
        key_lt_transitive(key_of(a), key_of(a + b), key_of(a));
        key_lt_irreflexive(key_of(a));
    }
}

/// The first part of the key of a name that begins with text.
proof fn text_comes_first(s: Seq<char>, x: Seq<char>)
    requires
        s.len() > 0,
        forall|i: int| 0 <= i < s.len() ==> !is_digit(#[trigger] s[i]),
        x.len() == 0 || is_digit(x[0]),
    ensures
        key_of(s + x).len() > 0,
        key_of(s + x)[0] == (s, 0nat),
{
    one_run_of_text(s);
    runs_apart(s, x);
    assert(runs(s + x)[0] == s);
}

/// A text without digits is one run.
proof fn one_run_of_text(s: Seq<char>)
    requires
        s.len() > 0,
        forall|i: int| 0 <= i < s.len() ==> !is_digit(#[trigger] s[i]),
    ensures
        runs(s) == seq![s],
    decreases s.len(),
{
    let rest = s.drop_last();
    if s.len() >= 2 {
        one_run_of_text(rest);
        assert(rest.push(s.last()) =~= s);
        assert(runs(s) =~= seq![s]);
    } else {
        assert(runs(rest) =~= Seq::empty());
        assert(seq![s.last()] =~= s);
        assert(runs(s) =~= seq![s]);
    }
}

/// Names that begin with different texts are ordered by these texts, whatever
/// numerals follow; and a name that begins with a numeral comes before one that
/// begins with a text.
pub proof fn leading_texts_decide(s: Seq<char>, x: Seq<char>, t: Seq<char>, y: Seq<char>)
    requires
        forall|i: int| 0 <= i < s.len() ==> !is_digit(#[trigger] s[i]),
        forall|i: int| 0 <= i < t.len() ==> !is_digit(#[trigger] t[i]),
        x.len() == 0 || is_digit(x[0]),
        y.len() == 0 || is_digit(y[0]),
        s != t,
    ensures
        name_lt(s + x, t + y) <==> {
            ||| s.len() < t.len() && t.take(s.len() as int) == s
            ||| exists|k: int|
                0 <= k < s.len() && k < t.len() && #[trigger] s.take(k) == t.take(k) && s[k] < t[k]
        },
{
    texts_are_ordered_as_in_a_dictionary(s, t);
    if s.len() > 0 {
        text_comes_first(s, x);
    } else {
        assert(s + x =~= x);
        assert(x.len() == 0 ==> key_of(x) =~= Seq::empty());
        numeral_first(x);
    }
    if t.len() > 0 {
        text_comes_first(t, y);
    } else {
        assert(t + y =~= y);
        assert(y.len() == 0 ==> key_of(y) =~= Seq::empty());
        numeral_first(y);
    }
    if s.len() == 0 && t.len() == 0 {
        assert(s =~= t);
    }
    let a = key_of(s + x);
    let b = key_of(t + y);
    assert(a.take(0) =~= b.take(0));
    if a.len() > 0 && b.len() > 0 {
        keys_are_ordered_as_in_a_dictionary(a, b, 0);
    } else if b.len() > 0 {
        keys_are_ordered_as_in_a_dictionary(a, b, 0);
    }
}

/// The first part of the key of a name that begins with a numeral.
proof fn numeral_first(x: Seq<char>)
    requires
        x.len() == 0 || is_digit(x[0]),
    ensures
        x.len() > 0 ==> key_of(x).len() > 0 && key_of(x)[0].0 == Seq::<char>::empty(),
{
    runs_make_up_the_name(x);
    if x.len() > 0 {
        runs_uniform(x);
        let r = runs(x);
        r.lemma_flatten_and_flatten_alt_are_equivalent();
        assert(r.flatten() == r.first() + r.drop_first().flatten());
        assert(x[0] == r[0][0]);
    }
}

/// A numeral whose value does not fit 64 bits counts as zero.
pub proof fn an_oversized_numeral_counts_as_zero(a: Seq<char>, n: Seq<char>, b: Seq<char>)
    requires
        a.len() == 0 || !is_digit(a.last()),
        b.len() == 0 || !is_digit(b[0]),
        n.len() > 0,
        all_digits(n),
        decimal_value(n) > u64::MAX,
    ensures
        key_of(a + n + b) == key_of(a + seq!['0'] + b),
{
    let z = seq!['0'];
    assert(is_digit(n[0]) && is_digit(n[n.len() - 1]));
    runs_apart(a, n);
    assert((a + n).last() == n.last());
    runs_apart(a + n, b);
    digits_are_one_run(n);
    assert(decimal_value(z) == 0) by {
        reveal_with_fuel(decimal_value, 2);
    }
    numeral_key(a, z, b);
    assert(runs(a + n + b) =~= runs(a) + (seq![n] + runs(b)));
    assert(key_of(a + n + b) =~= key_of(a) + (seq![(Seq::<char>::empty(), 0nat)] + key_of(b)));
}

/// Whether the text `a` comes before the text `b`.
fn text_less(a: &[char], b: &[char]) -> (r: bool)
    ensures
        r == text_lt(a@, b@),
{
    let mut i: usize = 0;
    assert(a@.skip(0) == a@);
    assert(b@.skip(0) == b@);
    while i < a.len() && i < b.len()
        invariant
            i <= a@.len(),
            i <= b@.len(),
            text_lt(a@.skip(i as int), b@.skip(i as int)) == text_lt(a@, b@),
        decreases a@.len() - i,
    {
        assert(a@.skip(i as int).drop_first() == a@.skip(i + 1));
        assert(b@.skip(i as int).drop_first() == b@.skip(i + 1));
        if a[i] != b[i] {
            return a[i] < b[i];
        }
        i = i + 1;
    }
    i < b.len()
}

/// Whether the key `a` comes before the key `b`.
fn key_less(a: &Vec<(Vec<char>, u64)>, b: &Vec<(Vec<char>, u64)>) -> (r: bool)
    ensures
        r == key_lt(parts_view(a@), parts_view(b@)),
{
    let ghost ka = parts_view(a@);
    let ghost kb = parts_view(b@);
    let mut i: usize = 0;
    assert(ka.skip(0) == ka);
    assert(kb.skip(0) == kb);
    while i < a.len() && i < b.len()
        invariant
            i <= a@.len(),
            i <= b@.len(),
            ka == parts_view(a@),
            kb == parts_view(b@),
            key_lt(ka.skip(i as int), kb.skip(i as int)) == key_lt(ka, kb),
        decreases a@.len() - i,
    {
        let ghost ra = ka.skip(i as int);
        let ghost rb = kb.skip(i as int);
        assert(ra[0] == (a@[i as int].0@, a@[i as int].1 as nat));
        assert(rb[0] == (b@[i as int].0@, b@[i as int].1 as nat));
        assert(ra.drop_first() == ka.skip(i + 1));
        assert(rb.drop_first() == kb.skip(i + 1));
        if same_chars(a[i].0.as_slice(), b[i].0.as_slice()) {
            if a[i].1 != b[i].1 {
                proof {
                    text_lt_irreflexive(ra[0].0);
                }
                return a[i].1 < b[i].1;
            }
        } else {
            return text_less(a[i].0.as_slice(), b[i].0.as_slice());
        }
        i = i + 1;
    }
    i < b.len()
}

// ── Sorting ──────────────────────────────────────────────────────────────────

/// How many items at the front of `s` come before the name `n`.
pub open spec fn lower_bound<T>(s: Seq<(Seq<char>, T)>, n: Seq<char>) -> nat
    decreases s.len(),
{
    if s.len() > 0 && name_lt(s[0].0, n) {
        1 + lower_bound(s.drop_first(), n)
    } else {
        0
    }
}

/// Named items in natural order. Items whose names are equal in that order
/// stay as they were.
pub open spec fn natural_sorted<T>(s: Seq<(Seq<char>, T)>) -> Seq<(Seq<char>, T)>
    decreases s.len(),
{
    if s.len() == 0 {
        s
    } else {
        let rest = natural_sorted(s.drop_first());
        rest.insert(lower_bound(rest, s[0].0) as int, s[0])
    }
}

/// Named items with the names as texts.
pub open spec fn named<T>(s: Seq<(String, T)>) -> Seq<(Seq<char>, T)> {
    s.map_values(|x: (String, T)| (x.0@, x.1))
}

/// Whether no item comes before one that stands ahead of it.
pub open spec fn in_order<T>(s: Seq<(Seq<char>, T)>) -> bool {
    forall|i: int, j: int| 0 <= i <= j < s.len() ==> !name_lt(#[trigger] s[j].0, #[trigger] s[i].0)
}

/// What the lower bound is: everything ahead of it comes before the name, and
/// the item at it does not.
proof fn lower_bound_is<T>(s: Seq<(Seq<char>, T)>, n: Seq<char>)
    ensures
        lower_bound(s, n) <= s.len(),
        forall|i: int| 0 <= i < lower_bound(s, n) ==> name_lt(#[trigger] s[i].0, n),
        lower_bound(s, n) < s.len() ==> !name_lt(s[lower_bound(s, n) as int].0, n),
    decreases s.len(),
{
    if s.len() > 0 && name_lt(s[0].0, n) {
        let t = s.drop_first();
        lower_bound_is(t, n);
        assert forall|i: int| 0 <= i < lower_bound(s, n) implies name_lt(#[trigger] s[i].0, n) by {
            if i > 0 {
                assert(s[i] == t[i - 1]);
            }
        }
        if lower_bound(s, n) < s.len() {
            assert(s[lower_bound(s, n) as int] == t[lower_bound(t, n) as int]);
        }
    }
}

/// A position with that property is the lower bound.
proof fn lower_bound_unique<T>(s: Seq<(Seq<char>, T)>, n: Seq<char>, p: int)
    requires
        0 <= p <= s.len(),
        forall|i: int| 0 <= i < p ==> name_lt(#[trigger] s[i].0, n),
        p < s.len() ==> !name_lt(s[p].0, n),
    ensures
        lower_bound(s, n) == p,
{
    lower_bound_is(s, n);
    let b = lower_bound(s, n) as int;
    if b < p {
        assert(name_lt(s[b].0, n));
    } else if p < b {
        assert(name_lt(s[p].0, n));
    }
}

/// Sorting puts the items in order.
pub proof fn natural_sorted_in_order<T>(s: Seq<(Seq<char>, T)>)
    ensures
        in_order(natural_sorted(s)),
        natural_sorted(s).len() == s.len(),
    decreases s.len(),
{
    if s.len() > 0 {
        let rest = natural_sorted(s.drop_first());
        let n = s[0].0;
        natural_sorted_in_order(s.drop_first());
        lower_bound_is(rest, n);
        let b = lower_bound(rest, n) as int;
        let r = natural_sorted(s);
        assert forall|i: int, j: int| 0 <= i <= j < r.len() implies !name_lt(
            #[trigger] r[j].0,
            #[trigger] r[i].0,
        ) by {
            let x = if i < b {
                i
            } else {
                i - 1
            };
            let y = if j < b {
                j
            } else {
                j - 1
            };
            if i == j {
                key_lt_irreflexive(key_of(r[i].0));
            } else if i != b && j != b {
                assert(r[i] == rest[x]);
                assert(r[j] == rest[y]);
            } else if i == b {
                // The new item stands ahead of everything that is not before it.
                assert(r[j] == rest[j - 1]);
                if name_lt(rest[j - 1].0, n) {
                    key_lt_total(key_of(rest[b].0), key_of(rest[j - 1].0));
                    assert(!name_lt(rest[j - 1].0, rest[b].0));
                    if key_of(rest[b].0) != key_of(rest[j - 1].0) {
                        key_lt_transitive(
                            key_of(rest[b].0),
                            key_of(rest[j - 1].0),
                            key_of(n),
                        );
                    }
                }
            } else {
                // Everything ahead of the new item comes before it.
                assert(r[i] == rest[i]);
                if name_lt(n, rest[i].0) {
                    key_lt_transitive(key_of(n), key_of(rest[i].0), key_of(n));
                    key_lt_irreflexive(key_of(n));
                }
            }
        }
    }
}

/// Sorting neither adds nor loses an item.
pub proof fn natural_sorted_same_items<T>(s: Seq<(Seq<char>, T)>)
    ensures
        natural_sorted(s).to_multiset() == s.to_multiset(),
    decreases s.len(),
{
    if s.len() > 0 {
        let rest = natural_sorted(s.drop_first());
        let b = lower_bound(rest, s[0].0) as int;
        natural_sorted_same_items(s.drop_first());
        lower_bound_is(rest, s[0].0);
        broadcast use vstd::seq_lib::group_to_multiset_ensures;

        assert(rest.insert(b, s[0]).remove(b) =~= rest);
        assert(s.drop_first() =~= s.remove(0));
        assert(natural_sorted(s).to_multiset() =~= rest.to_multiset().insert(s[0]));
        assert(s.remove(0).to_multiset() =~= s.to_multiset().remove(s[0]));
        assert(s.to_multiset().contains(s[0])) by {
            assert(s.contains(s[0]));
        }
        assert(s.to_multiset() =~= s.to_multiset().remove(s[0]).insert(s[0]));
    }
}

/// The items of `s` whose names are equal to `n` in natural order.
pub open spec fn of_key<T>(s: Seq<(Seq<char>, T)>, n: Seq<char>) -> Seq<(Seq<char>, T)>
    decreases s.len(),
{
    if s.len() == 0 {
        s
    } else if key_of(s[0].0) == key_of(n) {
        seq![s[0]] + of_key(s.drop_first(), n)
    } else {
        of_key(s.drop_first(), n)
    }
}

/// How an inserted item shows among the items of one key.
proof fn of_key_insert<T>(s: Seq<(Seq<char>, T)>, p: int, x: (Seq<char>, T), n: Seq<char>)
    requires
        0 <= p <= s.len(),
        forall|i: int| 0 <= i < p ==> key_of(#[trigger] s[i].0) != key_of(x.0),
    ensures
        of_key(s.insert(p, x), n) == (if key_of(x.0) == key_of(n) {
            seq![x] + of_key(s, n)
        } else {
            of_key(s, n)
        }),
    decreases p,
{
    let r = s.insert(p, x);
    if p == 0 {
        assert(r.drop_first() =~= s);
    } else {
        let t = s.drop_first();
        assert(r.drop_first() =~= t.insert(p - 1, x));
        assert forall|i: int| 0 <= i < p - 1 implies key_of(#[trigger] t[i].0) != key_of(x.0) by {
            assert(t[i] == s[i + 1]);
        }
        of_key_insert(t, p - 1, x, n);
        assert(key_of(s[0].0) != key_of(x.0));
    }
}

/// Sorting is stable: items whose names are equal in natural order keep the
/// order in which they came.
pub proof fn natural_sorted_stable<T>(s: Seq<(Seq<char>, T)>, n: Seq<char>)
    ensures
        of_key(natural_sorted(s), n) == of_key(s, n),
    decreases s.len(),
{
    if s.len() > 0 {
        let rest = natural_sorted(s.drop_first());
        let b = lower_bound(rest, s[0].0) as int;
        natural_sorted_stable(s.drop_first(), n);
        lower_bound_is(rest, s[0].0);
        assert forall|i: int| 0 <= i < b implies key_of(#[trigger] rest[i].0) != key_of(
            s[0].0,
        ) by {
            key_lt_irreflexive(key_of(s[0].0));
        }
        of_key_insert(rest, b, s[0], n);
    }
}

/// Sorting goes by the names alone: what else the items hold may be looked at
/// before or after.
pub proof fn natural_sorted_map<T, V>(s: Seq<(Seq<char>, T)>, f: spec_fn(T) -> V)
    ensures
        natural_sorted(s.map_values(|x: (Seq<char>, T)| (x.0, f(x.1)))) == natural_sorted(
            s,
        ).map_values(|x: (Seq<char>, T)| (x.0, f(x.1))),
    decreases s.len(),
{
    let g = |x: (Seq<char>, T)| (x.0, f(x.1));
    if s.len() == 0 {
        assert(s.map_values(g) =~= Seq::empty());
        assert(natural_sorted(s).map_values(g) =~= Seq::empty());
    } else {
        let rest = natural_sorted(s.drop_first());
        let mapped = rest.map_values(g);
        natural_sorted_map(s.drop_first(), f);
        assert(s.map_values(g).drop_first() =~= s.drop_first().map_values(g));
        lower_bound_is(rest, s[0].0);
        let b = lower_bound(rest, s[0].0) as int;
        assert forall|i: int| 0 <= i < b implies name_lt(#[trigger] mapped[i].0, s[0].0) by {
            assert(mapped[i].0 == rest[i].0);
        }
        lower_bound_unique(mapped, s[0].0, b);
        assert(natural_sorted(s).map_values(g) =~= mapped.insert(b, g(s[0])));
    }
}

/// Sorts named items into natural order.
pub fn sort_by_name<T>(items: Vec<(String, T)>) -> (r: Vec<(String, T)>)
    ensures
        named(r@) == natural_sorted(named(items@)),
{
    let ghost all = named(items@);
    let mut rest = items;
    let mut r: Vec<(String, T)> = Vec::new();
    let mut keys: Vec<Vec<(Vec<char>, u64)>> = Vec::new();
    assert(all.skip(all.len() as int) =~= Seq::empty());
    assert(named(r@) =~= Seq::empty());
    assert(all.take(all.len() as int) =~= all);
    while rest.len() > 0
        invariant
            rest@.len() <= all.len(),
            named(rest@) == all.take(rest@.len() as int),
            named(r@) == natural_sorted(all.skip(rest@.len() as int)),
            keys@.len() == r@.len(),
            forall|i: int| 0 <= i < r@.len() ==> parts_view(#[trigger] keys@[i]@) == key_of(named(r@)[i].0),
        decreases rest@.len(),
    {
        let ghost k = rest@.len() - 1;
        let ghost rest0 = rest@;
        let ghost tail = all.skip(rest@.len() as int);
        let item = rest.pop().unwrap();
        assert((item.0@, item.1) == all[k]) by {
            assert(named(rest0)[k] == all.take(k + 1)[k]);
        }
        assert(all.skip(k).drop_first() =~= tail);
        let key = key_parts(item.0.as_str());
        proof {
            natural_sorted_in_order(tail);
        }
        let mut lo: usize = 0;
        let mut hi: usize = r.len();
        while lo < hi
            invariant
                lo <= hi <= r@.len(),
                keys@.len() == r@.len(),
                in_order(named(r@)),
                parts_view(key@) == key_of(item.0@),
                forall|i: int|
                    0 <= i < r@.len() ==> parts_view(#[trigger] keys@[i]@) == key_of(named(r@)[i].0),
                forall|i: int| 0 <= i < lo ==> name_lt(#[trigger] named(r@)[i].0, item.0@),
                hi < r@.len() ==> !name_lt(named(r@)[hi as int].0, item.0@),
            decreases hi - lo,
        {
            let mid: usize = lo + (hi - lo) / 2;
            assert(parts_view(keys@[mid as int]@) == key_of(named(r@)[mid as int].0));
            if key_less(&keys[mid], &key) {
                assert forall|i: int| 0 <= i < mid + 1 implies name_lt(
                    #[trigger] named(r@)[i].0,
                    item.0@,
                ) by {
                    if i < mid {
                        assert(!name_lt(named(r@)[mid as int].0, named(r@)[i].0));
                        key_lt_total(key_of(named(r@)[i].0), key_of(named(r@)[mid as int].0));
                        if key_of(named(r@)[i].0) != key_of(named(r@)[mid as int].0) {
                            key_lt_transitive(
                                key_of(named(r@)[i].0),
                                key_of(named(r@)[mid as int].0),
                                key_of(item.0@),
                            );
                        }
                    }
                }
                lo = mid + 1;
            } else {
                hi = mid;
            }
        }
        proof {
            lower_bound_unique(named(r@), item.0@, lo as int);
        }
        let ghost r0 = named(r@);
        let ghost keys0 = keys@;
        let ghost pair = (item.0@, item.1);
        r.insert(lo, item);
        assert(named(r@) =~= r0.insert(lo as int, pair));
        keys.insert(lo, key);
        assert forall|i: int| 0 <= i < r@.len() implies parts_view(#[trigger] keys@[i]@) == key_of(
            named(r@)[i].0,
        ) by {
            if i < lo {
                assert(keys@[i] == keys0[i]);
            } else if i > lo {
                assert(keys@[i] == keys0[i - 1]);
            }
        }
        assert(named(rest@) =~= all.take(k)) by {
            assert(named(rest0).take(k) =~= all.take(k + 1).take(k));
        }
    }
    assert(all.skip(0) =~= all);
    r
}

} // verus!
