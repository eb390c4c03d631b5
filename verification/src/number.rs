//! Numbers as text: how they are written and how they are read.
use crate::text::{is_digit, is_digit_char};
use vstd::prelude::*;

verus! {

// ── Writing ──────────────────────────────────────────────────────────────────

/// The digit of value `d`, for `d` below sixteen.
pub open spec fn digit(d: nat) -> char {
    if d < 10 {
        (48 + d) as u8 as char
    } else {
        (87 + d) as u8 as char
    }
}

/// The digits of `n` to the given base, the most significant one first.
pub open spec fn digits(n: nat, base: nat) -> Seq<char>
    decreases n,
{
    if n < base || base < 2 {
        seq![digit(n)]
    } else {
        proof {
            vstd::arithmetic::div_mod::lemma_div_decreases(n as int, base as int);
        }
        digits(n / base, base).push(digit(n % base))
    }
}

/// `n` in decimal.
pub open spec fn decimal(n: nat) -> Seq<char> {
    digits(n, 10)
}

/// A numeral filled up with zeros on the left to at least `width` digits.
pub open spec fn zero_padded(s: Seq<char>, width: nat) -> Seq<char> {
    if s.len() >= width {
        s
    } else {
        Seq::new((width - s.len()) as nat, |i: int| '0') + s
    }
}

/// The digit of value `d`.
fn digit_char(d: u128) -> (c: char)
    requires
        d < 16,
    ensures
        c == digit(d as nat),
{
    if d < 10 {
        (48 + d as u8) as char
    } else {
        (87 + d as u8) as char
    }
}

/// Appends the digits of `n` to the given base.
fn push_digits(out: &mut Vec<char>, n: u128, base: u128)
    requires
        2 <= base <= 16,
    ensures
        final(out)@ == old(out)@ + digits(n as nat, base as nat),
    decreases n,
{
    if n < base {
        out.push(digit_char(n));
    } else {
        proof {
            vstd::arithmetic::div_mod::lemma_div_decreases(n as int, base as int);
        }
        push_digits(out, n / base, base);
        let d: u128 = n % base;
        out.push(digit_char(d));
    }
}

/// `n` in decimal.
pub fn decimal_text(n: u128) -> (s: String)
    ensures
        s@ == decimal(n as nat),
{
    let mut v: Vec<char> = Vec::new();
    push_digits(&mut v, n, 10);
    crate::text::string_of(v.as_slice())
}

/// `n` to the given base, filled up with zeros to `width` digits.
pub fn padded_text(n: u128, base: u128, width: usize) -> (s: String)
    requires
        2 <= base <= 16,
    ensures
        s@ == zero_padded(digits(n as nat, base as nat), width as nat),
{
    let mut v: Vec<char> = Vec::new();
    push_digits(&mut v, n, base);
    let len: usize = v.len();
    let mut s = String::new();
    let mut i: usize = len;
    while i < width
        invariant
            len == v@.len(),
            len <= i,
            i <= width || i == len,
            s@ == Seq::new((i - len) as nat, |k: int| '0'),
        decreases width - i,
    {
        s.push('0');
        i = i + 1;
        assert(s@ =~= Seq::new((i - len) as nat, |k: int| '0'));
    }
    let t = crate::text::string_of(v.as_slice());
    s.append(t.as_str());
    assert(s@ =~= zero_padded(v@, width as nat));
    s
}

/// A whole number in decimal, with its sign if it is negative.
pub open spec fn signed_decimal(n: int) -> Seq<char> {
    if n < 0 {
        seq!['-'] + decimal((-n) as nat)
    } else {
        decimal(n as nat)
    }
}

/// A whole number in decimal, with its sign if it is negative.
pub fn signed_text(n: i32) -> (s: String)
    ensures
        s@ == signed_decimal(n as int),
{
    let wide: i64 = n as i64;
    if wide < 0 {
        let mut v: Vec<char> = Vec::new();
        v.push('-');
        push_digits(&mut v, (-wide) as u128, 10);
        crate::text::string_of(v.as_slice())
    } else {
        decimal_text(wide as u128)
    }
}

/// The number behind `n`, in decimal: people count from one.
pub fn counted_text(n: usize) -> (s: String)
    ensures
        s@ == decimal(n as nat + 1),
{
    let next: u128 = n as u128 + 1;
    decimal_text(next)
}

// ── Reading ──────────────────────────────────────────────────────────────────

/// Whether a text is made of decimal digits only.
pub open spec fn all_digits(s: Seq<char>) -> bool {
    forall|i: int| 0 <= i < s.len() ==> is_digit(#[trigger] s[i])
}

/// The value of a decimal digit.
pub open spec fn digit_value(c: char) -> nat {
    (c as u32 - 48) as nat
}

/// The value of a text of decimal digits.
pub open spec fn decimal_value(s: Seq<char>) -> nat
    decreases s.len(),
{
    if s.len() == 0 {
        0
    } else {
        decimal_value(s.drop_last()) * 10 + digit_value(s.last())
    }
}

/// What a text of digits reads as, in a type whose largest value is `max`.
pub open spec fn read_decimal(s: Seq<char>, max: nat) -> Option<nat> {
    if s.len() > 0 && all_digits(s) && decimal_value(s) <= max {
        Some(decimal_value(s))
    } else {
        None
    }
}

/// Further digits never make a numeral smaller.
proof fn prefix_value(s: Seq<char>, k: int)
    requires
        0 <= k <= s.len(),
    ensures
        decimal_value(s.take(k)) <= decimal_value(s),
    decreases s.len() - k,
{
    if k < s.len() {
        assert(s.take(k + 1).drop_last() == s.take(k));
        prefix_value(s, k + 1);
    } else {
        assert(s.take(k) == s);
    }
}

/// Whether a text is made of decimal digits only.
pub fn only_digits(v: &[char]) -> (r: bool)
    ensures
        r == all_digits(v@),
{
    for i in 0..v.len()
        invariant
            forall|j: int| 0 <= j < i ==> is_digit(#[trigger] v@[j]),
    {
        if !is_digit_char(v[i]) {
            return false;
        }
    }
    true
}

/// Reads a text of digits as a number of at most `max`.
pub fn parse_decimal(v: &[char], max: u64) -> (r: Option<u64>)
    ensures
        match r {
            Some(n) => read_decimal(v@, max as nat) == Some(n as nat),
            None => read_decimal(v@, max as nat) is None,
        },
{
    if v.len() == 0 {
        return None;
    }
    let mut n: u64 = 0;
    for i in 0..v.len()
        invariant
            n == decimal_value(v@.take(i as int)),
            n <= max,
            forall|j: int| 0 <= j < i ==> is_digit(#[trigger] v@[j]),
    {
        if !is_digit_char(v[i]) {
            return None;
        }
        let d: u64 = v[i] as u64 - 48;
        assert(v@.take(i + 1).drop_last() == v@.take(i as int));
        if d > max || n > (max - d) / 10 {
            proof {
                prefix_value(v@, i + 1);
            }
            return None;
        }
        n = n * 10 + d;
    }
    assert(v@.take(v@.len() as int) == v@);
    Some(n)
}

/// What a text reads as in a signed type of 32 bits: digits with at most one
/// sign before them.
pub open spec fn read_i32(s: Seq<char>) -> Option<int> {
    if s.len() > 0 && s[0] == '-' {
        match read_decimal(s.drop_first(), 0x8000_0000) {
            Some(n) => Some(-(n as int)),
            None => None,
        }
    } else {
        let unsigned = if s.len() > 0 && s[0] == '+' {
            s.drop_first()
        } else {
            s
        };
        match read_decimal(unsigned, 0x7fff_ffff) {
            Some(n) => Some(n as int),
            None => None,
        }
    }
}

/// Reads a text as a signed number of 32 bits.
pub fn parse_i32(v: &[char]) -> (r: Option<i32>)
    ensures
        match r {
            Some(n) => read_i32(v@) == Some(n as int),
            None => read_i32(v@) is None,
        },
{
    if v.len() > 0 && v[0] == '-' {
        let rest = vstd::slice::slice_subrange(v, 1, v.len());
        assert(rest@ == v@.drop_first());
        match parse_decimal(rest, 0x8000_0000) {
            Some(n) => Some((0 - n as i64) as i32),
            None => None,
        }
    } else if v.len() > 0 && v[0] == '+' {
        let rest = vstd::slice::slice_subrange(v, 1, v.len());
        assert(rest@ == v@.drop_first());
        match parse_decimal(rest, 0x7fff_ffff) {
            Some(n) => Some(n as i32),
            None => None,
        }
    } else {
        match parse_decimal(v, 0x7fff_ffff) {
            Some(n) => Some(n as i32),
            None => None,
        }
    }
}

// ── Laws ─────────────────────────────────────────────────────────────────────

/// Reading a number back from its decimal form gives the number.
pub proof fn decimal_reads_back(n: nat)
    ensures
        decimal(n).len() > 0,
        all_digits(decimal(n)),
        decimal_value(decimal(n)) == n,
    decreases n,
{
    if n < 10 {
        assert(decimal(n).drop_last() =~= Seq::<char>::empty());
        assert(decimal_value(Seq::<char>::empty()) == 0);
        assert(digit_value(digit(n)) == n);
    } else {
        decimal_reads_back(n / 10);
        assert(decimal(n).drop_last() =~= decimal(n / 10));
        assert(digit_value(digit(n % 10)) == n % 10);
    }
}

/// Zeros on the left do not change the value of a numeral.
pub proof fn padding_keeps_the_value(s: Seq<char>, width: nat)
    ensures
        decimal_value(zero_padded(s, width)) == decimal_value(s),
{
    if s.len() < width {
        leading_zeros((width - s.len()) as nat, s);
    }
}

/// A numeral with zeros before it.
proof fn leading_zeros(n: nat, s: Seq<char>)
    ensures
        decimal_value(Seq::new(n, |i: int| '0') + s) == decimal_value(s),
    decreases s.len(), n,
{
    let zeros = Seq::new(n, |i: int| '0');
    if s.len() > 0 {
        assert((zeros + s).drop_last() =~= zeros + s.drop_last());
        leading_zeros(n, s.drop_last());
    } else if n > 0 {
        let fewer = Seq::new((n - 1) as nat, |i: int| '0');
        assert((zeros + s).drop_last() =~= fewer + s);
        leading_zeros((n - 1) as nat, s);
    } else {
        assert(zeros + s =~= s);
    }
}

/// Different numbers are written differently, with zeros on the left or
/// without.
pub proof fn padded_numerals_differ(m: nat, n: nat, width: nat)
    requires
        m != n,
    ensures
        zero_padded(decimal(m), width) != zero_padded(decimal(n), width),
{
    decimal_reads_back(m);
    decimal_reads_back(n);
    padding_keeps_the_value(decimal(m), width);
    padding_keeps_the_value(decimal(n), width);
}

/// A numeral begins with a digit, with zeros on the left or without.
pub proof fn padded_starts_with_a_digit(n: nat, width: nat)
    ensures
        zero_padded(decimal(n), width).len() > 0,
        is_digit(zero_padded(decimal(n), width)[0]),
{
    decimal_reads_back(n);
    assert(is_digit(decimal(n)[0]));
}

/// The value of a numeral is that of its digits by their places: a digit counts by
/// how far it stands behind `0`, and each further digit makes the ones ahead of it
/// count ten times as much.
pub proof fn digits_count_by_their_places(a: Seq<char>, c: char, b: Seq<char>)
    ensures
        is_digit(c) ==> decimal_value(seq![c]) == c as int - '0' as int,
        decimal_value(a + b) == decimal_value(a) * vstd::arithmetic::power::pow(10, b.len())
            + decimal_value(b),
        decimal_value(Seq::<char>::empty()) == 0,
    decreases b.len(),
{
    assert(seq![c].drop_last() =~= Seq::<char>::empty());
    assert(decimal_value(Seq::<char>::empty()) == 0);
    vstd::arithmetic::power::lemma_pow0(10);
    if b.len() == 0 {
        assert(a + b =~= a);
        assert(decimal_value(a) * 1 == decimal_value(a));
    } else {
        let rest = b.drop_last();
        digits_count_by_their_places(a, c, rest);
        assert((a + b).drop_last() =~= a + rest);
        assert((a + b).last() == b.last());
        let p = vstd::arithmetic::power::pow(10, rest.len());
        reveal(vstd::arithmetic::power::pow);
        assert(vstd::arithmetic::power::pow(10, b.len()) == 10 * p);
        let v = decimal_value(a) as int;
        assert((v * p) * 10 == v * (10 * p)) by (nonlinear_arith);
    }
}

/// A number is written without zeros ahead of it, but for zero itself, and padding
/// fills it up with zeros to exactly the width.
pub proof fn numerals_have_no_needless_zeros(n: nat, width: nat)
    ensures
        n > 0 ==> decimal(n)[0] != '0',
        n == 0 ==> decimal(n) == seq!['0'],
        zero_padded(decimal(n), width).len() == (if decimal(n).len() < width {
            width
        } else {
            decimal(n).len()
        }),
        decimal(n).len() < width ==> zero_padded(decimal(n), width)[0] == '0',
    decreases n,
{
    if n >= 10 {
        numerals_have_no_needless_zeros(n / 10, width);
        decimal_reads_back(n / 10);
    }
}

/// A signed number is read as what it was written from; digits alone, or behind a
/// plus, are read as positive, and behind a minus as negative, within 32 bits.
pub proof fn signed_numbers_read_back(n: int, d: Seq<char>)
    requires
        d.len() > 0,
        all_digits(d),
    ensures
        -0x8000_0000 <= n <= 0x7fff_ffff ==> read_i32(signed_decimal(n)) == Some(n),
        read_i32(d) == read_i32(seq!['+'] + d),
        read_i32(d) == (if decimal_value(d) <= 0x7fff_ffff {
            Some(decimal_value(d) as int)
        } else {
            None
        }),
        read_i32(seq!['-'] + d) == (if decimal_value(d) <= 0x8000_0000 {
            Some(-decimal_value(d) as int)
        } else {
            None
        }),
{
    assert(is_digit(d[0]));
    assert((seq!['+'] + d).drop_first() =~= d);
    assert((seq!['-'] + d).drop_first() =~= d);
    let m = if n < 0 {
        (-n) as nat
    } else {
        n as nat
    };
    decimal_reads_back(m);
    let t = decimal(m);
    assert(is_digit(t[0]));
    assert((seq!['-'] + t).drop_first() =~= t);
}

/// What is no number is read as none: nothing, or a text with anything in it but
/// digits behind the first character.
pub proof fn other_texts_are_no_numbers(s: Seq<char>, i: int)
    requires
        s.len() == 0 || (0 < i < s.len() && !is_digit(s[i])) || (s.len() > 0 && !is_digit(s[0])
            && s[0] != '-' && s[0] != '+') || (s.len() == 1 && !is_digit(s[0])),
    ensures
        read_i32(s) is None,
{
    if 0 < i < s.len() && !is_digit(s[i]) {
        assert(s.drop_first()[i - 1] == s[i]);
        assert(!all_digits(s.drop_first()));
        assert(!all_digits(s));
    } else if s.len() > 0 && s[0] != '-' && s[0] != '+' {
        assert(!all_digits(s));
    }
}

} // verus!
