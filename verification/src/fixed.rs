//! Fixed-point numbers in micro-units.
//!
//! One world unit (or one stat point, or one cvar unit) is `FIXED_SCALE`
//! micro-units, stored in an `i64`.  Decimal literals are parsed with at
//! most six fractional digits of precision (further digits are truncated)
//! and a magnitude of at most `MAX_FIXED` micro-units; integer literals are
//! parsed with the grammar and range of `i32`.  Saturating addition keeps
//! every operation total and panic-free.

use vstd::prelude::*;

verus! {

/// Micro-units per whole unit.
pub const FIXED_SCALE: i64 = 1000000;

/// Largest magnitude, in micro-units, that a parsed decimal literal may have.
pub const MAX_FIXED: i64 = 999999999999999999;

/// Accumulator cap while scanning integer digits: any literal whose integer
/// part reaches this many units is already beyond `MAX_FIXED` micro-units.
const UNITS_CAP: i64 = 10000000000000;

/// Mathematical clamp of an unbounded integer into the `i64` range.
pub open spec fn clamp_i64(v: int) -> int {
    if v > i64::MAX {
        i64::MAX as int
    } else if v < i64::MIN {
        i64::MIN as int
    } else {
        v
    }
}

/// Saturating addition on `i64`.
pub fn add_sat(a: i64, b: i64) -> (r: i64)
    ensures
        r == clamp_i64(a + b),
{
    let wide: i128 = a as i128 + b as i128;
    if wide > i64::MAX as i128 {
        i64::MAX
    } else if wide < i64::MIN as i128 {
        i64::MIN
    } else {
        wide as i64
    }
}

/// The smaller of two fixed-point values.
pub fn min_fixed(a: i64, b: i64) -> (r: i64)
    ensures
        r == if a <= b { a as int } else { b as int },
{
    if a <= b {
        a
    } else {
        b
    }
}

// ---------------------------------------------------------------------------
// Decimal digits
// ---------------------------------------------------------------------------

pub open spec fn is_digit_char(c: char) -> bool {
    48 <= c as u32 <= 57
}

pub open spec fn digit_val(c: char) -> int {
    c as u32 - 48
}

pub open spec fn all_digits(s: Seq<char>) -> bool {
    forall|i: int| 0 <= i < s.len() ==> is_digit_char(#[trigger] s[i])
}

/// Value of a sequence of decimal digits, most significant first.
pub open spec fn digits_val(s: Seq<char>) -> int
    decreases s.len(),
{
    if s.len() == 0 {
        0
    } else {
        digits_val(s.drop_last()) * 10 + digit_val(s.last())
    }
}

pub open spec fn pow10(n: nat) -> int
    decreases n,
{
    if n == 0 {
        1
    } else {
        10 * pow10((n - 1) as nat)
    }
}

proof fn lemma_digits_val_bounds(s: Seq<char>)
    requires
        all_digits(s),
    ensures
        0 <= digits_val(s) < pow10(s.len()),
    decreases s.len(),
{
    if s.len() > 0 {
        assert(all_digits(s.drop_last())) by {
            assert(forall|i: int|
                0 <= i < s.len() - 1 ==> s.drop_last()[i] == #[trigger] s[i]);
        }
        lemma_digits_val_bounds(s.drop_last());
        assert(is_digit_char(s.last()));
        assert(0 <= digit_val(s.last()) <= 9);
    }
}

pub open spec fn digit_char(d: int) -> char {
    if d == 0 {
        '0'
    } else if d == 1 {
        '1'
    } else if d == 2 {
        '2'
    } else if d == 3 {
        '3'
    } else if d == 4 {
        '4'
    } else if d == 5 {
        '5'
    } else if d == 6 {
        '6'
    } else if d == 7 {
        '7'
    } else if d == 8 {
        '8'
    } else {
        '9'
    }
}

// ---------------------------------------------------------------------------
// Integer literals (the grammar and range of `i32`)
// ---------------------------------------------------------------------------

/// Splits an optional leading sign off a literal: (negative, remainder).
pub open spec fn sign_split(s: Seq<char>) -> (bool, Seq<char>) {
    if s.len() > 0 && s[0] == '-' {
        (true, s.skip(1))
    } else if s.len() > 0 && s[0] == '+' {
        (false, s.skip(1))
    } else {
        (false, s)
    }
}

/// The signed mathematical value of an integer literal `[+-]?[0-9]+`,
/// or `None` if the text does not have that shape.
pub open spec fn spec_parse_int(s: Seq<char>) -> Option<int> {
    let (neg, rest) = sign_split(s);
    if rest.len() > 0 && all_digits(rest) {
        if neg {
            Some(-digits_val(rest))
        } else {
            Some(digits_val(rest))
        }
    } else {
        None
    }
}

/// An integer literal within the range of `i32`, as `i32::from_str` accepts.
pub open spec fn spec_parse_i32(s: Seq<char>) -> Option<int> {
    match spec_parse_int(s) {
        Some(v) => if i32::MIN <= v <= i32::MAX {
            Some(v)
        } else {
            None
        },
        None => None,
    }
}

// ---------------------------------------------------------------------------
// Decimal (fixed-point) literals
// ---------------------------------------------------------------------------

/// Index of the first `'.'` in `s`, or `s.len()` if there is none.
pub open spec fn find_dot(s: Seq<char>) -> int
    decreases s.len(),
{
    if s.len() == 0 {
        0
    } else if s[0] == '.' {
        0
    } else {
        1 + find_dot(s.skip(1))
    }
}

/// `find_dot` is pinned down by a witness position: if nothing before `q`
/// is a point and `q` is one (or the end), then `find_dot` is `q`.
proof fn lemma_find_dot_at(s: Seq<char>, q: int)
    requires
        0 <= q <= s.len(),
        q < s.len() ==> s[q] == '.',
        forall|k: int| 0 <= k < q ==> s[k] != '.',
    ensures
        find_dot(s) == q,
    decreases s.len(),
{
    if s.len() == 0 {
    } else if s[0] == '.' {
        assert(q == 0);
    } else {
        assert(q >= 1);
        assert(s.skip(1).len() == s.len() - 1);
        assert(q - 1 < s.skip(1).len() ==> s.skip(1)[q - 1] == '.');
        assert(forall|k: int| 0 <= k < q - 1 ==> #[trigger] s.skip(1)[k] != '.');
        lemma_find_dot_at(s.skip(1), q - 1);
    }
}

/// Micro-units contributed by the fractional digit string `f`
/// (truncated to six digits).
pub open spec fn frac_micros(f: Seq<char>) -> int {
    if f.len() >= 6 {
        digits_val(f.take(6))
    } else if f.len() == 5 {
        digits_val(f) * 10
    } else if f.len() == 4 {
        digits_val(f) * 100
    } else if f.len() == 3 {
        digits_val(f) * 1000
    } else if f.len() == 2 {
        digits_val(f) * 10000
    } else if f.len() == 1 {
        digits_val(f) * 100000
    } else {
        0
    }
}

/// The integer-part and fraction-part digit strings of an unsigned decimal
/// body, split at the first `'.'` (the fraction is empty when there is none).
pub open spec fn decimal_parts(rest: Seq<char>) -> (Seq<char>, Seq<char>) {
    let d = find_dot(rest);
    if d < rest.len() {
        (rest.take(d), rest.skip(d + 1))
    } else {
        (rest, Seq::empty())
    }
}

/// Whether an unsigned decimal body is well-formed: digits with at most one
/// point, and at least one digit somewhere.
pub open spec fn decimal_body_ok(rest: Seq<char>) -> bool {
    let (ip, fp) = decimal_parts(rest);
    rest.len() > 0 && all_digits(ip) && all_digits(fp) && ip.len() + fp.len() >= 1
}

/// Magnitude of a well-formed unsigned decimal body, in micro-units.
pub open spec fn decimal_magnitude(rest: Seq<char>) -> int {
    let (ip, fp) = decimal_parts(rest);
    digits_val(ip) * (FIXED_SCALE as int) + frac_micros(fp)
}

/// The signed micro-unit value of a decimal literal
/// `[+-]? ( [0-9]+ | [0-9]+ '.' [0-9]* | '.' [0-9]+ )`, truncated to six
/// fractional digits, or `None` if the text does not have that shape or its
/// magnitude exceeds `MAX_FIXED` micro-units.
pub open spec fn spec_parse_fixed(s: Seq<char>) -> Option<int> {
    let (neg, rest) = sign_split(s);
    if decimal_body_ok(rest) && decimal_magnitude(rest) <= MAX_FIXED {
        if neg {
            Some(-decimal_magnitude(rest))
        } else {
            Some(decimal_magnitude(rest))
        }
    } else {
        None
    }
}

/// A parsed decimal literal lies within `i64` (its magnitude is at most
/// `MAX_FIXED` micro-units).
pub proof fn lemma_parse_fixed_in_range(s: Seq<char>)
    ensures
        spec_parse_fixed(s) matches Some(v) ==> -(MAX_FIXED as int) <= v <= MAX_FIXED as int,
{
    let (neg, rest) = sign_split(s);
    if decimal_body_ok(rest) {
        let (ip, fp) = decimal_parts(rest);
        lemma_digits_val_bounds(ip);
        assert(frac_micros(fp) >= 0) by {
            if fp.len() >= 6 {
                lemma_digits_val_bounds(fp.take(6));
            } else if fp.len() > 0 {
                lemma_digits_val_bounds(fp);
            }
        }
    }
}

// ---------------------------------------------------------------------------
// Formatting
// ---------------------------------------------------------------------------

/// Decimal rendering of a natural number, most significant digit first.
pub open spec fn spec_fmt_nat(n: int) -> Seq<char>
    decreases n,
{
    if n < 10 {
        seq![digit_char(n)]
    } else {
        spec_fmt_nat(n / 10).push(digit_char(n % 10))
    }
}

/// Decimal rendering of a signed integer.
pub open spec fn spec_fmt_int(v: int) -> Seq<char> {
    if v < 0 {
        seq!['-'] + spec_fmt_nat(-v)
    } else {
        spec_fmt_nat(v)
    }
}

/// The fractional digits of `f` micro-units (`1 <= f <= 999999`), with
/// trailing zeros removed.
pub open spec fn spec_frac_str(f: int) -> Seq<char> {
    if f % 100000 == 0 {
        seq![digit_char(f / 100000)]
    } else if f % 10000 == 0 {
        seq![digit_char(f / 100000), digit_char(f / 10000 % 10)]
    } else if f % 1000 == 0 {
        seq![digit_char(f / 100000), digit_char(f / 10000 % 10), digit_char(f / 1000 % 10)]
    } else if f % 100 == 0 {
        seq![
            digit_char(f / 100000),
            digit_char(f / 10000 % 10),
            digit_char(f / 1000 % 10),
            digit_char(f / 100 % 10),
        ]
    } else if f % 10 == 0 {
        seq![
            digit_char(f / 100000),
            digit_char(f / 10000 % 10),
            digit_char(f / 1000 % 10),
            digit_char(f / 100 % 10),
            digit_char(f / 10 % 10),
        ]
    } else {
        seq![
            digit_char(f / 100000),
            digit_char(f / 10000 % 10),
            digit_char(f / 1000 % 10),
            digit_char(f / 100 % 10),
            digit_char(f / 10 % 10),
            digit_char(f % 10),
        ]
    }
}

/// Decimal rendering of a fixed-point value in micro-units: the whole units,
/// then, when the fractional part is not zero, a point and the fractional
/// digits with trailing zeros removed.
pub open spec fn spec_fmt_fixed(v: int) -> Seq<char> {
    let mag = if v < 0 {
        -v
    } else {
        v
    };
    let units = mag / (FIXED_SCALE as int);
    let frac = mag % (FIXED_SCALE as int);
    let whole = if v < 0 {
        seq!['-'] + spec_fmt_nat(units)
    } else {
        spec_fmt_nat(units)
    };
    if frac == 0 {
        whole
    } else {
        whole + seq!['.'] + spec_frac_str(frac)
    }
}

/// A rendered natural number is all digits, never empty, and reading its
/// digits back yields the number.
pub proof fn lemma_fmt_nat_digits(n: int)
    requires
        n >= 0,
    ensures
        spec_fmt_nat(n).len() >= 1,
        all_digits(spec_fmt_nat(n)),
        digits_val(spec_fmt_nat(n)) == n,
    decreases n,
{
    if n < 10 {
        assert(is_digit_char(digit_char(n)));
        assert(digit_val(digit_char(n)) == n);
        assert(spec_fmt_nat(n).drop_last() =~= Seq::<char>::empty());
        assert(digits_val(spec_fmt_nat(n)) == digits_val(Seq::<char>::empty()) * 10 + digit_val(
            digit_char(n),
        ));
    } else {
        lemma_fmt_nat_digits(n / 10);
        let whole = spec_fmt_nat(n);
        let head = spec_fmt_nat(n / 10);
        assert(whole.drop_last() =~= head);
        assert(whole.last() == digit_char(n % 10));
        assert(is_digit_char(digit_char(n % 10)));
        assert(digit_val(digit_char(n % 10)) == n % 10);
        assert forall|i: int| 0 <= i < whole.len() implies is_digit_char(#[trigger] whole[i]) by {
            if i < head.len() {
                assert(whole[i] == head[i]);
            }
        }
    }
}

/// Rendering an integer and parsing the text back yields the integer: the
/// two textual forms of a number agree.
pub proof fn lemma_fmt_int_parses_back(v: int)
    requires
        i32::MIN <= v <= i32::MAX,
    ensures
        spec_parse_i32(spec_fmt_int(v)) == Some(v),
{
    if v < 0 {
        lemma_fmt_nat_digits(-v);
        let s = spec_fmt_int(v);
        let body = spec_fmt_nat(-v);
        assert(s == seq!['-'] + body);
        assert(s[0] == '-');
        assert(s.skip(1) =~= body);
    } else {
        lemma_fmt_nat_digits(v);
        let s = spec_fmt_int(v);
        assert(is_digit_char(s[0]));
        assert(s[0] != '-' && s[0] != '+');
        assert(s.skip(0) =~= s);
    }
}

/// The fractional digit string of `f` micro-units is non-empty digits,
/// and scaling it back up restores `f`.
proof fn lemma_frac_str_value(f: int)
    requires
        0 < f < 1000000,
    ensures
        1 <= spec_frac_str(f).len() <= 6,
        all_digits(spec_frac_str(f)),
        frac_micros(spec_frac_str(f)) == f,
{
    let d0 = f / 100000;
    let d1 = f / 10000 % 10;
    let d2 = f / 1000 % 10;
    let d3 = f / 100 % 10;
    let d4 = f / 10 % 10;
    let d5 = f % 10;
    assert(0 <= d0 <= 9 && 0 <= d1 <= 9 && 0 <= d2 <= 9 && 0 <= d3 <= 9 && 0 <= d4 <= 9 && 0
        <= d5 <= 9);
    // Quotients by successive powers of ten, and one digit peeled at each
    // level.
    let q5 = f / 10;
    let q4 = f / 100;
    let q3 = f / 1000;
    let q2 = f / 10000;
    let q1 = f / 100000;
    assert(f / 10 / 10 == f / 100) by (nonlinear_arith);
    assert(f / 100 / 10 == f / 1000) by (nonlinear_arith);
    assert(f / 1000 / 10 == f / 10000) by (nonlinear_arith);
    assert(f / 10000 / 10 == f / 100000) by (nonlinear_arith);
    assert(f / 10 % 10 == d4 && f / 100 % 10 == d3 && f / 1000 % 10 == d2 && f / 10000 % 10
        == d1);
    assert(f == q5 * 10 + d5);
    assert(q5 == q4 * 10 + d4);
    assert(q4 == q3 * 10 + d3);
    assert(q3 == q2 * 10 + d2);
    assert(q2 == q1 * 10 + d1);
    assert(q1 == d0);
    assert(digits_val(Seq::<char>::empty()) == 0);
    assert(digit_val(digit_char(d0)) == d0 && is_digit_char(digit_char(d0)));
    assert(digit_val(digit_char(d1)) == d1 && is_digit_char(digit_char(d1)));
    assert(digit_val(digit_char(d2)) == d2 && is_digit_char(digit_char(d2)));
    assert(digit_val(digit_char(d3)) == d3 && is_digit_char(digit_char(d3)));
    assert(digit_val(digit_char(d4)) == d4 && is_digit_char(digit_char(d4)));
    assert(digit_val(digit_char(d5)) == d5 && is_digit_char(digit_char(d5)));
    let s1 = seq![digit_char(d0)];
    let s2 = seq![digit_char(d0), digit_char(d1)];
    let s3 = seq![digit_char(d0), digit_char(d1), digit_char(d2)];
    let s4 = seq![digit_char(d0), digit_char(d1), digit_char(d2), digit_char(d3)];
    let s5 = seq![digit_char(d0), digit_char(d1), digit_char(d2), digit_char(d3), digit_char(d4)];
    let s6 = seq![
        digit_char(d0),
        digit_char(d1),
        digit_char(d2),
        digit_char(d3),
        digit_char(d4),
        digit_char(d5),
    ];
    assert(s1.drop_last() =~= Seq::<char>::empty());
    assert(s2.drop_last() =~= s1);
    assert(s3.drop_last() =~= s2);
    assert(s4.drop_last() =~= s3);
    assert(s5.drop_last() =~= s4);
    assert(s6.drop_last() =~= s5);
    // Reading the digit prefixes back gives the quotients.
    assert(digits_val(s1) == q1);
    assert(digits_val(s2) == q2);
    assert(digits_val(s3) == q3);
    assert(digits_val(s4) == q4);
    assert(digits_val(s5) == q5);
    assert(digits_val(s6) == f);
    if f % 100000 == 0 {
        assert(spec_frac_str(f) =~= s1);
        assert(f == q1 * 100000 + f % 100000);
    } else if f % 10000 == 0 {
        assert(spec_frac_str(f) =~= s2);
        assert(f == q2 * 10000 + f % 10000);
    } else if f % 1000 == 0 {
        assert(spec_frac_str(f) =~= s3);
        assert(f == q3 * 1000 + f % 1000);
    } else if f % 100 == 0 {
        assert(spec_frac_str(f) =~= s4);
        assert(f == q4 * 100 + f % 100);
    } else if f % 10 == 0 {
        assert(spec_frac_str(f) =~= s5);
        assert(f == q5 * 10 + f % 10);
    } else {
        assert(spec_frac_str(f) =~= s6);
        assert(s6.take(6) =~= s6);
    }
}

/// Rendering a fixed-point value and parsing the text back yields the
/// value: what the library prints, it reads back unchanged.
pub proof fn lemma_fmt_fixed_parses_back(v: int)
    requires
        -(MAX_FIXED as int) <= v <= MAX_FIXED as int,
    ensures
        spec_parse_fixed(spec_fmt_fixed(v)) == Some(v),
{
    let mag = if v < 0 {
        -v
    } else {
        v
    };
    let units = mag / (FIXED_SCALE as int);
    let frac = mag % (FIXED_SCALE as int);
    lemma_fmt_nat_digits(units);
    let head = spec_fmt_nat(units);
    let s = spec_fmt_fixed(v);
    let body = if frac == 0 {
        head
    } else {
        head + seq!['.'] + spec_frac_str(frac)
    };
    if v < 0 {
        assert(s == seq!['-'] + body);
        assert(s[0] == '-');
        assert(s.skip(1) =~= body);
    } else {
        assert(s == body);
        assert(is_digit_char(body[0]));
        assert(body[0] != '-' && body[0] != '+');
        assert(s.skip(0) =~= s);
    }
    assert(sign_split(s) == (v < 0, body));
    if frac == 0 {
        lemma_find_dot_at(body, body.len() as int);
        assert(decimal_parts(body) == (body, Seq::<char>::empty()));
        assert(frac_micros(Seq::<char>::empty()) == 0);
        assert(units * (FIXED_SCALE as int) + 0 == mag);
    } else {
        lemma_frac_str_value(frac);
        let fs = spec_frac_str(frac);
        assert forall|k: int| 0 <= k < head.len() implies body[k] != '.' by {
            assert(body[k] == head[k]);
            assert(is_digit_char(head[k]));
        }
        assert(body[head.len() as int] == '.');
        lemma_find_dot_at(body, head.len() as int);
        assert(decimal_parts(body).0 =~= head);
        assert(decimal_parts(body).1 =~= fs);
        assert(units * (FIXED_SCALE as int) + frac == mag);
    }
    assert(decimal_body_ok(body));
    assert(decimal_magnitude(body) == mag);
}

/// A one-character string slice for the decimal digit `d`.
pub fn digit_str(d: u64) -> (r: &'static str)
    requires
        0 <= d < 10,
    ensures
        r@ =~= seq![digit_char(d as int)],
{
    proof {
        reveal_strlit("0");
        reveal_strlit("1");
        reveal_strlit("2");
        reveal_strlit("3");
        reveal_strlit("4");
        reveal_strlit("5");
        reveal_strlit("6");
        reveal_strlit("7");
        reveal_strlit("8");
        reveal_strlit("9");
    }
    if d == 0 {
        "0"
    } else if d == 1 {
        "1"
    } else if d == 2 {
        "2"
    } else if d == 3 {
        "3"
    } else if d == 4 {
        "4"
    } else if d == 5 {
        "5"
    } else if d == 6 {
        "6"
    } else if d == 7 {
        "7"
    } else if d == 8 {
        "8"
    } else {
        "9"
    }
}

/// Renders a natural number in decimal.
pub fn fmt_nat(n: u64) -> (s: String)
    ensures
        s@ == spec_fmt_nat(n as int),
    decreases n,
{
    if n < 10 {
        String::from_str(digit_str(n))
    } else {
        let mut s = fmt_nat(n / 10);
        s.append(digit_str(n % 10));
        proof {
            assert(s@ =~= spec_fmt_nat((n / 10) as int).push(digit_char((n % 10) as int)));
        }
        s
    }
}

/// Renders a signed integer in decimal.
pub fn fmt_int(v: i64) -> (s: String)
    ensures
        s@ == spec_fmt_int(v as int),
{
    proof {
        reveal_strlit("-");
    }
    if v < 0 {
        let mag: u64 = (-(v as i128)) as u64;
        let mut s = String::from_str("-");
        let rest = fmt_nat(mag);
        s.append(rest.as_str());
        proof {
            assert(s@ =~= seq!['-'] + spec_fmt_nat(-(v as int)));
        }
        s
    } else {
        fmt_nat(v as u64)
    }
}

/// Renders a fixed-point micro-unit value in decimal.
pub fn fmt_fixed(v: i64) -> (s: String)
    ensures
        s@ == spec_fmt_fixed(v as int),
{
    proof {
        reveal_strlit("-");
        reveal_strlit(".");
    }
    let mag: u64 = if v < 0 {
        (-(v as i128)) as u64
    } else {
        v as u64
    };
    let units: u64 = mag / 1000000;
    let frac: u64 = mag % 1000000;
    let mut s = if v < 0 {
        let mut t = String::from_str("-");
        let u = fmt_nat(units);
        t.append(u.as_str());
        proof {
            assert(t@ =~= seq!['-'] + spec_fmt_nat(units as int));
        }
        t
    } else {
        fmt_nat(units)
    };
    if frac == 0 {
        s
    } else {
        s.append(".");
        let d0: u64 = frac / 100000;
        let d1: u64 = frac / 10000 % 10;
        let d2: u64 = frac / 1000 % 10;
        let d3: u64 = frac / 100 % 10;
        let d4: u64 = frac / 10 % 10;
        let d5: u64 = frac % 10;
        if frac % 100000 == 0 {
            s.append(digit_str(d0));
        } else if frac % 10000 == 0 {
            s.append(digit_str(d0));
            s.append(digit_str(d1));
        } else if frac % 1000 == 0 {
            s.append(digit_str(d0));
            s.append(digit_str(d1));
            s.append(digit_str(d2));
        } else if frac % 100 == 0 {
            s.append(digit_str(d0));
            s.append(digit_str(d1));
            s.append(digit_str(d2));
            s.append(digit_str(d3));
        } else if frac % 10 == 0 {
            s.append(digit_str(d0));
            s.append(digit_str(d1));
            s.append(digit_str(d2));
            s.append(digit_str(d3));
            s.append(digit_str(d4));
        } else {
            s.append(digit_str(d0));
            s.append(digit_str(d1));
            s.append(digit_str(d2));
            s.append(digit_str(d3));
            s.append(digit_str(d4));
            s.append(digit_str(d5));
        }
        proof {
            assert(s@ =~= spec_fmt_fixed(v as int));
        }
        s
    }
}

// ---------------------------------------------------------------------------
// Parsing
// ---------------------------------------------------------------------------

/// Index of the first `'.'` at or after `from`, or the length if none.
fn scan_dot(s: &str, from: usize, len: usize) -> (p: usize)
    requires
        len == s@.len(),
        from <= len,
    ensures
        from <= p <= len,
        p < len ==> s@[p as int] == '.',
        forall|k: int| from <= k < p ==> s@[k] != '.',
{
    let mut p: usize = from;
    while p < len
        invariant
            from <= p <= len,
            len == s@.len(),
            forall|k: int| from <= k < p ==> s@[k] != '.',
        decreases len - p,
    {
        let c = s.get_char(p);
        if c == '.' {
            return p;
        }
        p += 1;
    }
    p
}

/// Validates that `s[from..to]` is all digits and accumulates its value,
/// capped at `cap` (so overflow of any target range is still detected while
/// the accumulator itself stays small).  Returns `None` on a non-digit.
fn scan_digits(s: &str, from: usize, to: usize, cap: i64) -> (r: Option<i64>)
    requires
        to <= s@.len(),
        from <= to,
        0 < cap <= 100000000000000000,
    ensures
        match r {
            Some(acc) => {
                &&& all_digits(s@.subrange(from as int, to as int))
                &&& 0 <= acc <= cap
                &&& acc == if digits_val(s@.subrange(from as int, to as int)) <= cap {
                    digits_val(s@.subrange(from as int, to as int))
                } else {
                    cap as int
                }
            },
            None => !all_digits(s@.subrange(from as int, to as int)),
        },
{
    let mut acc: i64 = 0;
    let mut j: usize = from;
    while j < to
        invariant
            from <= j <= to,
            to <= s@.len(),
            0 < cap <= 100000000000000000,
            all_digits(s@.subrange(from as int, j as int)),
            0 <= acc <= cap,
            acc == if digits_val(s@.subrange(from as int, j as int)) <= cap {
                digits_val(s@.subrange(from as int, j as int))
            } else {
                cap as int
            },
        decreases to - j,
    {
        let c = s.get_char(j);
        if !(c >= '0' && c <= '9') {
            proof {
                assert(s@.subrange(from as int, to as int)[j - from] == c);
            }
            return None;
        }
        let d: i64 = (c as u32 as i64) - 48;
        let t = acc * 10 + d;
        let ghost prev = s@.subrange(from as int, j as int);
        let ghost cur = s@.subrange(from as int, j + 1 as int);
        proof {
            assert(cur.drop_last() =~= prev);
            assert(cur.last() == s@[j as int]);
            lemma_digits_val_bounds(prev);
            if digits_val(prev) > cap {
                // Once past the cap, ten times more is still past the cap.
                assert(digits_val(prev) * 10 >= cap * 10);
            }
        }
        acc = if t > cap {
            cap
        } else {
            t
        };
        j += 1;
    }
    Some(acc)
}

/// Strips an optional sign, returning (negative, index of the remainder).
fn scan_sign(s: &str, len: usize) -> (r: (bool, usize))
    requires
        len == s@.len(),
    ensures
        sign_split(s@) == (r.0, s@.skip(r.1 as int)),
        r.1 <= 1,
        r.1 == 1 ==> len >= 1,
{
    if len > 0 {
        let c0 = s.get_char(0);
        if c0 == '-' {
            proof {
                assert(sign_split(s@) == (true, s@.skip(1)));
            }
            (true, 1)
        } else if c0 == '+' {
            proof {
                assert(sign_split(s@) == (false, s@.skip(1)));
            }
            (false, 1)
        } else {
            proof {
                assert(s@.skip(0) =~= s@);
            }
            (false, 0)
        }
    } else {
        proof {
            assert(s@.skip(0) =~= s@);
        }
        (false, 0)
    }
}

/// Parses an integer literal with the grammar and range of `i32`.
pub fn parse_i32(s: &str) -> (r: Option<i32>)
    ensures
        match r {
            Some(v) => spec_parse_i32(s@) == Some(v as int),
            None => spec_parse_i32(s@) is None,
        },
{
    let len = s.unicode_len();
    let (neg, i) = scan_sign(s, len);
    let ghost grest = s@.skip(i as int);
    if i == len {
        proof {
            assert(grest.len() == 0);
        }
        return None;
    }
    let cap: i64 = 10000000000;
    let acc = match scan_digits(s, i, len, cap) {
        Some(acc) => acc,
        None => {
            proof {
                assert(s@.subrange(i as int, len as int) =~= grest);
            }
            return None;
        },
    };
    proof {
        assert(s@.subrange(i as int, len as int) =~= grest);
    }
    if neg {
        if acc <= 2147483648 {
            Some((-acc) as i32)
        } else {
            None
        }
    } else {
        if acc <= 2147483647 {
            Some(acc as i32)
        } else {
            None
        }
    }
}

/// Parses a decimal literal into fixed-point micro-units.
#[verifier::rlimit(50)]
pub fn parse_fixed(s: &str) -> (r: Option<i64>)
    ensures
        match r {
            Some(v) => spec_parse_fixed(s@) == Some(v as int),
            None => spec_parse_fixed(s@) is None,
        },
{
    let len = s.unicode_len();
    let (neg, i) = scan_sign(s, len);
    let ghost grest = s@.skip(i as int);
    if i == len {
        proof {
            assert(grest.len() == 0);
        }
        return None;
    }
    let p = scan_dot(s, i, len);
    proof {
        lemma_find_dot_at(grest, p - i);
    }
    let ghost ip = decimal_parts(grest).0;
    let ghost fp = decimal_parts(grest).1;
    proof {
        assert(ip =~= s@.subrange(i as int, p as int));
        if p < len {
            assert(fp =~= s@.subrange(p + 1 as int, len as int));
        }
    }
    // Integer part.
    let units = match scan_digits(s, i, p, UNITS_CAP) {
        Some(units) => units,
        None => {
            return None;
        },
    };
    // Fraction part: validate all digits, then take the value of the first
    // six, scaled up to six digits when there are fewer.
    let mut scaled: i64 = 0;
    let mut flen: usize = 0;
    if p < len {
        flen = len - p - 1;
        let fstop = if flen >= 6 {
            p + 7
        } else {
            len
        };
        match scan_digits(s, p + 1, len, UNITS_CAP) {
            Some(_) => {},
            None => {
                return None;
            },
        }
        let frac = match scan_digits(s, p + 1, fstop, 1000000) {
            Some(frac) => frac,
            None => {
                return None;
            },
        };
        proof {
            lemma_digits_val_bounds(s@.subrange(p + 1 as int, fstop as int));
            assert(pow10(0) == 1 && pow10(1) == 10 && pow10(2) == 100 && pow10(3) == 1000
                && pow10(4) == 10000 && pow10(5) == 100000 && pow10(6) == 1000000) by {
                reveal_with_fuel(pow10, 7);
            }
            if flen >= 6 {
                assert(fp.take(6) =~= s@.subrange(p + 1 as int, (p + 7) as int));
            } else {
                assert(fp =~= s@.subrange(p + 1 as int, fstop as int));
            }
        }
        scaled = if flen >= 6 {
            frac
        } else if flen == 5 {
            frac * 10
        } else if flen == 4 {
            frac * 100
        } else if flen == 3 {
            frac * 1000
        } else if flen == 2 {
            frac * 10000
        } else if flen == 1 {
            frac * 100000
        } else {
            0
        };
    }
    proof {
        assert(scaled == frac_micros(fp));
        assert(0 <= frac_micros(fp) < 1000000);
    }
    if i == p && (p >= len || flen == 0) {
        // No digits anywhere: "", ".", "+.", "-.".
        proof {
            assert(ip.len() == 0 && fp.len() == 0);
        }
        return None;
    }
    let mag: i128 = (units as i128) * 1000000 + (scaled as i128);
    proof {
        lemma_digits_val_bounds(ip);
        if units == UNITS_CAP {
            // The true integer part is at least the cap, so both the true
            // magnitude and the capped one exceed MAX_FIXED.
            assert(digits_val(ip) >= UNITS_CAP);
            assert(digits_val(ip) * 1000000 >= UNITS_CAP * 1000000);
        }
    }
    if mag > MAX_FIXED as i128 {
        return None;
    }
    let m = mag as i64;
    if neg {
        Some(-m)
    } else {
        Some(m)
    }
}

} // verus!
