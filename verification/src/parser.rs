//! The parser: comma-separated rows of exactly three numeric fields in
//! the order `step, value_a, value_b`, one row per newline-delimited
//! line, no header row.
//!
//! A field is a plain signed decimal (`-3`, `1.`, `.5`, `2.25`) read
//! exactly into a fixed-point mantissa (see `num`): at most eight
//! fraction digits and a value magnitude of at most `VALUE_LIMIT`
//! mantissa units.  Lines are processed in file order; a carriage return
//! before the newline is tolerated and blank lines are skipped.  Any
//! malformed row fails the whole parse with the index of the offending
//! line and a reason — no partial dataset is ever produced.

use crate::num::{SCALE, VALUE_LIMIT};
use crate::record::LossRecord;
use vstd::prelude::*;

verus! {

/// Why a parse failed: a row with other than three fields, a field that
/// is not a plain decimal number, a field with more fraction digits than
/// the fixed scale holds, or a field whose magnitude exceeds the
/// representable range.
#[derive(Clone, Copy, Debug, PartialEq, Eq, Structural)]
pub enum ParseErrorKind {
    WrongColumnCount,
    InvalidNumber,
    UnsupportedPrecision,
    ValueOutOfRange,
}

/// A parse failure: the index of the offending line (counting every
/// line of the input from zero, blank ones included) and the reason.
#[derive(Clone, Copy, Debug, PartialEq, Eq, Structural)]
pub struct ParseError {
    pub row: usize,
    pub kind: ParseErrorKind,
}


/// Byte constants of the grammar.
pub const COMMA: u8 = 44;

pub const NEWLINE: u8 = 10;

pub const CARRIAGE_RETURN: u8 = 13;

pub const DOT: u8 = 46;

pub const MINUS: u8 = 45;

pub const PLUS: u8 = 43;

pub const DIGIT_ZERO: u8 = 48;

pub const DIGIT_NINE: u8 = 57;

/// How many fraction digits the fixed scale carries (`SCALE == 10^8`).
pub const FRAC_DIGITS: usize = 8;

pub open spec fn is_digit(b: u8) -> bool {
    DIGIT_ZERO <= b <= DIGIT_NINE
}

pub open spec fn all_digits(s: Seq<u8>) -> bool {
    forall|i: int| 0 <= i < s.len() ==> is_digit(#[trigger] s[i])
}

/// The value of a digit string read in base ten (zero when empty).
pub open spec fn digits_val(s: Seq<u8>) -> int
    decreases s.len(),
{
    if s.len() == 0 {
        0
    } else {
        digits_val(s.drop_last()) * 10 + (s.last() - DIGIT_ZERO)
    }
}

/// `10^n`.
pub open spec fn pow10(n: nat) -> int
    decreases n,
{
    if n == 0 {
        1
    } else {
        10 * pow10((n - 1) as nat)
    }
}

/// Splits `s` at every occurrence of `sep`: n separators yield n + 1
/// segments, in order, none containing `sep`.
pub open spec fn split_by(s: Seq<u8>, sep: u8) -> Seq<Seq<u8>>
    decreases s.len(),
{
    if s.len() == 0 {
        seq![Seq::<u8>::empty()]
    } else {
        let rest = split_by(s.subrange(1, s.len() as int), sep);
        if s[0] == sep {
            seq![Seq::<u8>::empty()] + rest
        } else {
            seq![seq![s[0]] + rest[0]] + rest.subrange(1, rest.len() as int)
        }
    }
}

pub proof fn lemma_split_by_len_pos(s: Seq<u8>, sep: u8)
    ensures
        split_by(s, sep).len() >= 1,
    decreases s.len(),
{
    if s.len() > 0 {
        lemma_split_by_len_pos(s.subrange(1, s.len() as int), sep);
    }
}

/// Splitting a separator-free sequence yields that one segment.
pub proof fn lemma_split_by_none(s: Seq<u8>, sep: u8)
    requires
        forall|j: int| 0 <= j < s.len() ==> s[j] != sep,
    ensures
        split_by(s, sep) =~~= seq![s],
    decreases s.len(),
{
    if s.len() > 0 {
        lemma_split_by_none(s.subrange(1, s.len() as int), sep);
        assert(seq![s[0]] + s.subrange(1, s.len() as int) =~= s);
    }
}

/// Splitting at the first separator: the head segment is everything
/// before it, the tail segments split the remainder.
pub proof fn lemma_split_by_first_sep(s: Seq<u8>, sep: u8, i: int)
    requires
        0 <= i < s.len(),
        s[i] == sep,
        forall|j: int| 0 <= j < i ==> s[j] != sep,
    ensures
        split_by(s, sep) =~~= seq![s.subrange(0, i)] + split_by(
            s.subrange(i + 1, s.len() as int),
            sep,
        ),
    decreases i,
{
    let tail = s.subrange(1, s.len() as int);
    if i == 0 {
        assert(s.subrange(0, 0) =~= Seq::<u8>::empty());
        assert(s.subrange(1, s.len() as int) =~= tail);
    } else {
        lemma_split_by_first_sep(tail, sep, i - 1);
        lemma_split_by_len_pos(s.subrange(i + 1, s.len() as int), sep);
        assert(tail.subrange(0, i - 1) =~= s.subrange(1, i));
        assert(tail.subrange(i, tail.len() as int) =~= s.subrange(i + 1, s.len() as int));
        assert(seq![s[0]] + s.subrange(1, i) =~= s.subrange(0, i));
    }
}

/// A sequence containing a separator splits into at least two segments.
pub proof fn lemma_split_by_contains(s: Seq<u8>, sep: u8, i: int)
    requires
        0 <= i < s.len(),
        s[i] == sep,
    ensures
        split_by(s, sep).len() >= 2,
    decreases i,
{
    let tail = s.subrange(1, s.len() as int);
    if i == 0 {
        lemma_split_by_len_pos(tail, sep);
    } else {
        lemma_split_by_contains(tail, sep, i - 1);
    }
}

pub proof fn lemma_split_by_len_le(s: Seq<u8>, sep: u8)
    ensures
        split_by(s, sep).len() <= s.len() + 1,
    decreases s.len(),
{
    if s.len() > 0 {
        lemma_split_by_len_le(s.subrange(1, s.len() as int), sep);
    }
}

pub proof fn lemma_digits_val_bounds(s: Seq<u8>)
    requires
        all_digits(s),
    ensures
        0 <= digits_val(s) < pow10(s.len()),
    decreases s.len(),
{
    if s.len() > 0 {
        lemma_digits_val_bounds(s.drop_last());
        assert(is_digit(s.last()));
        assert(digits_val(s) <= (pow10((s.len() - 1) as nat) - 1) * 10 + 9) by {
            vstd::arithmetic::mul::lemma_mul_inequality(
                digits_val(s.drop_last()),
                pow10((s.len() - 1) as nat) - 1,
                10,
            );
        }
    }
}

/// Reading more digits never shrinks the value.
pub proof fn lemma_digits_val_prefix_le(s: Seq<u8>, k: int)
    requires
        all_digits(s),
        0 <= k <= s.len(),
    ensures
        digits_val(s.take(k)) <= digits_val(s),
    decreases s.len() - k,
{
    if k < s.len() {
        lemma_digits_val_prefix_le(s, k + 1);
        assert(s.take(k + 1).drop_last() =~= s.take(k));
        assert(all_digits(s.take(k + 1)));
        lemma_digits_val_bounds(s.take(k));
    } else {
        assert(s.take(k) =~= s);
    }
}

pub proof fn lemma_pow10_pos(n: nat)
    ensures
        pow10(n) >= 1,
    decreases n,
{
    if n > 0 {
        lemma_pow10_pos((n - 1) as nat);
    }
}

pub proof fn lemma_pow10_mono(a: nat, b: nat)
    requires
        a <= b,
    ensures
        pow10(a) <= pow10(b),
    decreases b,
{
    if a < b {
        lemma_pow10_mono(a, (b - 1) as nat);
        lemma_pow10_pos((b - 1) as nat);
    }
}

/// The sign carried by a field: `-1` exactly when it starts with `-`.
pub open spec fn sign_of(s: Seq<u8>) -> int {
    if s.len() > 0 && s[0] == MINUS {
        -1
    } else {
        1
    }
}

/// The field with its sign byte, if any, removed.
pub open spec fn body_of(s: Seq<u8>) -> Seq<u8> {
    if s.len() > 0 && (s[0] == MINUS || s[0] == PLUS) {
        s.subrange(1, s.len() as int)
    } else {
        s
    }
}

/// A plain decimal number: an optional sign, then digits with at most
/// one decimal point among them, at least one digit in all.
pub open spec fn number_shape_ok(s: Seq<u8>) -> bool {
    let b = body_of(s);
    &&& b.len() > 0
    &&& forall|i: int| 0 <= i < b.len() ==> is_digit(#[trigger] b[i]) || b[i] == DOT
    &&& forall|i: int, j: int|
        0 <= i < b.len() && 0 <= j < b.len() && b[i] == DOT && b[j] == DOT ==> i == j
    &&& exists|i: int| 0 <= i < b.len() && is_digit(#[trigger] b[i])
}

/// The digits before the decimal point of a (sign-stripped) body.
pub open spec fn int_digits(b: Seq<u8>) -> Seq<u8> {
    if exists|i: int| 0 <= i < b.len() && b[i] == DOT {
        let d = choose|i: int| 0 <= i < b.len() && b[i] == DOT;
        b.subrange(0, d)
    } else {
        b
    }
}

/// The digits after the decimal point of a (sign-stripped) body.
pub open spec fn frac_digits(b: Seq<u8>) -> Seq<u8> {
    if exists|i: int| 0 <= i < b.len() && b[i] == DOT {
        let d = choose|i: int| 0 <= i < b.len() && b[i] == DOT;
        b.subrange(d + 1, b.len() as int)
    } else {
        Seq::<u8>::empty()
    }
}

/// The signed fixed-point mantissa a well-shaped field denotes.
pub open spec fn field_mantissa(s: Seq<u8>) -> int {
    let b = body_of(s);
    sign_of(s) * (digits_val(int_digits(b)) * SCALE + digits_val(frac_digits(b)) * pow10(
        (FRAC_DIGITS - frac_digits(b).len()) as nat,
    ))
}

/// What parsing one field yields: its mantissa, or the reason it is
/// rejected.
pub open spec fn spec_field(s: Seq<u8>) -> Result<i64, ParseErrorKind> {
    if !number_shape_ok(s) {
        Err(ParseErrorKind::InvalidNumber)
    } else if frac_digits(body_of(s)).len() > FRAC_DIGITS {
        Err(ParseErrorKind::UnsupportedPrecision)
    } else if field_mantissa(s) > VALUE_LIMIT as int || field_mantissa(s) < -(VALUE_LIMIT as int) {
        Err(ParseErrorKind::ValueOutOfRange)
    } else {
        Ok(field_mantissa(s) as i64)
    }
}

/// Parses the field `text[lo..hi]` into a fixed-point mantissa.
#[verifier::rlimit(50)]
fn parse_field(text: &[u8], lo: usize, hi: usize) -> (r: Result<i64, ParseErrorKind>)
    requires
        lo <= hi <= text@.len(),
    ensures
        r == spec_field(text@.subrange(lo as int, hi as int)),
{
    let ghost s = text@.subrange(lo as int, hi as int);
    if lo == hi {
        assert(body_of(s).len() == 0);
        return Err(ParseErrorKind::InvalidNumber);
    }
    let first = text[lo];
    let neg = first == MINUS;
    let p: usize = if first == MINUS || first == PLUS {
        lo + 1
    } else {
        lo
    };
    proof {
        assert(s[0] == text@[lo as int]);
        assert(body_of(s) =~= text@.subrange(p as int, hi as int));
        assert(sign_of(s) == if neg {
            -1int
        } else {
            1int
        });
    }
    let ghost b = text@.subrange(p as int, hi as int);
    if p == hi {
        assert(b.len() == 0);
        return Err(ParseErrorKind::InvalidNumber);
    }
    // Shape scan: digits with at most one dot, at least one digit.
    let mut has_dot = false;
    let mut dot_pos: usize = 0;
    let mut has_digit = false;
    let ghost mut gdig: int = 0;
    let mut t = p;
    while t < hi
        invariant
            lo <= p <= t <= hi <= text@.len(),
            p < hi,
            s == text@.subrange(lo as int, hi as int),
            b == text@.subrange(p as int, hi as int),
            b == body_of(s),
            forall|u: int| p <= u < t ==> is_digit(#[trigger] text@[u]) || text@[u] == DOT,
            has_dot ==> p <= dot_pos < t && text@[dot_pos as int] == DOT,
            forall|u: int| p <= u < t && (#[trigger] text@[u]) == DOT ==> has_dot && u == dot_pos,
            has_digit ==> p <= gdig < t && is_digit(text@[gdig]),
            !has_digit ==> forall|u: int| p <= u < t ==> !is_digit(#[trigger] text@[u]),
        decreases hi - t,
    {
        let c = text[t];
        if DIGIT_ZERO <= c && c <= DIGIT_NINE {
            if !has_digit {
                has_digit = true;
                proof {
                    gdig = t as int;
                }
            }
        } else if c == DOT {
            if has_dot {
                proof {
                    assert(b[dot_pos - p] == DOT);
                    assert(b[t - p] == DOT);
                    assert(!number_shape_ok(s));
                }
                return Err(ParseErrorKind::InvalidNumber);
            }
            has_dot = true;
            dot_pos = t;
        } else {
            proof {
                assert(!is_digit(b[t - p]) && b[t - p] != DOT);
                assert(!number_shape_ok(s));
            }
            return Err(ParseErrorKind::InvalidNumber);
        }
        t = t + 1;
    }
    if !has_digit {
        proof {
            assert(forall|i: int| 0 <= i < b.len() ==> !is_digit(#[trigger] b[i]));
            assert(!number_shape_ok(s));
        }
        return Err(ParseErrorKind::InvalidNumber);
    }
    proof {
        assert(forall|i: int|
            0 <= i < b.len() ==> is_digit(#[trigger] b[i]) || b[i] == DOT) by {
            assert(forall|i: int|
                0 <= i < b.len() ==> b[i] == (#[trigger] text@[p + i]));
        }
        assert(is_digit(b[gdig - p]));
        assert(number_shape_ok(s));
    }
    // Locate the integer and fraction digit runs.
    let dend: usize = if has_dot {
        dot_pos
    } else {
        hi
    };
    let fstart: usize = if has_dot {
        dot_pos + 1
    } else {
        hi
    };
    proof {
        if has_dot {
            assert(b[dot_pos - p] == DOT);
            let d = choose|i: int| 0 <= i < b.len() && b[i] == DOT;
            assert(b[d] == DOT);
            assert(text@[p + d] == DOT);
            assert(d == dot_pos - p);
            assert(int_digits(b) =~= text@.subrange(p as int, dend as int));
            assert(frac_digits(b) =~= text@.subrange(fstart as int, hi as int));
        } else {
            assert(forall|i: int| 0 <= i < b.len() ==> (#[trigger] b[i]) != DOT) by {
                assert(forall|i: int|
                    0 <= i < b.len() ==> b[i] == (#[trigger] text@[p + i]));
            }
            assert(int_digits(b) =~= text@.subrange(p as int, dend as int));
            assert(frac_digits(b) =~= text@.subrange(fstart as int, hi as int));
        }
    }
    let ghost idig = int_digits(b);
    let ghost fdig = frac_digits(b);
    proof {
        assert(all_digits(idig));
        assert(all_digits(fdig));
    }
    let frac_len: usize = hi - fstart;
    if frac_len > FRAC_DIGITS {
        assert(fdig.len() > FRAC_DIGITS);
        return Err(ParseErrorKind::UnsupportedPrecision);
    }
    // Read the integer digits, rejecting as soon as the running value
    // exceeds the representable magnitude.
    let mut acc: i128 = 0;
    let mut u = p;
    while u < dend
        invariant
            lo <= p <= u <= dend <= hi <= text@.len(),
            fstart <= hi,
            s == text@.subrange(lo as int, hi as int),
            idig == text@.subrange(p as int, dend as int),
            fdig == text@.subrange(fstart as int, hi as int),
            all_digits(idig),
            all_digits(fdig),
            number_shape_ok(s),
            b == body_of(s),
            idig == int_digits(b),
            fdig == frac_digits(b),
            sign_of(s) == if neg {
                -1int
            } else {
                1int
            },
            fdig.len() <= FRAC_DIGITS,
            acc == digits_val(text@.subrange(p as int, u as int)),
            0 <= acc <= VALUE_LIMIT as int,
        decreases dend - u,
    {
        let c = text[u];
        assert(is_digit(idig[u - p]) && idig[u - p] == c);
        acc = acc * 10 + (c - DIGIT_ZERO) as i128;
        proof {
            assert(text@.subrange(p as int, u + 1 as int).drop_last() =~= text@.subrange(
                p as int,
                u as int,
            ));
            assert(text@.subrange(p as int, u + 1 as int).last() == text@[u as int]);
        }
        u = u + 1;
        if acc > VALUE_LIMIT as i128 {
            proof {
                assert(text@.subrange(p as int, u as int) =~= idig.take(u - p));
                lemma_digits_val_prefix_le(idig, u - p);
                let iv = digits_val(idig);
                let fv = digits_val(fdig);
                let pw = pow10((FRAC_DIGITS - fdig.len()) as nat);
                lemma_digits_val_bounds(fdig);
                lemma_pow10_pos((FRAC_DIGITS - fdig.len()) as nat);
                vstd::arithmetic::mul::lemma_mul_inequality(1, SCALE as int, iv);
                vstd::arithmetic::mul::lemma_mul_nonnegative(fv, pw);
                assert(iv * SCALE + fv * pw > VALUE_LIMIT as int);
            }
            return Err(ParseErrorKind::ValueOutOfRange);
        }
    }
    assert(text@.subrange(p as int, dend as int) =~= idig);
    // Read the fraction digits (at most eight, so no overflow).
    let mut facc: i128 = 0;
    let mut w = fstart;
    while w < hi
        invariant
            fstart <= w <= hi <= text@.len(),
            fdig == text@.subrange(fstart as int, hi as int),
            all_digits(fdig),
            fdig.len() <= FRAC_DIGITS,
            facc == digits_val(text@.subrange(fstart as int, w as int)),
            0 <= facc < pow10((w - fstart) as nat),
        decreases hi - w,
    {
        let c = text[w];
        assert(is_digit(fdig[w - fstart]) && fdig[w - fstart] == c);
        proof {
            lemma_pow10_mono((w - fstart + 1) as nat, FRAC_DIGITS as nat);
            assert(pow10(FRAC_DIGITS as nat) == SCALE) by {
                reveal_with_fuel(pow10, 9);
            }
        }
        facc = facc * 10 + (c - DIGIT_ZERO) as i128;
        proof {
            assert(text@.subrange(fstart as int, w + 1 as int).drop_last() =~= text@.subrange(
                fstart as int,
                w as int,
            ));
            assert(text@.subrange(fstart as int, w + 1 as int).last() == text@[w as int]);
        }
        w = w + 1;
    }
    assert(text@.subrange(fstart as int, hi as int) =~= fdig);
    // The remaining scale factor for the fraction digits.
    let exp: usize = FRAC_DIGITS - frac_len;
    let mut pw: i128 = 1;
    let mut x: usize = 0;
    while x < exp
        invariant
            x <= exp <= FRAC_DIGITS,
            pw == pow10(x as nat),
        decreases exp - x,
    {
        proof {
            lemma_pow10_pos(x as nat);
            lemma_pow10_mono((x + 1) as nat, FRAC_DIGITS as nat);
            assert(pow10((x + 1) as nat) == 10 * pow10(x as nat));
            assert(pow10(FRAC_DIGITS as nat) == SCALE) by {
                reveal_with_fuel(pow10, 9);
            }
        }
        pw = pw * 10;
        x = x + 1;
    }
    proof {
        lemma_pow10_mono(exp as nat, FRAC_DIGITS as nat);
        assert(pow10(FRAC_DIGITS as nat) == SCALE) by {
            reveal_with_fuel(pow10, 9);
        }
        lemma_pow10_pos(exp as nat);
        lemma_digits_val_bounds(fdig);
        lemma_pow10_mono(fdig.len(), FRAC_DIGITS as nat);
        vstd::arithmetic::mul::lemma_mul_upper_bound(
            facc as int,
            SCALE as int,
            pw as int,
            SCALE as int,
        );
    }
    let m: i128 = acc * (SCALE as i128) + facc * pw;
    proof {
        assert(m == digits_val(idig) * SCALE + digits_val(fdig) * pow10(
            (FRAC_DIGITS - fdig.len()) as nat,
        ));
        if neg {
            assert(field_mantissa(s) == -1 * (m as int));
            assert(-1 * (m as int) == -(m as int)) by (nonlinear_arith);
        } else {
            assert(field_mantissa(s) == 1 * (m as int));
            assert(1 * (m as int) == m as int) by (nonlinear_arith);
        }
    }
    if m > VALUE_LIMIT as i128 {
        return Err(ParseErrorKind::ValueOutOfRange);
    }
    let v: i64 = if neg {
        -(m as i64)
    } else {
        m as i64
    };
    assert(v == field_mantissa(s));
    Ok(v)
}

/// A line with its trailing carriage return, if any, removed.
pub open spec fn logical_line(l: Seq<u8>) -> Seq<u8> {
    if l.len() > 0 && l.last() == CARRIAGE_RETURN {
        l.drop_last()
    } else {
        l
    }
}

/// What parsing one non-blank line yields: a record from its three
/// fields, or the first reason it is rejected (fields checked in order).
pub open spec fn spec_row(l: Seq<u8>) -> Result<LossRecord, ParseErrorKind> {
    let fields = split_by(l, COMMA);
    if fields.len() != 3 {
        Err(ParseErrorKind::WrongColumnCount)
    } else {
        match (spec_field(fields[0]), spec_field(fields[1]), spec_field(fields[2])) {
            (Err(k), _, _) => Err(k),
            (Ok(_), Err(k), _) => Err(k),
            (Ok(_), Ok(_), Err(k)) => Err(k),
            (Ok(step), Ok(value_a), Ok(value_b)) => Ok(LossRecord { step, value_a, value_b }),
        }
    }
}

/// Parses one logical line `text[lo..hi]` (carriage return already
/// stripped) into a record from its three comma-separated fields.
#[verifier::rlimit(50)]
fn parse_row(text: &[u8], lo: usize, hi: usize) -> (r: Result<LossRecord, ParseErrorKind>)
    requires
        lo <= hi <= text@.len(),
    ensures
        r == spec_row(text@.subrange(lo as int, hi as int)),
        r matches Ok(rec) ==> rec.valid(),
{
    let ghost l = text@.subrange(lo as int, hi as int);
    let mut count: usize = 0;
    let mut c1: usize = 0;
    let mut c2: usize = 0;
    let mut c3: usize = 0;
    let mut t = lo;
    while t < hi
        invariant
            lo <= t <= hi <= text@.len(),
            count <= t - lo,
            count == 0 ==> forall|u: int| lo <= u < t ==> (#[trigger] text@[u]) != COMMA,
            count >= 1 ==> lo <= c1 < t && text@[c1 as int] == COMMA && (forall|u: int|
                lo <= u < c1 ==> (#[trigger] text@[u]) != COMMA),
            count == 1 ==> forall|u: int| c1 < u < t ==> (#[trigger] text@[u]) != COMMA,
            count >= 2 ==> c1 < c2 < t && text@[c2 as int] == COMMA && (forall|u: int|
                c1 < u < c2 ==> (#[trigger] text@[u]) != COMMA),
            count == 2 ==> forall|u: int| c2 < u < t ==> (#[trigger] text@[u]) != COMMA,
            count >= 3 ==> c2 < c3 < t && text@[c3 as int] == COMMA,
        decreases hi - t,
    {
        if text[t] == COMMA {
            if count == 0 {
                c1 = t;
            } else if count == 1 {
                c2 = t;
            } else if count == 2 {
                c3 = t;
            }
            count = count + 1;
        }
        t = t + 1;
    }
    if count != 2 {
        proof {
            let fields = split_by(l, COMMA);
            if count == 0 {
                lemma_split_by_none(l, COMMA);
                assert(fields.len() == 1);
            } else if count == 1 {
                lemma_split_by_first_sep(l, COMMA, c1 - lo);
                let l2 = l.subrange(c1 - lo + 1, l.len() as int);
                lemma_split_by_none(l2, COMMA);
                assert(fields.len() == 2);
            } else {
                lemma_split_by_first_sep(l, COMMA, c1 - lo);
                let l2 = l.subrange(c1 - lo + 1, l.len() as int);
                assert(l2 =~= text@.subrange(c1 + 1, hi as int));
                lemma_split_by_first_sep(l2, COMMA, c2 - c1 - 1);
                let l3 = l2.subrange(c2 - c1, l2.len() as int);
                assert(l3 =~= text@.subrange(c2 + 1, hi as int));
                lemma_split_by_contains(l3, COMMA, c3 - c2 - 1);
                assert(fields.len() >= 4);
            }
            assert(fields.len() != 3);
        }
        return Err(ParseErrorKind::WrongColumnCount);
    }
    proof {
        lemma_split_by_first_sep(l, COMMA, c1 - lo);
        let l2 = l.subrange(c1 - lo + 1, l.len() as int);
        assert(l2 =~= text@.subrange(c1 + 1, hi as int));
        lemma_split_by_first_sep(l2, COMMA, c2 - c1 - 1);
        let l3 = l2.subrange(c2 - c1, l2.len() as int);
        assert(l3 =~= text@.subrange(c2 + 1, hi as int));
        lemma_split_by_none(l3, COMMA);
        let fields = split_by(l, COMMA);
        assert(fields.len() == 3);
        assert(fields[0] =~= text@.subrange(lo as int, c1 as int));
        assert(fields[1] =~= text@.subrange(c1 + 1, c2 as int));
        assert(fields[2] =~= text@.subrange(c2 + 1, hi as int));
    }
    let step = match parse_field(text, lo, c1) {
        Ok(v) => v,
        Err(k) => {
            return Err(k);
        },
    };
    let value_a = match parse_field(text, c1 + 1, c2) {
        Ok(v) => v,
        Err(k) => {
            return Err(k);
        },
    };
    let value_b = match parse_field(text, c2 + 1, hi) {
        Ok(v) => v,
        Err(k) => {
            return Err(k);
        },
    };
    Ok(LossRecord { step, value_a, value_b })
}

/// What parsing a suite of lines yields, the first line carrying index
/// `row`: the records of the non-blank lines in order, or the index and
/// reason of the first rejected line.
pub open spec fn spec_rows(lines: Seq<Seq<u8>>, row: int) -> Result<
    Seq<LossRecord>,
    (int, ParseErrorKind),
>
    decreases lines.len(),
{
    if lines.len() == 0 {
        Ok(Seq::<LossRecord>::empty())
    } else {
        let l = logical_line(lines[0]);
        let rest = spec_rows(lines.subrange(1, lines.len() as int), row + 1);
        if l.len() == 0 {
            rest
        } else {
            match spec_row(l) {
                Err(k) => Err((row, k)),
                Ok(r) => match rest {
                    Err(e) => Err(e),
                    Ok(rs) => Ok(seq![r] + rs),
                },
            }
        }
    }
}

/// What parsing the whole input yields.
pub open spec fn spec_parse(text: Seq<u8>) -> Result<Seq<LossRecord>, (int, ParseErrorKind)> {
    spec_rows(split_by(text, NEWLINE), 0)
}

proof fn lemma_rows_empty(row: int)
    ensures
        spec_rows(Seq::<Seq<u8>>::empty(), row) == Ok::<Seq<LossRecord>, (int, ParseErrorKind)>(
            Seq::<LossRecord>::empty(),
        ),
{
}

proof fn lemma_rows_step_blank(rem: Seq<Seq<u8>>, row: int)
    requires
        rem.len() >= 1,
        logical_line(rem[0]).len() == 0,
    ensures
        spec_rows(rem, row) == spec_rows(rem.subrange(1, rem.len() as int), row + 1),
{
}

proof fn lemma_rows_step_err(rem: Seq<Seq<u8>>, row: int, k: ParseErrorKind)
    requires
        rem.len() >= 1,
        logical_line(rem[0]).len() > 0,
        spec_row(logical_line(rem[0])) == Err::<LossRecord, ParseErrorKind>(k),
    ensures
        spec_rows(rem, row) == Err::<Seq<LossRecord>, (int, ParseErrorKind)>((row, k)),
{
}

proof fn lemma_rows_step_ok(rem: Seq<Seq<u8>>, row: int, rec: LossRecord)
    requires
        rem.len() >= 1,
        logical_line(rem[0]).len() > 0,
        spec_row(logical_line(rem[0])) == Ok::<LossRecord, ParseErrorKind>(rec),
    ensures
        spec_rows(rem, row) == (match spec_rows(rem.subrange(1, rem.len() as int), row + 1) {
            Ok(tail) => Ok::<Seq<LossRecord>, (int, ParseErrorKind)>(seq![rec] + tail),
            Err(e) => Err::<Seq<LossRecord>, (int, ParseErrorKind)>(e),
        }),
{
}

/// Parses raw comma-separated text into loss records, in file order.
/// Any malformed row fails the whole parse with its line index and the
/// reason; no partial dataset is produced.
#[verifier::rlimit(100)]
pub fn parse(text: &[u8]) -> (r: Result<Vec<LossRecord>, ParseError>)
    ensures
        r matches Ok(records) ==> spec_parse(text@) == Ok::<Seq<LossRecord>, (int, ParseErrorKind)>(
            records@,
        ) && forall|i: int| 0 <= i < records@.len() ==> (#[trigger] records@[i]).valid(),
        r matches Err(e) ==> spec_parse(text@) == Err::<Seq<LossRecord>, (int, ParseErrorKind)>(
            (e.row as int, e.kind),
        ),
{
    let n = text.len();
    let ghost lines = split_by(text@, NEWLINE);
    let mut records: Vec<LossRecord> = Vec::new();
    let mut row: usize = 0;
    let mut start: usize = 0;
    let mut finished = false;
    proof {
        lemma_split_by_len_le(text@, NEWLINE);
        assert(text@.subrange(0, n as int) =~= text@);
        assert(lines.subrange(0, lines.len() as int) =~= lines);
    }
    while !finished
        invariant
            n == text@.len(),
            lines == split_by(text@, NEWLINE),
            lines.len() <= n + 1,
            forall|i: int| 0 <= i < records@.len() ==> (#[trigger] records@[i]).valid(),
            !finished ==> start <= n && row < lines.len() && split_by(
                text@.subrange(start as int, n as int),
                NEWLINE,
            ) == lines.subrange(row as int, lines.len() as int),
            !finished ==> (spec_rows(
                lines.subrange(row as int, lines.len() as int),
                row as int,
            ) matches Ok(tail) ==> spec_parse(text@) == Ok::<
                Seq<LossRecord>,
                (int, ParseErrorKind),
            >(records@ + tail)),
            !finished ==> (spec_rows(
                lines.subrange(row as int, lines.len() as int),
                row as int,
            ) matches Err(e) ==> spec_parse(text@) == Err::<
                Seq<LossRecord>,
                (int, ParseErrorKind),
            >(e)),
            finished ==> spec_parse(text@) == Ok::<Seq<LossRecord>, (int, ParseErrorKind)>(
                records@,
            ),
        decreases n - start + (if finished {
            0int
        } else {
            1int
        }),
    {
        let ghost rem = lines.subrange(row as int, lines.len() as int);
        // Find the end of the current line.
        let mut j = start;
        while j < n && text[j] != NEWLINE
            invariant
                start <= j <= n,
                n == text@.len(),
                forall|u: int| start <= u < j ==> (#[trigger] text@[u]) != NEWLINE,
            decreases n - j,
        {
            j = j + 1;
        }
        proof {
            let cur = text@.subrange(start as int, n as int);
            if j < n {
                lemma_split_by_first_sep(cur, NEWLINE, j - start);
                assert(cur.subrange(0, j - start) =~= text@.subrange(start as int, j as int));
                assert(cur.subrange(j - start + 1, cur.len() as int) =~= text@.subrange(
                    j + 1,
                    n as int,
                ));
            } else {
                lemma_split_by_none(cur, NEWLINE);
            }
            assert(rem[0] == text@.subrange(start as int, j as int));
        }
        // Strip a trailing carriage return.
        let mut e = j;
        if e > start && text[e - 1] == CARRIAGE_RETURN {
            e = e - 1;
        }
        proof {
            assert(logical_line(rem[0]) =~= text@.subrange(start as int, e as int));
        }
        // A blank line is skipped; any other line must be a record.
        let ghost prev_records = records@;
        if e > start {
            match parse_row(text, start, e) {
                Ok(rec) => {
                    records.push(rec);
                },
                Err(k) => {
                    proof {
                        lemma_rows_step_err(rem, row as int, k);
                    }
                    return Err(ParseError { row, kind: k });
                },
            }
        }
        // Advance to the next line, or finish on the last one.
        if j < n {
            proof {
                let rest_seq = lines.subrange(row + 1, lines.len() as int);
                assert(rem.subrange(1, rem.len() as int) =~= rest_seq);
                lemma_split_by_len_pos(text@.subrange(j + 1, n as int), NEWLINE);
                if e > start {
                    let rec = records@.last();
                    assert(records@ =~= prev_records.push(rec));
                    lemma_rows_step_ok(rem, row as int, rec);
                    match spec_rows(rest_seq, row + 1) {
                        Ok(tail) => {
                            assert(prev_records + (seq![rec] + tail) =~= records@ + tail);
                        },
                        Err(_) => {},
                    }
                } else {
                    lemma_rows_step_blank(rem, row as int);
                }
            }
            start = j + 1;
            row = row + 1;
        } else {
            proof {
                assert(rem.len() == 1);
                let rest_seq = rem.subrange(1, rem.len() as int);
                assert(rest_seq =~= Seq::<Seq<u8>>::empty());
                lemma_rows_empty(row + 1);
                if e > start {
                    let rec = records@.last();
                    assert(records@ =~= prev_records.push(rec));
                    lemma_rows_step_ok(rem, row as int, rec);
                    assert(prev_records + (seq![rec] + Seq::<LossRecord>::empty()) =~= records@);
                } else {
                    lemma_rows_step_blank(rem, row as int);
                    assert(records@ + Seq::<LossRecord>::empty() =~= records@);
                }
            }
            finished = true;
        }
    }
    Ok(records)
}

} // verus!
