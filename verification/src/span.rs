//! Time spans written on the command line, such as `7d` or `2w`.
use vstd::prelude::*;
use crate::text::{chars_of, decimal, decimal_int, digit_char, substring, trim, trim_bounds};

verus! {

/// Why a text is not an `i64` (the kinds of `std::num::IntErrorKind` that
/// parsing an `i64` can give).
#[derive(Debug, Clone, Copy, PartialEq, Eq, Structural)]
pub enum IntErrorKind {
    /// The text is empty.
    Empty,
    /// A character is not a digit, or a lone sign has no digits.
    InvalidDigit,
    /// The value is above `i64::MAX`.
    PosOverflow,
    /// The value is below `i64::MIN`.
    NegOverflow,
}

/// A span of whole days or whole weeks.
#[derive(Debug, Clone, Copy, PartialEq, Eq, Structural)]
pub enum Span {
    Days(i64),
    Weeks(i64),
}

/// Why a span could not be read.
#[derive(Debug, PartialEq, Eq)]
pub enum SpanError {
    /// The count before the unit is not an `i64`.
    Number(IntErrorKind),
    /// The (trimmed) text ends in neither `d` nor `w`.
    Format(String),
}

/// Whether `c` is an ASCII decimal digit.
pub open spec fn is_digit(c: char) -> bool {
    '0' <= c && c <= '9'
}

/// The value of the digit `c`.
pub open spec fn digit_value(c: char) -> int {
    (c as int) - ('0' as int)
}

/// Reads the digits `d` after the value `acc` read so far, as `i64::from_str`
/// does: left to right, failing at the first character that is not a digit
/// or at the first step that leaves the range of `i64`, whichever comes
/// first. Negative numbers are built by subtracting digits.
pub open spec fn accumulate(d: Seq<char>, acc: int, neg: bool) -> Result<int, IntErrorKind>
    decreases d.len(),
{
    if d.len() == 0 {
        Ok(acc)
    } else if !is_digit(d[0]) {
        Err(IntErrorKind::InvalidDigit)
    } else {
        let next = if neg {
            acc * 10 - digit_value(d[0])
        } else {
            acc * 10 + digit_value(d[0])
        };
        if next < i64::MIN || next > i64::MAX {
            Err(
                if neg {
                    IntErrorKind::NegOverflow
                } else {
                    IntErrorKind::PosOverflow
                },
            )
        } else {
            accumulate(d.drop_first(), next, neg)
        }
    }
}

/// What `s.parse::<i64>()` gives: an optional `+` or `-` sign, then decimal digits.
pub open spec fn parse_i64(s: Seq<char>) -> Result<int, IntErrorKind> {
    if s.len() == 0 {
        Err(IntErrorKind::Empty)
    } else if s.len() == 1 && (s[0] == '+' || s[0] == '-') {
        Err(IntErrorKind::InvalidDigit)
    } else if s[0] == '+' {
        accumulate(s.drop_first(), 0, false)
    } else if s[0] == '-' {
        accumulate(s.drop_first(), 0, true)
    } else {
        accumulate(s, 0, false)
    }
}

/// Reads `v[lo .. hi]` as an `i64` (see `parse_i64`).
pub fn parse_i64_in(v: &Vec<char>, lo: usize, hi: usize) -> (r: Result<i64, IntErrorKind>)
    requires
        lo <= hi <= v@.len(),
    ensures
        match r {
            Ok(n) => parse_i64(v@.subrange(lo as int, hi as int)) == Ok::<int, IntErrorKind>(n as int),
            Err(k) => parse_i64(v@.subrange(lo as int, hi as int)) == Err::<int, IntErrorKind>(k),
        },
{
    let ghost s = v@.subrange(lo as int, hi as int);
    if lo == hi {
        return Err(IntErrorKind::Empty);
    }
    let first = v[lo];
    if hi - lo == 1 && (first == '+' || first == '-') {
        return Err(IntErrorKind::InvalidDigit);
    }
    let neg = first == '-';
    let mut i = if first == '+' || first == '-' {
        lo + 1
    } else {
        lo
    };
    assert(s.drop_first() =~= v@.subrange(lo + 1, hi as int));
    let mut acc: i64 = 0;
    while i < hi
        invariant
            lo <= i <= hi <= v@.len(),
            s == v@.subrange(lo as int, hi as int),
            parse_i64(s) == accumulate(v@.subrange(i as int, hi as int), acc as int, neg),
        decreases hi - i,
    {
        let c = v[i];
        let ghost d = v@.subrange(i as int, hi as int);
        if !('0' <= c && c <= '9') {
            return Err(IntErrorKind::InvalidDigit);
        }
        let dv = ((c as u32) - 48) as i128;
        let next: i128 = if neg {
            (acc as i128) * 10 - dv
        } else {
            (acc as i128) * 10 + dv
        };
        if next < i64::MIN as i128 || next > i64::MAX as i128 {
            return Err(
                if neg {
                    IntErrorKind::NegOverflow
                } else {
                    IntErrorKind::PosOverflow
                },
            );
        }
        assert(d.drop_first() =~= v@.subrange(i + 1, hi as int));
        acc = next as i64;
        i = i + 1;
    }
    Ok(acc)
}

/// Reads a span: the trimmed text must end in `d` (days) or `w` (weeks),
/// and what comes before the unit must be an `i64`.
pub fn parse_span(text: &str) -> (r: Result<Span, SpanError>)
    ensures
        ({
            let t = trim(text@);
            if t.len() > 0 && t.last() == 'd' {
                match parse_i64(t.drop_last()) {
                    Ok(n) => r == Ok::<Span, SpanError>(Span::Days(n as i64)),
                    Err(k) => r == Err::<Span, SpanError>(SpanError::Number(k)),
                }
            } else if t.len() > 0 && t.last() == 'w' {
                match parse_i64(t.drop_last()) {
                    Ok(n) => r == Ok::<Span, SpanError>(Span::Weeks(n as i64)),
                    Err(k) => r == Err::<Span, SpanError>(SpanError::Number(k)),
                }
            } else {
                r matches Err(SpanError::Format(f)) && f@ == t
            }
        }),
{
    let v = chars_of(text);
    let n = v.len();
    let (a, b) = trim_bounds(&v, 0, n);
    assert(v@.subrange(0, n as int) =~= v@);
    let ghost t = v@.subrange(a as int, b as int);
    if b > a && (v[b - 1] == 'd' || v[b - 1] == 'w') {
        assert(t.drop_last() =~= v@.subrange(a as int, b - 1));
        let count = parse_i64_in(&v, a, b - 1);
        match count {
            Ok(k) => {
                if v[b - 1] == 'd' {
                    Ok(Span::Days(k))
                } else {
                    Ok(Span::Weeks(k))
                }
            },
            Err(e) => Err(SpanError::Number(e)),
        }
    } else {
        Err(SpanError::Format(substring(text, a, b)))
    }
}

/// Reading digits after more digits is reading the first ones, then the last.
proof fn lemma_accumulate_push(d: Seq<char>, c: char, acc: int, neg: bool)
    ensures
        accumulate(d.push(c), acc, neg) == match accumulate(d, acc, neg) {
            Ok(v) => accumulate(seq![c], v, neg),
            Err(e) => Err(e),
        },
    decreases d.len(),
{
    if d.len() > 0 {
        assert(d.push(c).drop_first() =~= d.drop_first().push(c));
        assert(d.push(c)[0] == d[0]);
        if is_digit(d[0]) {
            let next = if neg {
                acc * 10 - digit_value(d[0])
            } else {
                acc * 10 + digit_value(d[0])
            };
            lemma_accumulate_push(d.drop_first(), c, next, neg);
        }
    } else {
        assert(d.push(c) =~= seq![c]);
    }
}

/// The character of digit `d` is a digit of value `d`.
proof fn lemma_digit_char(d: int)
    requires
        0 <= d < 10,
    ensures
        is_digit(digit_char(d)),
        digit_value(digit_char(d)) == d,
{
    if d == 0 {
    } else if d == 1 {
    } else if d == 2 {
    } else if d == 3 {
    } else if d == 4 {
    } else if d == 5 {
    } else if d == 6 {
    } else if d == 7 {
    } else if d == 8 {
    } else {
    }
}

/// Reading the decimal digits of `n` gives `n` (or `-n` when reading a
/// negative number), as long as the value fits in `i64`.
proof fn lemma_accumulate_decimal(n: nat, neg: bool)
    requires
        neg ==> n <= 0x8000_0000_0000_0000,
        !neg ==> n <= 0x7fff_ffff_ffff_ffff,
    ensures
        accumulate(decimal(n), 0, neg) == Ok::<int, IntErrorKind>(if neg { -n } else { n as int }),
        decimal(n).len() > 0,
        is_digit(decimal(n)[0]),
    decreases n,
{
    if n < 10 {
        lemma_digit_char(n as int);
        let c = digit_char(n as int);
        assert(seq![c].drop_first() =~= Seq::<char>::empty());
        assert(seq![c][0] == c);
        let next = if neg { 0 * 10 - digit_value(c) } else { 0 * 10 + digit_value(c) };
        assert(accumulate(seq![c], 0, neg) == accumulate(Seq::<char>::empty(), next, neg));
        assert(decimal(n) == seq![c]);
    } else {
        let q = n / 10;
        let r = n % 10;
        lemma_accumulate_decimal(q, neg);
        lemma_digit_char(r as int);
        lemma_accumulate_push(decimal(q), digit_char(r as int), 0, neg);
        assert(seq![digit_char(r as int)].drop_first() =~= Seq::<char>::empty());
        assert(q * 10 + r == n);
        let c = digit_char(r as int);
        let v = if neg { -q } else { q as int };
        assert(seq![c][0] == c);
        let next = if neg { v * 10 - digit_value(c) } else { v * 10 + digit_value(c) };
        assert(next == if neg { -n } else { n as int });
        assert(accumulate(seq![c], v, neg) == accumulate(Seq::<char>::empty(), next, neg));
        assert(accumulate(Seq::<char>::empty(), next, neg) == Ok::<int, IntErrorKind>(next));
        assert(accumulate(decimal(q), 0, neg) == Ok::<int, IntErrorKind>(v));
        assert(decimal(n) == decimal(q).push(c));
        assert(decimal(n)[0] == decimal(q)[0]);
    }
}

/// Writing an `i64` in decimal and reading it back gives the same number,
/// so a count written by the tool reads back as the same span.
pub proof fn law_decimal_round_trip(n: i64)
    ensures
        parse_i64(decimal_int(n as int)) == Ok::<int, IntErrorKind>(n as int),
{
    if n < 0 {
        let m = (-n) as nat;
        lemma_accumulate_decimal(m, true);
        let s = seq!['-'] + decimal(m);
        assert(s.drop_first() =~= decimal(m));
    } else {
        lemma_accumulate_decimal(n as nat, false);
    }
}

} // verus!
