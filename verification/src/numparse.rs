//! Integer parsing as `str::parse` and `from_str_radix` do it for the
//! unsigned and signed integer types: an optional sign, then digits, each
//! checked in turn, an invalid digit reported before an overflow.

use vstd::prelude::*;

verus! {

/// Why a text is not an integer of the wanted type.
#[derive(Clone, Copy, Debug, PartialEq, Eq, Structural)]
pub enum IntErrorKind {
    /// The text is empty.
    Empty,
    /// A character is not a digit of the radix (a lone sign counts as one).
    InvalidDigit,
    /// The value is above the type's maximum.
    PosOverflow,
}

/// The value of `c` as a digit of `radix` (radix at most 36): `0`-`9`, then
/// letters of either case from 10 on.
pub open spec fn digit_value(c: char, radix: nat) -> Option<nat> {
    let d: int = if '0' <= c && c <= '9' {
        c as int - '0' as int
    } else if 'a' <= c && c <= 'z' {
        c as int - 'a' as int + 10
    } else if 'A' <= c && c <= 'Z' {
        c as int - 'A' as int + 10
    } else {
        radix as int
    };
    if 0 <= d < radix {
        Some(d as nat)
    } else {
        None
    }
}

/// Reads the digits of `s` onto `acc`, left to right; each character is
/// first checked to be a digit, then the new value against `max`.
pub open spec fn accumulate(acc: int, s: Seq<char>, radix: nat, max: int) -> Result<
    int,
    IntErrorKind,
>
    decreases s.len(),
{
    if s.len() == 0 {
        Ok(acc)
    } else {
        match digit_value(s[0], radix) {
            None => Err(IntErrorKind::InvalidDigit),
            Some(d) => if acc * radix + d > max {
                Err(IntErrorKind::PosOverflow)
            } else {
                accumulate(acc * radix + d, s.drop_first(), radix, max)
            },
        }
    }
}

/// The unsigned integer that `s` denotes in `radix`, with `max` the type's
/// maximum: an optional leading `+`, then at least one digit.
pub open spec fn parse_unsigned(s: Seq<char>, radix: nat, max: int) -> Result<int, IntErrorKind> {
    if s.len() == 0 {
        Err(IntErrorKind::Empty)
    } else if (s[0] == '+' || s[0] == '-') && s.len() == 1 {
        Err(IntErrorKind::InvalidDigit)
    } else if s[0] == '+' {
        accumulate(0, s.drop_first(), radix, max)
    } else {
        accumulate(0, s, radix, max)
    }
}

/// The `i64` that `s` denotes in decimal, if any: an optional sign, then at
/// least one digit, the value within `i64::MIN..=i64::MAX`.
pub open spec fn parse_signed(s: Seq<char>) -> Option<int> {
    if s.len() == 0 {
        None
    } else if (s[0] == '+' || s[0] == '-') && s.len() == 1 {
        None
    } else if s[0] == '-' {
        match accumulate(0, s.drop_first(), 10, 0x8000_0000_0000_0000) {
            Ok(v) => Some(-v),
            Err(_) => None,
        }
    } else {
        let body = if s[0] == '+' {
            s.drop_first()
        } else {
            s
        };
        match accumulate(0, body, 10, 0x7fff_ffff_ffff_ffff) {
            Ok(v) => Some(v),
            Err(_) => None,
        }
    }
}

/// An accumulated value stays between the start and the maximum.
pub proof fn lemma_accumulate_bounds(acc: int, s: Seq<char>, radix: nat, max: int)
    requires
        0 <= acc <= max,
        radix >= 1,
    ensures
        accumulate(acc, s, radix, max) matches Ok(v) ==> acc <= v <= max,
    decreases s.len(),
{
    if s.len() > 0 {
        if let Some(d) = digit_value(s[0], radix) {
            if acc * radix + d <= max {
                assert(acc * radix >= acc) by (nonlinear_arith)
                    requires
                        acc >= 0,
                        radix >= 1,
                ;
                lemma_accumulate_bounds(acc * radix + d, s.drop_first(), radix, max);
            }
        }
    }
}

/// The value of `c` as a digit of `radix`, which is 10 or 16.
fn digit_of(c: char, radix: u64) -> (r: Option<u64>)
    requires
        radix == 10 || radix == 16,
    ensures
        r matches Some(d) ==> digit_value(c, radix as nat) == Some(d as nat),
        r is None ==> digit_value(c, radix as nat) is None,
{
    let d: u64 = if '0' <= c && c <= '9' {
        (c as u32 - '0' as u32) as u64
    } else if 'a' <= c && c <= 'z' {
        (c as u32 - 'a' as u32) as u64 + 10
    } else if 'A' <= c && c <= 'Z' {
        (c as u32 - 'A' as u32) as u64 + 10
    } else {
        radix
    };
    if d < radix {
        Some(d)
    } else {
        None
    }
}

/// Reads the digits `v[start..end]` onto zero, in `radix` (10 or 16), with
/// `max` the maximum.
fn accumulate_range(v: &Vec<char>, start: usize, end: usize, radix: u64, max: u64) -> (r: Result<
    u64,
    IntErrorKind,
>)
    requires
        start <= end <= v@.len(),
        radix == 10 || radix == 16,
    ensures
        r matches Ok(x) ==> accumulate(0, v@.subrange(start as int, end as int), radix as nat, max as int) == Ok::<int, IntErrorKind>(x as int),
        r matches Err(e) ==> accumulate(0, v@.subrange(start as int, end as int), radix as nat, max as int) == Err::<int, IntErrorKind>(e),
{
    let mut acc: u64 = 0;
    let mut i: usize = start;
    let ghost whole = v@.subrange(start as int, end as int);
    while i < end
        invariant
            start <= i <= end <= v@.len(),
            radix == 10 || radix == 16,
            acc <= max,
            whole == v@.subrange(start as int, end as int),
            accumulate(0, whole, radix as nat, max as int) == accumulate(
                acc as int,
                v@.subrange(i as int, end as int),
                radix as nat,
                max as int,
            ),
        decreases end - i,
    {
        let ghost rest = v@.subrange(i as int, end as int);
        assert(rest[0] == v@[i as int]);
        assert(rest.drop_first() == v@.subrange(i + 1, end as int));
        match digit_of(v[i], radix) {
            None => {
                return Err(IntErrorKind::InvalidDigit);
            },
            Some(d) => {
                let wide: u128 = if radix == 10 {
                    acc as u128 * 10 + d as u128
                } else {
                    acc as u128 * 16 + d as u128
                };
                if wide > max as u128 {
                    return Err(IntErrorKind::PosOverflow);
                }
                acc = wide as u64;
                i = i + 1;
            },
        }
    }
    assert(v@.subrange(i as int, end as int).len() == 0);
    Ok(acc)
}

/// Parses `v[start..end]` as an unsigned integer of `radix` (10 or 16) no
/// greater than `max`, as `from_str_radix` does.
pub fn parse_unsigned_range(v: &Vec<char>, start: usize, end: usize, radix: u64, max: u64) -> (r:
    Result<u64, IntErrorKind>)
    requires
        start <= end <= v@.len(),
        radix == 10 || radix == 16,
    ensures
        r matches Ok(x) ==> parse_unsigned(v@.subrange(start as int, end as int), radix as nat, max as int) == Ok::<int, IntErrorKind>(x as int),
        r matches Err(e) ==> parse_unsigned(v@.subrange(start as int, end as int), radix as nat, max as int) == Err::<int, IntErrorKind>(e),
{
    let ghost s = v@.subrange(start as int, end as int);
    if start == end {
        return Err(IntErrorKind::Empty);
    }
    let first = v[start];
    assert(s[0] == first);
    if (first == '+' || first == '-') && end - start == 1 {
        return Err(IntErrorKind::InvalidDigit);
    }
    if first == '+' {
        assert(s.drop_first() == v@.subrange(start + 1, end as int));
        accumulate_range(v, start + 1, end, radix, max)
    } else {
        accumulate_range(v, start, end, radix, max)
    }
}

/// Parses `v[start..end]` as a decimal `i64`, as `str::parse::<i64>` does;
/// `None` where that fails.
pub fn parse_signed_range(v: &Vec<char>, start: usize, end: usize) -> (r: Option<i64>)
    requires
        start <= end <= v@.len(),
    ensures
        r matches Some(x) ==> parse_signed(v@.subrange(start as int, end as int)) == Some(x as int),
        r is None ==> parse_signed(v@.subrange(start as int, end as int)) is None,
{
    let ghost s = v@.subrange(start as int, end as int);
    if start == end {
        return None;
    }
    let first = v[start];
    assert(s[0] == first);
    if (first == '+' || first == '-') && end - start == 1 {
        return None;
    }
    if first == '-' {
        assert(s.drop_first() == v@.subrange(start + 1, end as int));
        proof {
            lemma_accumulate_bounds(0, v@.subrange(start + 1, end as int), 10, 0x8000_0000_0000_0000);
        }
        match accumulate_range(v, start + 1, end, 10, 0x8000_0000_0000_0000) {
            Ok(m) => {
                let neg: i128 = 0 - (m as i128);
                Some(neg as i64)
            },
            Err(_) => None,
        }
    } else {
        let body_start = if first == '+' {
            start + 1
        } else {
            start
        };
        assert(first == '+' ==> s.drop_first() == v@.subrange(start + 1, end as int));
        proof {
            lemma_accumulate_bounds(0, v@.subrange(body_start as int, end as int), 10, 0x7fff_ffff_ffff_ffff);
        }
        match accumulate_range(v, body_start, end, 10, 0x7fff_ffff_ffff_ffff) {
            Ok(m) => Some(m as i64),
            Err(_) => None,
        }
    }
}

/// Reading one more character continues from where the text before it left
/// off.
pub proof fn lemma_accumulate_push(acc: int, s: Seq<char>, c: char, radix: nat, max: int)
    ensures
        accumulate(acc, s.push(c), radix, max) == match accumulate(acc, s, radix, max) {
            Err(e) => Err(e),
            Ok(v) => match digit_value(c, radix) {
                None => Err(IntErrorKind::InvalidDigit),
                Some(d) => if v * radix + d > max {
                    Err(IntErrorKind::PosOverflow)
                } else {
                    Ok(v * radix + d)
                },
            },
        },
    decreases s.len(),
{
    if s.len() == 0 {
        assert(s.push(c).drop_first() =~= Seq::<char>::empty());
        assert(s.push(c)[0] == c);
        if let Some(d) = digit_value(c, radix) {
            assert(accumulate(acc * radix + d, Seq::<char>::empty(), radix, max) == Ok::<int, IntErrorKind>(acc * radix + d));
        }
    } else {
        assert(s.push(c)[0] == s[0]);
        assert(s.push(c).drop_first() =~= s.drop_first().push(c));
        if let Some(d) = digit_value(s[0], radix) {
            if acc * radix + d <= max {
                lemma_accumulate_push(acc * radix + d, s.drop_first(), c, radix, max);
            }
        }
    }
}

/// The decimal digits of a `u64` are read back as its value.
pub proof fn lemma_decimal_roundtrip(n: u64)
    ensures
        parse_unsigned(crate::text::decimal(n as nat), 10, 0xffff_ffff_ffff_ffff) == Ok::<
            int,
            IntErrorKind,
        >(n as int),
{
    lemma_decimal_accumulate(n as nat, 0xffff_ffff_ffff_ffff);
    crate::text::lemma_decimal_shape(n as nat);
}

/// The decimal form of an `i64`, with `-` before a negative value, is read
/// back as its value.
pub proof fn lemma_signed_decimal_roundtrip(n: i64)
    ensures
        parse_signed(crate::text::signed_decimal(n as int)) == Some(n as int),
{
    if n < 0 {
        let m: nat = (-(n as int)) as nat;
        lemma_decimal_accumulate(m, 0x8000_0000_0000_0000);
        crate::text::lemma_decimal_shape(m);
        let t = seq!['-'] + crate::text::decimal(m);
        assert(t.drop_first() == crate::text::decimal(m));
        assert(t[0] == '-');
    } else {
        lemma_decimal_accumulate(n as nat, 0x7fff_ffff_ffff_ffff);
        crate::text::lemma_decimal_shape(n as nat);
    }
}

/// Accumulating the decimal digits of `n` from zero gives `n`.
pub proof fn lemma_decimal_accumulate(n: nat, max: int)
    requires
        n <= max,
    ensures
        accumulate(0, crate::text::decimal(n), 10, max) == Ok::<int, IntErrorKind>(n as int),
    decreases n,
{
    let d = n % 10;
    assert(digit_value(crate::text::digit_char(d), 10) == Some(d)) by {
        assert(('0' as int) == 48);
        assert((crate::text::digit_char(d) as int) == 48 + d);
    }
    if n < 10 {
        lemma_accumulate_push(0, Seq::<char>::empty(), crate::text::digit_char(n), 10, max);
        assert(Seq::<char>::empty().push(crate::text::digit_char(n)) == seq![crate::text::digit_char(n)]);
    } else {
        lemma_decimal_accumulate(n / 10, max);
        lemma_accumulate_push(0, crate::text::decimal(n / 10), crate::text::digit_char(d), 10, max);
        assert(crate::text::decimal(n / 10).push(crate::text::digit_char(d)) == crate::text::decimal(n));
        assert((n / 10) * 10 + d == n);
    }
}

} // verus!
