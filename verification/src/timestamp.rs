//! Playback positions as the `viska seek` command takes them: `H:MM:SS`,
//! `MM:SS` or plain seconds for an absolute position, `+N` / `-N` for an
//! offset in seconds.

use vstd::prelude::*;
use crate::numparse::{parse_unsigned, parse_signed, parse_unsigned_range, parse_signed_range, IntErrorKind};
use crate::text::{
    chars_of, split_on, split_ranges, pieces_of, ranges_within, lemma_split_on_prefix, decimal,
    lemma_decimal_shape, lemma_split_on_append,
};
use crate::numparse::lemma_decimal_roundtrip;
use crate::numparse::accumulate;

verus! {

/// Why a text is not a timestamp.
#[derive(Clone, Copy, Debug, PartialEq, Eq)]
pub enum TimestampError {
    /// A field is not an unsigned 64-bit integer.
    Parse(IntErrorKind),
    /// More than three `:`-separated fields.
    Format,
}

/// The value of a field: a decimal `u64`.
pub open spec fn field_value(s: Seq<char>) -> Result<int, IntErrorKind> {
    parse_unsigned(s, 10, 0xffff_ffff_ffff_ffff)
}

/// The milliseconds that `s` denotes: its `:`-separated fields are seconds,
/// minutes and seconds, or hours, minutes and seconds; the fields are read
/// left to right and the first that fails gives the error.
pub open spec fn timestamp_millis(s: Seq<char>) -> Result<int, TimestampError> {
    let parts = split_on(s, ':');
    if parts.len() == 1 {
        match field_value(parts[0]) {
            Err(e) => Err(TimestampError::Parse(e)),
            Ok(n) => Ok(n * 1000),
        }
    } else if parts.len() == 2 {
        match field_value(parts[0]) {
            Err(e) => Err(TimestampError::Parse(e)),
            Ok(m) => match field_value(parts[1]) {
                Err(e) => Err(TimestampError::Parse(e)),
                Ok(sec) => Ok((m * 60 + sec) * 1000),
            },
        }
    } else if parts.len() == 3 {
        match field_value(parts[0]) {
            Err(e) => Err(TimestampError::Parse(e)),
            Ok(h) => match field_value(parts[1]) {
                Err(e) => Err(TimestampError::Parse(e)),
                Ok(m) => match field_value(parts[2]) {
                    Err(e) => Err(TimestampError::Parse(e)),
                    Ok(sec) => Ok((h * 3600 + m * 60 + sec) * 1000),
                },
            },
        }
    } else {
        Err(TimestampError::Format)
    }
}

/// The milliseconds fit in a `u64` (or the text is no timestamp at all).
pub open spec fn timestamp_fits(s: Seq<char>) -> bool {
    timestamp_millis(s) matches Ok(v) ==> v <= 0xffff_ffff_ffff_ffff
}

fn field(v: &Vec<char>, r: (usize, usize)) -> (x: Result<u64, TimestampError>)
    requires
        r.0 <= r.1 <= v@.len(),
    ensures
        x matches Ok(n) ==> field_value(v@.subrange(r.0 as int, r.1 as int)) == Ok::<int, IntErrorKind>(n as int),
        x matches Err(e) ==> exists|k: IntErrorKind| e == TimestampError::Parse(k) && field_value(v@.subrange(r.0 as int, r.1 as int)) == Err::<int, IntErrorKind>(k),
{
    match parse_unsigned_range(v, r.0, r.1, 10, 0xffff_ffff_ffff_ffff) {
        Ok(n) => Ok(n),
        Err(k) => Err(TimestampError::Parse(k)),
    }
}

/// The milliseconds of `s` in a type wide enough for every outcome.
fn millis_wide(s: &str) -> (r: Result<u128, TimestampError>)
    ensures
        r matches Ok(x) ==> timestamp_millis(s@) == Ok::<int, TimestampError>(x as int),
        r matches Err(e) ==> timestamp_millis(s@) == Err::<int, TimestampError>(e),
{
    let v = chars_of(s);
    let parts = split_ranges(&v, ':');
    let ghost p = split_on(s@, ':');
    assert(pieces_of(v@, parts@) == p);
    assert(parts@.len() == p.len());
    assert(forall|i: int| 0 <= i < parts@.len() ==> #[trigger] p[i] == v@.subrange(parts@[i].0 as int, parts@[i].1 as int));
    if parts.len() == 1 {
        assert(parts@[0].0 <= parts@[0].1);
        let n = field(&v, parts[0])?;
        Ok(n as u128 * 1000)
    } else if parts.len() == 2 {
        assert(parts@[0].0 <= parts@[0].1 && parts@[1].0 <= parts@[1].1);
        let m = field(&v, parts[0])?;
        let sec = field(&v, parts[1])?;
        Ok((m as u128 * 60 + sec as u128) * 1000)
    } else if parts.len() == 3 {
        assert(parts@[0].0 <= parts@[0].1 && parts@[1].0 <= parts@[1].1 && parts@[2].0 <= parts@[2].1);
        let h = field(&v, parts[0])?;
        let m = field(&v, parts[1])?;
        let sec = field(&v, parts[2])?;
        Ok((h as u128 * 3600 + m as u128 * 60 + sec as u128) * 1000)
    } else {
        Err(TimestampError::Format)
    }
}

/// Whether `s` is a timestamp whose milliseconds do not fit in a `u64`, so
/// that `parse_timestamp` would overflow on it.
pub fn timestamp_overflows(s: &str) -> (r: bool)
    ensures
        r == !timestamp_fits(s@),
{
    match millis_wide(s) {
        Ok(x) => x > 0xffff_ffff_ffff_ffff,
        Err(_) => false,
    }
}

/// Parses a playback position (`H:MM:SS`, `MM:SS` or seconds) into
/// milliseconds.
pub fn parse_timestamp(s: &str) -> (r: Result<u64, TimestampError>)
    requires
        timestamp_fits(s@),
    ensures
        ({
            let p = split_on(s@, ':');
            p.len() == 1 && field_value(p[0]) is Ok ==> (r matches Ok(x) && x == field_value(p[0])->Ok_0
                * 1000)
        }),
        ({
            let p = split_on(s@, ':');
            p.len() == 2 && field_value(p[0]) is Ok && field_value(p[1]) is Ok ==> (r matches Ok(x) && x
                == (field_value(p[0])->Ok_0 * 60 + field_value(p[1])->Ok_0) * 1000)
        }),
        ({
            let p = split_on(s@, ':');
            p.len() == 3 && field_value(p[0]) is Ok && field_value(p[1]) is Ok && field_value(p[2]) is Ok
                ==> (r matches Ok(x) && x == (field_value(p[0])->Ok_0 * 3600 + field_value(p[1])->Ok_0 * 60
                + field_value(p[2])->Ok_0) * 1000)
        }),
        split_on(s@, ':').len() > 3 ==> r == Err::<u64, TimestampError>(TimestampError::Format),
        r matches Ok(x) ==> timestamp_millis(s@) == Ok::<int, TimestampError>(x as int),
        r matches Err(e) ==> timestamp_millis(s@) == Err::<int, TimestampError>(e),
{
    match millis_wide(s) {
        Ok(x) => Ok(x as u64),
        Err(e) => Err(e),
    }
}

/// A place in the current playback to seek to.
#[derive(Clone, Copy, Debug, PartialEq, Eq)]
pub enum SeekTarget {
    /// An offset in seconds from the current position.
    Relative(i64),
    /// An absolute position in milliseconds.
    Position(u64),
}

/// Why a text is not a seek target.
#[derive(Clone, Copy, Debug, PartialEq, Eq)]
pub enum SeekError {
    /// Starts with a sign but is not an `i64`.
    InvalidRelativeOffset,
    /// Is not a timestamp.
    Timestamp(TimestampError),
}

/// The text starts with `+` or `-`, and so denotes an offset.
pub open spec fn is_relative(s: Seq<char>) -> bool {
    s.len() > 0 && (s[0] == '+' || s[0] == '-')
}

/// Whether `s` starts with `+` or `-`.
pub fn is_relative_text(s: &str) -> (r: bool)
    ensures
        r == is_relative(s@),
{
    let v = chars_of(s);
    v.len() > 0 && (v[0] == '+' || v[0] == '-')
}

/// Reads a seek target: an offset where `s` starts with a sign, else a
/// timestamp.
pub fn seek_target(s: &str) -> (r: Result<SeekTarget, SeekError>)
    requires
        !is_relative(s@) ==> timestamp_fits(s@),
    ensures
        is_relative(s@) ==> match r {
            Ok(SeekTarget::Relative(x)) => parse_signed(s@) == Some(x as int),
            Ok(SeekTarget::Position(_)) => false,
            Err(e) => e == SeekError::InvalidRelativeOffset && parse_signed(s@) is None,
        },
        !is_relative(s@) ==> match r {
            Ok(SeekTarget::Position(ms)) => timestamp_millis(s@) == Ok::<int, TimestampError>(ms as int),
            Ok(SeekTarget::Relative(_)) => false,
            Err(e) => exists|t: TimestampError| e == SeekError::Timestamp(t) && timestamp_millis(s@) == Err::<int, TimestampError>(t),
        },
        ({
            let p = split_on(s@, ':');
            !is_relative(s@) && p.len() == 3 && field_value(p[0]) is Ok && field_value(p[1]) is Ok
                && field_value(p[2]) is Ok ==> (r matches Ok(SeekTarget::Position(x)) && x == (field_value(
                p[0],
            )->Ok_0 * 3600 + field_value(p[1])->Ok_0 * 60 + field_value(p[2])->Ok_0) * 1000)
        }),
        ({
            let p = split_on(s@, ':');
            !is_relative(s@) && p.len() == 2 && field_value(p[0]) is Ok && field_value(p[1]) is Ok
                ==> (r matches Ok(SeekTarget::Position(x)) && x == (field_value(p[0])->Ok_0 * 60
                + field_value(p[1])->Ok_0) * 1000)
        }),
{
    let v = chars_of(s);
    if v.len() > 0 && (v[0] == '+' || v[0] == '-') {
        assert(v@.subrange(0, v@.len() as int) == s@);
        match parse_signed_range(&v, 0, v.len()) {
            Some(x) => Ok(SeekTarget::Relative(x)),
            None => Err(SeekError::InvalidRelativeOffset),
        }
    } else {
        match parse_timestamp(s) {
            Ok(ms) => Ok(SeekTarget::Position(ms)),
            Err(t) => Err(SeekError::Timestamp(t)),
        }
    }
}

/// A zero hours (or minutes) field in front of a timestamp of at most two
/// fields changes nothing: `0:45:00` is `45:00`, and `0:90` is `90`.
pub proof fn lemma_leading_zero_field(t: Seq<char>)
    requires
        split_on(t, ':').len() <= 2,
    ensures
        timestamp_millis(seq!['0', ':'] + t) == timestamp_millis(t),
{
    let zero = seq!['0'];
    assert(zero.push(':') == seq!['0', ':']);
    lemma_split_on_prefix(zero, t, ':');
    crate::text::lemma_split_on_nonempty(t, ':');
    assert(zero.drop_first() =~= Seq::<char>::empty());
    assert(accumulate(0, zero.drop_first(), 10, 0xffff_ffff_ffff_ffff) == Ok::<int, IntErrorKind>(0));
    assert(field_value(zero) == Ok::<int, IntErrorKind>(0));
    let p = split_on(seq!['0', ':'] + t, ':');
    assert(p[0] == zero);
    assert(p.len() == split_on(t, ':').len() + 1);
    if split_on(t, ':').len() == 1 {
        assert(p[1] == split_on(t, ':')[0]);
    } else {
        assert(p[1] == split_on(t, ':')[0]);
        assert(p[2] == split_on(t, ':')[1]);
    }
}

/// Decimal digits contain no `:`.
proof fn lemma_decimal_no_colon(n: nat)
    ensures
        forall|i: int| 0 <= i < decimal(n).len() ==> #[trigger] decimal(n)[i] != ':',
{
    lemma_decimal_shape(n);
    assert forall|i: int| 0 <= i < decimal(n).len() implies #[trigger] decimal(n)[i] != ':' by {
        assert('0' <= decimal(n)[i] && decimal(n)[i] <= '9');
    }
}

/// `H:M:S` written in decimal is `H` hours, `M` minutes and `S` seconds, in
/// milliseconds: every field counts, each with its own weight.
pub proof fn lemma_hours_minutes_seconds(h: u64, m: u64, sec: u64)
    ensures
        timestamp_millis(decimal(h as nat).push(':') + (decimal(m as nat).push(':') + decimal(sec as nat)))
            == Ok::<int, TimestampError>((h * 3600 + m * 60 + sec) * 1000),
{
    let e = Seq::<char>::empty();
    let (dh, dm, ds) = (decimal(h as nat), decimal(m as nat), decimal(sec as nat));
    lemma_decimal_no_colon(h as nat);
    lemma_decimal_no_colon(m as nat);
    lemma_decimal_no_colon(sec as nat);
    lemma_split_on_append(e, ds, ':');
    assert(e + ds == ds);
    assert(split_on(e, ':') == seq![e]);
    lemma_split_on_prefix(dm, ds, ':');
    lemma_split_on_prefix(dh, dm.push(':') + ds, ':');
    let p = split_on(dh.push(':') + (dm.push(':') + ds), ':');
    assert(p =~= seq![dh, dm, ds]);
    lemma_decimal_roundtrip(h);
    lemma_decimal_roundtrip(m);
    lemma_decimal_roundtrip(sec);
}

/// `M:S` written in decimal is `M` minutes and `S` seconds, in milliseconds.
pub proof fn lemma_minutes_seconds(m: u64, sec: u64)
    ensures
        timestamp_millis(decimal(m as nat).push(':') + decimal(sec as nat)) == Ok::<int, TimestampError>(
            (m * 60 + sec) * 1000,
        ),
{
    let e = Seq::<char>::empty();
    let (dm, ds) = (decimal(m as nat), decimal(sec as nat));
    lemma_decimal_no_colon(m as nat);
    lemma_decimal_no_colon(sec as nat);
    lemma_split_on_append(e, ds, ':');
    assert(e + ds == ds);
    assert(split_on(e, ':') == seq![e]);
    lemma_split_on_prefix(dm, ds, ':');
    assert(split_on(dm.push(':') + ds, ':') =~= seq![dm, ds]);
    lemma_decimal_roundtrip(m);
    lemma_decimal_roundtrip(sec);
}

/// One more second in the seconds field is exactly 1000 more milliseconds.
pub proof fn lemma_next_second(h: u64, m: u64, sec: u64)
    requires
        sec < u64::MAX,
    ensures
        timestamp_millis(decimal(h as nat).push(':') + (decimal(m as nat).push(':') + decimal((sec + 1) as nat)))->Ok_0
            == timestamp_millis(decimal(h as nat).push(':') + (decimal(m as nat).push(':') + decimal(sec as nat)))->Ok_0 + 1000,
{
    lemma_hours_minutes_seconds(h, m, sec);
    lemma_hours_minutes_seconds(h, m, (sec + 1) as u64);
}

/// `+N` and `-N` (N in decimal) are offsets of N seconds forward and back.
pub proof fn lemma_offset_texts(n: u64)
    requires
        n <= 0x7fff_ffff_ffff_ffff,
    ensures
        is_relative(seq!['+'] + decimal(n as nat)),
        parse_signed(seq!['+'] + decimal(n as nat)) == Some(n as int),
        is_relative(seq!['-'] + decimal(n as nat)),
        parse_signed(seq!['-'] + decimal(n as nat)) == Some(-(n as int)),
{
    lemma_decimal_shape(n as nat);
    crate::numparse::lemma_decimal_accumulate(n as nat, 0x7fff_ffff_ffff_ffff);
    crate::numparse::lemma_decimal_accumulate(n as nat, 0x8000_0000_0000_0000);
    assert((seq!['+'] + decimal(n as nat)).drop_first() == decimal(n as nat));
    assert((seq!['-'] + decimal(n as nat)).drop_first() == decimal(n as nat));
    assert((seq!['+'] + decimal(n as nat))[0] == '+');
    assert((seq!['-'] + decimal(n as nat))[0] == '-');
}

} // verus!
