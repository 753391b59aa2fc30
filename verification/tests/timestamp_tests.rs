use smartycrank::numparse::IntErrorKind;
use smartycrank::timestamp::{parse_timestamp, seek_target, timestamp_overflows, SeekError, SeekTarget, TimestampError};

#[test]
fn hours_minutes_seconds() {
    assert_eq!(parse_timestamp("1:30:00"), Ok(5_400_000));
}

#[test]
fn minutes_seconds() {
    assert_eq!(parse_timestamp("45:00"), Ok(2_700_000));
    assert_eq!(parse_timestamp("2:05"), Ok(125_000));
}

#[test]
fn plain_seconds() {
    assert_eq!(parse_timestamp("90"), Ok(90_000));
    assert_eq!(parse_timestamp("0"), Ok(0));
}

#[test]
fn leading_plus_is_a_digit_sign() {
    assert_eq!(parse_timestamp("+5"), Ok(5_000));
}

#[test]
fn fields_are_not_range_checked() {
    assert_eq!(parse_timestamp("0:90:75"), Ok((90 * 60 + 75) * 1000));
}

#[test]
fn bad_fields() {
    assert_eq!(parse_timestamp(""), Err(TimestampError::Parse(IntErrorKind::Empty)));
    assert_eq!(parse_timestamp("1:"), Err(TimestampError::Parse(IntErrorKind::Empty)));
    assert_eq!(parse_timestamp("a:00"), Err(TimestampError::Parse(IntErrorKind::InvalidDigit)));
    assert_eq!(parse_timestamp("1:x:00"), Err(TimestampError::Parse(IntErrorKind::InvalidDigit)));
    assert_eq!(parse_timestamp("-5"), Err(TimestampError::Parse(IntErrorKind::InvalidDigit)));
    assert_eq!(parse_timestamp("+"), Err(TimestampError::Parse(IntErrorKind::InvalidDigit)));
    assert_eq!(
        parse_timestamp("18446744073709551616"),
        Err(TimestampError::Parse(IntErrorKind::PosOverflow))
    );
}

#[test]
fn too_many_fields() {
    assert_eq!(parse_timestamp("1:2:3:4"), Err(TimestampError::Format));
    assert_eq!(parse_timestamp("x:2:3:4"), Err(TimestampError::Format));
}

#[test]
fn overflow_is_detected_before_parsing() {
    assert!(timestamp_overflows("18446744073709551615"));
    assert!(timestamp_overflows("18446744073709552:00"));
    assert!(!timestamp_overflows("18446744073709551"));
    assert!(!timestamp_overflows("nonsense"));
    assert_eq!(parse_timestamp("18446744073709551"), Ok(18_446_744_073_709_551_000));
}

#[test]
fn seek_relative_offsets() {
    assert_eq!(seek_target("+60"), Ok(SeekTarget::Relative(60)));
    assert_eq!(seek_target("-30"), Ok(SeekTarget::Relative(-30)));
    assert_eq!(seek_target("-9223372036854775808"), Ok(SeekTarget::Relative(i64::MIN)));
    assert_eq!(seek_target("+9223372036854775808"), Err(SeekError::InvalidRelativeOffset));
    assert_eq!(seek_target("+1:00"), Err(SeekError::InvalidRelativeOffset));
    assert_eq!(seek_target("-"), Err(SeekError::InvalidRelativeOffset));
}

#[test]
fn seek_absolute_positions() {
    assert_eq!(seek_target("1:30:00"), Ok(SeekTarget::Position(5_400_000)));
    assert_eq!(seek_target("45:00"), Ok(SeekTarget::Position(2_700_000)));
    assert_eq!(
        seek_target("1:2:3:4"),
        Err(SeekError::Timestamp(TimestampError::Format))
    );
}
