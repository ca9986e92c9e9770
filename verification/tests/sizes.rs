//! Size-string parsing: units, case, whitespace, and the failure modes.

use ublk_vram::parse::{parse_size_string, SizeError};

const MIB: u64 = 1024 * 1024;
const GIB: u64 = 1024 * 1024 * 1024;

#[test]
fn plain_number_defaults_to_mebibytes() {
    assert_eq!(parse_size_string("1024"), Ok(1024 * MIB));
    assert_eq!(parse_size_string("0"), Ok(0));
    assert_eq!(parse_size_string("1"), Ok(MIB));
}

#[test]
fn suffixes_scale_the_number() {
    assert_eq!(parse_size_string("512M"), Ok(512 * MIB));
    assert_eq!(parse_size_string("512MB"), Ok(512 * MIB));
    assert_eq!(parse_size_string("2G"), Ok(2 * GIB));
    assert_eq!(parse_size_string("2GB"), Ok(2 * GIB));
}

#[test]
fn suffixes_ignore_case() {
    assert_eq!(parse_size_string("512m"), Ok(512 * MIB));
    assert_eq!(parse_size_string("512mb"), Ok(512 * MIB));
    assert_eq!(parse_size_string("512mB"), Ok(512 * MIB));
    assert_eq!(parse_size_string("2g"), Ok(2 * GIB));
    assert_eq!(parse_size_string("2gb"), Ok(2 * GIB));
    assert_eq!(parse_size_string("2Gb"), Ok(2 * GIB));
}

#[test]
fn surrounding_whitespace_is_ignored() {
    assert_eq!(parse_size_string("  3M  "), Ok(3 * MIB));
    assert_eq!(parse_size_string("\t7g\n"), Ok(7 * GIB));
    assert_eq!(parse_size_string(" 42 "), Ok(42 * MIB));
}

#[test]
fn missing_number_is_invalid() {
    assert_eq!(parse_size_string(""), Err(SizeError::InvalidNumber));
    assert_eq!(parse_size_string("   "), Err(SizeError::InvalidNumber));
    assert_eq!(parse_size_string("M"), Err(SizeError::InvalidNumber));
    assert_eq!(parse_size_string("x12"), Err(SizeError::InvalidNumber));
}

#[test]
fn number_beyond_the_size_type_is_invalid() {
    // twenty nines exceed what a 64-bit count can hold
    assert_eq!(parse_size_string("99999999999999999999"), Err(SizeError::InvalidNumber));
    // ... even when the suffix is bad: the number is read first
    assert_eq!(parse_size_string("99999999999999999999T"), Err(SizeError::InvalidNumber));
}

#[test]
fn unknown_suffix_is_refused() {
    assert_eq!(parse_size_string("10T"), Err(SizeError::InvalidSuffix));
    assert_eq!(parse_size_string("10K"), Err(SizeError::InvalidSuffix));
    assert_eq!(parse_size_string("10MBX"), Err(SizeError::InvalidSuffix));
    assert_eq!(parse_size_string("10GG"), Err(SizeError::InvalidSuffix));
    assert_eq!(parse_size_string("10 M"), Err(SizeError::InvalidSuffix));
    assert_eq!(parse_size_string("12.5G"), Err(SizeError::InvalidSuffix));
}

#[test]
fn scaled_count_beyond_the_size_type_is_too_large() {
    // 2^44 mebibytes and 2^34 gibibytes both reach 2^64
    assert_eq!(parse_size_string("17592186044416"), Err(SizeError::TooLarge));
    assert_eq!(parse_size_string("17179869184G"), Err(SizeError::TooLarge));
    // the largest counts that still fit
    assert_eq!(parse_size_string("17592186044415M"), Ok(17592186044415 * MIB));
    assert_eq!(parse_size_string("17179869183g"), Ok(17179869183 * GIB));
}
