use movie_log::catalog::copy_text;
use movie_log::fingerprint::hex_text;
use movie_log::name::parse_year;
use movie_log::rename::{push_signed, push_size};
use movie_log::text::{
    chars_of, digit_text, matches_at, parse_digits, push_decimal, space, DIGITS_CAP,
};

fn decimal(n: u64) -> String {
    let mut out = String::from(">");
    push_decimal(&mut out, n);
    out
}

#[test]
fn decimal_is_appended_without_leading_zeros() {
    assert_eq!(decimal(0), ">0");
    assert_eq!(decimal(7), ">7");
    assert_eq!(decimal(10), ">10");
    assert_eq!(decimal(1005), ">1005");
    assert_eq!(decimal(u64::MAX), ">18446744073709551615");
    for n in (0..100_000u64).step_by(37) {
        assert_eq!(decimal(n), format!(">{}", n));
    }
}

#[test]
fn digits_have_their_texts() {
    for d in 0..10u8 {
        assert_eq!(digit_text(d), d.to_string());
    }
    for d in 0..16u8 {
        assert_eq!(hex_text(d), format!("{:x}", d));
    }
}

#[test]
fn signed_numbers_and_sizes_are_appended() {
    let mut out = String::from("[");
    push_signed(&mut out, -12);
    out.push('|');
    push_signed(&mut out, 0);
    out.push('|');
    push_signed(&mut out, i16::MIN);
    out.push('|');
    push_size(&mut out, 1230);
    out.push('|');
    push_size(&mut out, 7);
    assert_eq!(out, "[-12|0|-32768|12.3|0.07");
    for v in [i16::MIN, -1, 0, 1, 1080, i16::MAX] {
        let mut text = String::new();
        push_signed(&mut text, v);
        assert_eq!(text, v.to_string());
    }
}

#[test]
fn digits_are_read_up_to_the_cap() {
    let text = chars_of("x0123y18446744073709551615z18446744073709551616");
    assert_eq!(parse_digits(&text, 1, 5), Some(123));
    assert_eq!(parse_digits(&text, 1, 1), Some(0));
    assert_eq!(parse_digits(&text, 0, 5), None);
    assert_eq!(parse_digits(&text, 1, 6), None);
    assert_eq!(parse_digits(&text, 6, 26), Some(u64::MAX as u128));
    assert_eq!(parse_digits(&text, 27, 47), Some(DIGITS_CAP));
    let long = chars_of("99999999999999999999999999999999999999999999999999");
    assert_eq!(parse_digits(&long, 0, long.len()), Some(DIGITS_CAP));
    assert_eq!(DIGITS_CAP, u64::MAX as u128 + 1);
}

#[test]
fn years_are_read_from_a_part_of_a_text() {
    let text = chars_of("(1995)(-7)(+)()(40000)");
    assert_eq!(parse_year(&text, 1, 5), Some(1995));
    assert_eq!(parse_year(&text, 7, 9), Some(-7));
    assert_eq!(parse_year(&text, 11, 12), None);
    assert_eq!(parse_year(&text, 14, 14), None);
    assert_eq!(parse_year(&text, 16, 21), None);
    assert_eq!(parse_year(&text, 0, 5), None);
    assert_eq!(parse_year(&text, 1, 2), Some(1));
}

#[test]
fn a_text_stands_at_a_position_or_not() {
    let hay = chars_of("abcabc");
    let needle = chars_of("bc");
    assert!(matches_at(&hay, &needle, 1));
    assert!(matches_at(&hay, &needle, 4));
    assert!(!matches_at(&hay, &needle, 0));
    assert!(!matches_at(&hay, &needle, 5));
    assert!(!matches_at(&hay, &needle, 6));
    assert!(!matches_at(&hay, &needle, usize::MAX));
    assert!(matches_at(&hay, &chars_of(""), 6));
    assert!(!matches_at(&hay, &chars_of(""), 7));
    assert!(!matches_at(&needle, &hay, 0));
}

#[test]
fn white_space_is_what_the_standard_library_calls_so() {
    for code in 0u32..=0x10_ffff {
        if let Some(c) = char::from_u32(code) {
            assert_eq!(space(c), c.is_whitespace(), "U+{:04X}", code);
        }
    }
}

#[test]
fn an_absent_text_is_copied_as_absent() {
    assert_eq!(copy_text(&None), None);
    assert_eq!(copy_text(&Some(String::from("SRT"))), Some(String::from("SRT")));
}
