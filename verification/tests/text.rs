use pomodoro::text::{
    clamp_i64_to, decimal_len, is_text_before, parse_number, push_decimal, push_padded, same_text,
};

fn padded(n: u64, width: usize) -> String {
    let mut out = String::from(">");
    push_padded(&mut out, n, width);
    out
}

#[test]
fn push_decimal_appends_the_digits() {
    let mut out = String::from("n=");
    push_decimal(&mut out, 0);
    push_decimal(&mut out, 7);
    push_decimal(&mut out, 1500);
    push_decimal(&mut out, u64::MAX);
    assert_eq!(out, "n=07150018446744073709551615");
}

#[test]
fn push_padded_pads_to_the_width_and_never_cuts() {
    assert_eq!(padded(5, 2), ">05");
    assert_eq!(padded(0, 2), ">00");
    assert_eq!(padded(59, 2), ">59");
    assert_eq!(padded(120, 2), ">120");
    assert_eq!(padded(7, 4), ">0007");
    assert_eq!(padded(2024, 4), ">2024");
    assert_eq!(padded(3, 0), ">3");
    assert_eq!(padded(u64::MAX, 25), ">0000018446744073709551615");
}

#[test]
fn decimal_len_counts_digits() {
    assert_eq!(decimal_len(0), 1);
    assert_eq!(decimal_len(9), 1);
    assert_eq!(decimal_len(10), 2);
    assert_eq!(decimal_len(99_999), 5);
    assert_eq!(decimal_len(u64::MAX), 20);
}

#[test]
fn parse_number_reads_what_the_standard_parser_reads() {
    let cases = [
        "", "0", "1500", "+90", "+", "-5", "- 5", " 12", "12 ", "1_000", "0x10", "007", "++1", "1+", "12a",
        "18446744073709551615", "18446744073709551616", "99999999999999999999999", "+18446744073709551615",
        "٣", "1.5", "+0",
    ];
    for text in cases {
        assert_eq!(parse_number(text), text.parse::<u64>().ok(), "{:?}", text);
    }
    assert_eq!(parse_number("1500"), Some(1500));
    assert_eq!(parse_number("+90"), Some(90));
    assert_eq!(parse_number("18446744073709551616"), None);
    assert_eq!(parse_number(""), None);
}

#[test]
fn clamp_moves_the_sum_into_the_bounds() {
    assert_eq!(clamp_i64_to(1500, 60, 60, 7200), 1560);
    assert_eq!(clamp_i64_to(1500, -1440, 60, 7200), 60);
    assert_eq!(clamp_i64_to(1500, -1441, 60, 7200), 60);
    assert_eq!(clamp_i64_to(1500, 5700, 60, 7200), 7200);
    assert_eq!(clamp_i64_to(1500, 5701, 60, 7200), 7200);
    assert_eq!(clamp_i64_to(u64::MAX, i64::MAX, 60, 7200), 7200);
    assert_eq!(clamp_i64_to(0, i64::MIN, 60, 7200), 60);
    assert_eq!(clamp_i64_to(u64::MAX, i64::MIN, 0, u64::MAX), u64::MAX - (1u64 << 63));
}

#[test]
fn texts_are_ordered_like_strings() {
    let words = ["", "a", "A", "ab", "b", "Study", "Work", "work", "é", "z", "Stud", "Studying", "█", "😀"];
    for a in words {
        for b in words {
            assert_eq!(is_text_before(a, b), a < b, "{:?} {:?}", a, b);
            assert_eq!(same_text(a, b), a == b, "{:?} {:?}", a, b);
        }
    }
}
