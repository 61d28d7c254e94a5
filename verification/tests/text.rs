use pgrust_nextest_repro::text::{parse_i64, parse_usize, push_decimal, push_padded, push_signed};

fn padded(n: u64, width: usize) -> String {
    let mut out = String::from("<");
    push_padded(&mut out, n, width);
    out
}

#[test]
fn decimals_are_appended() {
    for n in [0, 7, 10, 99, 100, 1_234_567, u32::MAX as u64, u64::MAX] {
        let mut out = String::from("n=");
        push_decimal(&mut out, n);
        assert_eq!(out, format!("n={n}"));
    }
}

#[test]
fn padding_fills_up_and_never_cuts() {
    assert_eq!(padded(7, 3), "<007");
    assert_eq!(padded(42, 3), "<042");
    assert_eq!(padded(199, 3), "<199");
    assert_eq!(padded(1000, 3), "<1000");
    assert_eq!(padded(0, 4), "<0000");
    assert_eq!(padded(5, 0), "<5");
    for n in 0..1200 {
        for width in 0..6 {
            assert_eq!(padded(n, width), format!("<{n:0width$}"));
        }
    }
}

#[test]
fn signed_decimals_are_appended() {
    for n in [0, 1, -1, -10, 192, i64::MAX, i64::MIN] {
        let mut out = String::new();
        push_signed(&mut out, n);
        assert_eq!(out, format!("{n}"));
    }
}

#[test]
fn numbers_read_as_std_reads_them() {
    let texts = [
        "", "+", "-", "0", "+0", "-0", "007", "12", "+12", "-12", "--1", "+-1", " 1", "1 ", "1_0",
        "0x10", "ten", "9223372036854775807", "9223372036854775808", "-9223372036854775808",
        "-9223372036854775809", "18446744073709551615", "18446744073709551616",
        "99999999999999999999999999999999999999999999", "1\u{0661}", "\u{ff11}",
    ];
    for text in texts {
        assert_eq!(parse_usize(text), text.parse::<usize>().ok(), "{text}");
        assert_eq!(parse_i64(text), text.parse::<i64>().ok(), "{text}");
    }
}

#[test]
fn what_is_written_reads_back() {
    for n in [0, 9, 10, 4095, u64::MAX] {
        assert_eq!(parse_usize(&padded(n, 25)[1..]), Some(n as usize));
    }
    for n in [0, -1, 1, i64::MIN, i64::MAX] {
        let mut out = String::new();
        push_signed(&mut out, n);
        assert_eq!(parse_i64(&out), Some(n));
    }
}
