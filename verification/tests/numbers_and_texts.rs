use openjd::params::floats::{equal, finite_bits, less, nan_bits, to_i64};
use openjd::text::{
    i64_text, join_texts, parse_i64, push_hex, sort_texts, str_le, u64_text, usize_text,
};

fn texts(v: &[&str]) -> Vec<String> {
    v.iter().map(|s| s.to_string()).collect()
}

const FLOATS: [f64; 15] = [
    0.0,
    -0.0,
    1.0,
    -1.0,
    0.5,
    1.5,
    f64::MIN_POSITIVE,
    f64::MAX,
    f64::MIN,
    f64::INFINITY,
    f64::NEG_INFINITY,
    f64::NAN,
    9007199254740993.0,
    9223372036854775808.0,
    -9223372036854775808.0,
];

#[test]
fn floats_compare_as_numbers() {
    for a in FLOATS {
        assert_eq!(nan_bits(a.to_bits()), a.is_nan());
        assert_eq!(finite_bits(a.to_bits()), a.is_finite());
        for b in FLOATS {
            assert_eq!(less(a.to_bits(), b.to_bits()), a < b, "{a} < {b}");
            assert_eq!(equal(a.to_bits(), b.to_bits()), a == b, "{a} == {b}");
        }
    }
}

#[test]
fn whole_floats_are_integers() {
    for a in FLOATS {
        let whole = a.fract() == 0.0 && a >= i64::MIN as f64 && a < i64::MAX as f64;
        let expected = if whole { Some(a as i64) } else { None };
        assert_eq!(to_i64(a.to_bits()), expected, "{a}");
    }
    for i in [0, 1, -7, 1 << 52, -(1 << 60), i64::MIN] {
        assert_eq!(to_i64((i as f64).to_bits()), Some(i));
    }
}

#[test]
fn numbers_are_written_in_decimal() {
    for n in [0, 7, 10, 99, 100, u64::MAX] {
        assert_eq!(u64_text(n), n.to_string());
    }
    for i in [0, -1, 42, i64::MIN, i64::MAX] {
        assert_eq!(i64_text(i), i.to_string());
    }
    assert_eq!(usize_text(usize::MAX), usize::MAX.to_string());
}

#[test]
fn digits_are_written_in_hexadecimal() {
    for n in [0, 9, 10, 15, 16, 0xdead_beef, u128::MAX] {
        let mut s = String::new();
        push_hex(&mut s, n, 32);
        assert_eq!(s, format!("{n:032x}"));
    }
}

#[test]
fn integers_are_read_as_the_standard_library_reads_them() {
    for s in [
        "0", "-0", "+5", "007", "-9223372036854775808", "9223372036854775807",
        "9223372036854775808", "-9223372036854775809", "", "-", "+", "1 ", " 1", "1.0", "1_0",
        "0x1", "٣", "--1", "99999999999999999999999",
    ] {
        assert_eq!(parse_i64(s), s.parse::<i64>().ok(), "{s}");
    }
}

#[test]
fn texts_are_sorted_as_the_standard_library_sorts_them() {
    let v = texts(&["b", "", "a", "ab", "é", "a/b", "a-b", "\u{10000}", "\u{ffff}", "a"]);
    let mut expected = v.clone();
    expected.sort();
    assert_eq!(sort_texts(&v), expected);
    for a in &v {
        for b in &v {
            assert_eq!(str_le(a, b), a <= b, "{a} {b}");
        }
    }
}

#[test]
fn texts_are_joined() {
    assert_eq!(join_texts(&texts(&["a", "b", "c"]), ", "), "a, b, c");
    assert_eq!(join_texts(&texts(&["a"]), ", "), "a");
    assert_eq!(join_texts(&vec![], ", "), "");
}
