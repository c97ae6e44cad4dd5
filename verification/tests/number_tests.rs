use sysmon_panel::number::{decimal_chars, i32_to_string, parse_i32, parse_u32, parse_u64, u64_to_string};

fn v(s: &str) -> Vec<char> {
    s.chars().collect()
}

#[test]
fn formats_like_to_string() {
    for n in [0u64, 7, 10, 99, 100, 1234567890, u64::MAX] {
        assert_eq!(u64_to_string(n), n.to_string());
        assert_eq!(decimal_chars(n), v(&n.to_string()));
    }
    for n in [0i32, -1, -45, 100, i32::MIN, i32::MAX] {
        assert_eq!(i32_to_string(n), n.to_string());
    }
}

#[test]
fn parses_like_std() {
    for s in ["", "+", "-", "0", "+12", "-1", " 1", "1 ", "007", "18446744073709551615",
        "18446744073709551616", "4294967295", "4294967296", "12a", "٣"]
    {
        assert_eq!(parse_u64(&v(s)), s.parse::<u64>().ok(), "u64 {:?}", s);
        assert_eq!(parse_u32(&v(s)), s.parse::<u32>().ok(), "u32 {:?}", s);
    }
    for s in ["", "-", "+", "-45", "+45", "-2147483648", "-2147483649", "2147483647", "2147483648",
        "--1", "+-1", "-0"]
    {
        assert_eq!(parse_i32(&v(s)), s.parse::<i32>().ok(), "i32 {:?}", s);
    }
}

#[test]
fn round_trip() {
    for n in [0u32, 1, 255, 256, u32::MAX] {
        assert_eq!(parse_u32(&v(&n.to_string())), Some(n));
    }
    for n in [i32::MIN, -100, 0, i32::MAX] {
        assert_eq!(parse_i32(&v(&i32_to_string(n))), Some(n));
    }
}
