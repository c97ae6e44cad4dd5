use sysmon_panel::text::{
    chars_of, contains_exec, fields_of, is_whitespace, keep_number_chars, lines_of,
    replace_all_exec, split_chars, starts_with_exec, string_from, trim_of, append_padded,
    append_truncated,
};

fn v(s: &str) -> Vec<char> {
    s.chars().collect()
}

fn strs(vs: Vec<Vec<char>>) -> Vec<String> {
    vs.into_iter().map(|c| c.into_iter().collect()).collect()
}

#[test]
fn chars_round_trip() {
    assert_eq!(chars_of("héllo █"), v("héllo █"));
    assert_eq!(string_from(&v("héllo █")), "héllo █");
}

#[test]
fn whitespace_matches_std() {
    for c in ['\t', '\n', '\u{b}', '\u{c}', '\r', ' ', '\u{85}', '\u{a0}', '\u{1680}', '\u{2000}',
        '\u{200a}', '\u{2028}', '\u{2029}', '\u{202f}', '\u{205f}', '\u{3000}', 'a', '0', '\u{200b}',
        '\u{1f}', '█']
    {
        assert_eq!(is_whitespace(c), c.is_whitespace(), "{:?}", c);
    }
}

#[test]
fn lines_like_std() {
    for s in ["", "\n", "a", "a\n", "a\r\nb\n", "a\r", "a\n\nb", "\r\n", "x\ry\nz\r\n", "a\n\n"] {
        let expected: Vec<String> = s.lines().map(|l| l.to_string()).collect();
        assert_eq!(strs(lines_of(&v(s))), expected, "{:?}", s);
    }
}

#[test]
fn fields_like_std() {
    for s in ["", "   ", "a", "  a b\t c ", "Mem:  123 kB\n", "x\u{3000}y"] {
        let expected: Vec<String> = s.split_whitespace().map(|l| l.to_string()).collect();
        assert_eq!(strs(fields_of(&v(s))), expected, "{:?}", s);
    }
}

#[test]
fn split_like_std() {
    for s in ["", "=", "a=b", "Link Quality=70/70  Signal level=-45 dBm", "==x"] {
        let expected: Vec<String> = s.split('=').map(|l| l.to_string()).collect();
        assert_eq!(strs(split_chars(&v(s), '=')), expected, "{:?}", s);
    }
}

#[test]
fn trim_like_std() {
    for s in ["", "  ", " 42\n", "a b", "\u{a0}x\u{2028}"] {
        let t: String = trim_of(&v(s)).into_iter().collect();
        assert_eq!(t, s.trim(), "{:?}", s);
    }
}

#[test]
fn search() {
    assert!(contains_exec(&v("%Cpu(s):  1.0 us"), &v("Cpu(s)")));
    assert!(!contains_exec(&v("Cpu(s"), &v("Cpu(s)")));
    assert!(contains_exec(&v("abc"), &v("")));
    assert!(starts_with_exec(&v("yes:home"), &v("yes:")));
    assert!(!starts_with_exec(&v("no:yes:"), &v("yes:")));
    assert!(!starts_with_exec(&v("ye"), &v("yes:")));
}

#[test]
fn replace_like_std() {
    for s in ["yes:home", "yes:yes:x", "ayes:b", "yyes:es:", "no", ""] {
        let r: String = replace_all_exec(&v(s), &v("yes:"), &v("")).into_iter().collect();
        assert_eq!(r, s.replace("yes:", ""), "{:?}", s);
    }
    let r: String = replace_all_exec(&v("aXbXX"), &v("X"), &v("yz")).into_iter().collect();
    assert_eq!(r, "ayzbyzyz");
}

#[test]
fn number_chars_filter() {
    assert_eq!(keep_number_chars("12.3 GB"), "12.3");
    assert_eq!(keep_number_chars("512 B"), "512");
    assert_eq!(keep_number_chars("kB"), "");
}

#[test]
fn width_and_precision() {
    let mut s = String::from("[");
    append_padded(&mut s, &v("home"), 8);
    assert_eq!(s, format!("[{:8}", "home"));
    let mut s = String::new();
    append_padded(&mut s, &v("a-very-long-name"), 4);
    assert_eq!(s, "a-very-long-name");
    let mut s = String::new();
    append_truncated(&mut s, &v("wlan0"), 3);
    assert_eq!(s, format!("{:.3}", "wlan0"));
    let mut s = String::new();
    append_truncated(&mut s, &v("lo"), 3);
    assert_eq!(s, "lo");
}
