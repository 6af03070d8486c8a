use vmtrans::decimal::{push_int, push_nat, read_int};
use vmtrans::text::{find_char, find_comment, split_lines, split_words, strip, to_chars};

fn chars(s: &str) -> Vec<char> {
    s.chars().collect()
}

fn texts(rows: Vec<Vec<char>>) -> Vec<String> {
    rows.into_iter().map(|r| r.into_iter().collect()).collect()
}

#[test]
fn numbers_are_read_in_any_bounds() {
    let all = |s: &str| read_int(&chars(s), i64::MIN, i64::MAX);
    assert_eq!(all("0"), Some(0));
    assert_eq!(all("-0"), Some(0));
    assert_eq!(all("+17"), Some(17));
    assert_eq!(all("0009223372036854775807"), Some(i64::MAX));
    assert_eq!(all("-9223372036854775808"), Some(i64::MIN));
    assert_eq!(all("9223372036854775808"), None);
    assert_eq!(all("-9223372036854775809"), None);
    assert_eq!(all("99999999999999999999999999999999999999999999"), None);
    assert_eq!(all(""), None);
    assert_eq!(all("-"), None);
    assert_eq!(all("+"), None);
    assert_eq!(all("1 "), None);
    assert_eq!(all("--1"), None);
    assert_eq!(all("٣"), None);
    assert_eq!(read_int(&chars("5"), 6, 10), None);
    assert_eq!(read_int(&chars("5"), 5, 5), Some(5));
    assert_eq!(read_int(&chars("5"), 10, 0), None);
    assert_eq!(read_int(&chars("-32769"), -32768, 32767), None);
    assert_eq!(read_int(&chars("-32768"), -32768, 32767), Some(-32768));
}

#[test]
fn numbers_are_written_in_decimal() {
    let mut out = String::from("n=");
    push_int(&mut out, 0);
    push_int(&mut out, -1);
    push_int(&mut out, 2147483647);
    push_int(&mut out, -2147483648);
    push_nat(&mut out, 18446744073709551615);
    assert_eq!(out, "n=0-12147483647-214748364818446744073709551615");
    for n in [0, 7, -7, 10, 99, -100, 32767, -32768, 65536] {
        let mut s = String::new();
        push_int(&mut s, n);
        assert_eq!(s, n.to_string());
        assert_eq!(read_int(&chars(&s), -100000, 100000), Some(n as i64));
    }
}

#[test]
fn words_and_lines() {
    assert_eq!(to_chars("héé"), chars("héé"));
    assert_eq!(texts(split_words(&chars("  push\tconstant \u{a0} 7\n"))), vec!["push", "constant", "7"]);
    assert_eq!(texts(split_words(&chars(" \t "))), Vec::<String>::new());
    assert_eq!(texts(split_words(&chars("a"))), vec!["a"]);
    assert_eq!(texts(split_lines(&chars("a\nb\r\n\nc\r"))), vec!["a", "b", "", "c\r"]);
    assert_eq!(texts(split_lines(&chars("\r\n"))), vec![""]);
    assert_eq!(texts(split_lines(&chars("x\n"))), vec!["x"]);
    assert_eq!(texts(split_lines(&chars(""))), Vec::<String>::new());
    for text in ["a\nb\r\n\nc\r", "", "\n", "\r", "one", "\n\nx\r\r\n"] {
        let want: Vec<String> = text.lines().map(|l| l.to_string()).collect();
        assert_eq!(texts(split_lines(&chars(text))), want);
        let want: Vec<String> = text.split_whitespace().map(|l| l.to_string()).collect();
        assert_eq!(texts(split_words(&chars(text))), want);
    }
    assert_eq!(strip(&chars(" D = M ;\tJ\u{2003}GT ")), chars("D=M;JGT"));
    assert_eq!(find_char(&chars("D=M;JGT"), ';'), 3);
    assert_eq!(find_char(&chars("D=M"), ';'), 3);
    assert_eq!(find_comment(&chars("a/b//c//d")), 3);
    assert_eq!(find_comment(&chars("a/b/")), 4);
}
