use asus_tuf_cpu::order::sort_names;
use asus_tuf_cpu::text::{
    chars_of, dec_string, lines_of, lowered_rows_of, parse_u16, parse_u32, parse_u64, parse_u8,
    split_trimmed, trim_string, words_of,
};

fn cs(s: &str) -> Vec<char> {
    s.chars().collect()
}

fn strs(v: &Vec<Vec<char>>) -> Vec<String> {
    v.iter().map(|x| x.iter().collect()).collect()
}

#[test]
fn lines_match_str_lines() {
    let t = "a\r\nb\n\nc";
    assert_eq!(strs(&lines_of(&cs(t))), vec!["a", "b", "", "c"]);
    assert_eq!(strs(&lines_of(&cs("x\n"))), vec!["x"]);
    assert!(lines_of(&cs("")).is_empty());
}

#[test]
fn words_split_on_unicode_whitespace() {
    assert_eq!(strs(&words_of(&cs("  a\tb\u{00A0}c  "))), vec!["a", "b", "c"]);
}

#[test]
fn trim_and_split_trimmed() {
    assert_eq!(trim_string(&cs("  hi there \n")), "hi there");
    assert_eq!(strs(&split_trimmed(&cs(" 0 , GeForce ,00:01.0"), ',')), vec!["0", "GeForce", "00:01.0"]);
}

#[test]
fn unsigned_parsing_follows_str_parse() {
    assert_eq!(parse_u64(&cs("18446744073709551615")), Some(u64::MAX));
    assert_eq!(parse_u64(&cs("18446744073709551616")), None);
    assert_eq!(parse_u64(&cs("+7")), Some(7));
    assert_eq!(parse_u64(&cs("+")), None);
    assert_eq!(parse_u64(&cs("-1")), None);
    assert_eq!(parse_u64(&cs("")), None);
    assert_eq!(parse_u32(&cs("4294967296")), None);
    assert_eq!(parse_u16(&cs("65535")), Some(65535));
    assert_eq!(parse_u8(&cs("256")), None);
    assert_eq!(parse_u8(&cs("255")), Some(255));
}

#[test]
fn decimal_roundtrip_concrete() {
    for n in [0u64, 9, 10, 1234567890, u64::MAX] {
        let d = dec_string(n);
        assert_eq!(d, n.to_string());
        assert_eq!(parse_u64(&chars_of(&d)), Some(n));
    }
}

#[test]
fn lowered_rows_pair_each_line() {
    let rows = lowered_rows_of("Model Name\nÄB");
    assert_eq!(rows, vec![("Model Name".to_string(), "model name".to_string()), ("ÄB".to_string(), "äb".to_string())]);
}

#[test]
fn names_sort_like_vec_sort() {
    let mut v = vec!["card1".to_string(), "card0".to_string(), "Card".to_string(), "card10".to_string(), "é".to_string()];
    let mut expected = v.clone();
    expected.sort();
    sort_names(&mut v);
    assert_eq!(v, expected);
}
