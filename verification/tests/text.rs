use apogeo::text::{contains_bytes, is_space_byte, push_bytes, split_fields, trim_bytes};

fn fields(text: &str, sep: u8) -> Vec<String> {
    split_fields(text.as_bytes(), sep)
        .into_iter()
        .map(|f| String::from_utf8(f.to_vec()).unwrap())
        .collect()
}

#[test]
fn split_fields_yields_one_more_field_than_separators() {
    assert_eq!(fields("", b','), vec![""]);
    assert_eq!(fields("a", b','), vec!["a"]);
    assert_eq!(fields("a,b,c", b','), vec!["a", "b", "c"]);
    assert_eq!(fields("a,", b','), vec!["a", ""]);
    assert_eq!(fields(",a", b','), vec!["", "a"]);
    assert_eq!(fields(",,", b','), vec!["", "", ""]);
    assert_eq!(fields("1:2,3:4", b':'), vec!["1", "2,3", "4"]);
}

#[test]
fn trim_bytes_strips_both_ends() {
    assert_eq!(trim_bytes(b"  5.5 "), b"5.5");
    assert_eq!(trim_bytes(b"33.0\r\n"), b"33.0");
    assert_eq!(trim_bytes(b"\t\x0b\x0c a b \n"), b"a b");
    assert_eq!(trim_bytes(b"   "), b"");
    assert_eq!(trim_bytes(b""), b"");
    assert_eq!(trim_bytes(b"x"), b"x");
}

#[test]
fn white_space_is_the_space_and_tab_to_carriage_return() {
    for b in 0..=255u8 {
        let expected = b == b' ' || (9..=13).contains(&b);
        assert_eq!(is_space_byte(b), expected);
    }
}

#[test]
fn contains_bytes_finds_a_word_anywhere() {
    assert!(contains_bytes(b"Tiempo,Empuje", b"Tiempo"));
    assert!(contains_bytes(b"Tiempo,Empuje", b"Empuje"));
    assert!(contains_bytes(b"xxTiempo", b"Tiempo"));
    assert!(contains_bytes(b"abc", b""));
    assert!(contains_bytes(b"", b""));
    assert!(!contains_bytes(b"Tiemp", b"Tiempo"));
    assert!(!contains_bytes(b"tiempo", b"Tiempo"));
    assert!(!contains_bytes(b"", b"a"));
    assert!(!contains_bytes(b"TiempTiempx", b"Tiempo"));
}

#[test]
fn push_bytes_appends() {
    let mut out = b"ab".to_vec();
    push_bytes(&mut out, b"cd");
    push_bytes(&mut out, b"");
    assert_eq!(out, b"abcd");
}
