use tram_time::text::{chars_of, contains_chars, parse_decimal, split_chars};

fn chars(s: &str) -> Vec<char> {
    s.chars().collect()
}

#[test]
fn chars_of_keeps_every_character() {
    assert_eq!(chars_of("Théâtre"), vec!['T', 'h', 'é', 'â', 't', 'r', 'e']);
    assert_eq!(chars_of(""), Vec::<char>::new());
}

#[test]
fn parse_decimal_values() {
    assert_eq!(parse_decimal(&chars("0")), Some(0));
    assert_eq!(parse_decimal(&chars("327")), Some(327));
    assert_eq!(parse_decimal(&chars("+12")), Some(12));
    assert_eq!(parse_decimal(&chars("18446744073709551615")), Some(u64::MAX));
}

#[test]
fn parse_decimal_rejects() {
    assert_eq!(parse_decimal(&chars("")), None);
    assert_eq!(parse_decimal(&chars("+")), None);
    assert_eq!(parse_decimal(&chars("-1")), None);
    assert_eq!(parse_decimal(&chars("1 2")), None);
    assert_eq!(parse_decimal(&chars("18446744073709551616")), None);
}

#[test]
fn split_chars_pieces() {
    let pieces = split_chars(&chars("a,,bc,"), ',');
    assert_eq!(pieces, vec![chars("a"), chars(""), chars("bc"), chars("")]);
    assert_eq!(split_chars(&chars(""), ','), vec![Vec::<char>::new()]);
}

#[test]
fn contains_chars_finds_substrings() {
    assert!(contains_chars(&chars("Pas de prochain passage"), &chars("prochain")));
    assert!(contains_chars(&chars("abc"), &chars("")));
    assert!(!contains_chars(&chars("ab"), &chars("abc")));
    assert!(!contains_chars(&chars("prochain"), &chars("Prochain")));
}
