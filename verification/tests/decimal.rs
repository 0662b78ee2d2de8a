use http_server::decimal::{is_decimal, parse_decimal, render_decimal};

#[test]
fn parses_plain_numbers() {
    assert_eq!(parse_decimal(b"0"), Some(0));
    assert_eq!(parse_decimal(b"4"), Some(4));
    assert_eq!(parse_decimal(b"1024"), Some(1024));
}

#[test]
fn parses_leading_plus_and_zeros() {
    assert_eq!(parse_decimal(b"+4"), Some(4));
    assert_eq!(parse_decimal(b"007"), Some(7));
    assert_eq!(parse_decimal(b"+000"), Some(0));
}

#[test]
fn rejects_text_that_is_no_number() {
    assert_eq!(parse_decimal(b""), None);
    assert_eq!(parse_decimal(b"+"), None);
    assert_eq!(parse_decimal(b"-1"), None);
    assert_eq!(parse_decimal(b"4a"), None);
    assert_eq!(parse_decimal(b" 4"), None);
    assert_eq!(parse_decimal(b"4 "), None);
    assert_eq!(parse_decimal(b"++4"), None);
    assert_eq!(parse_decimal(b"4+"), None);
    assert_eq!(parse_decimal(b"0x10"), None);
    assert_eq!(parse_decimal(&[0xff, 0x31]), None);
}

#[test]
fn parses_the_largest_number() {
    let text = usize::MAX.to_string();
    assert_eq!(parse_decimal(text.as_bytes()), Some(usize::MAX));
}

#[test]
fn rejects_numbers_that_are_too_large() {
    let mut text = usize::MAX.to_string().into_bytes();
    let last: usize = text.len() - 1;
    text[last] += 1;
    assert_eq!(parse_decimal(&text), None);
    assert_eq!(parse_decimal(b"99999999999999999999999999999999999999999"), None);
    let mut longer = usize::MAX.to_string().into_bytes();
    longer.push(b'0');
    assert_eq!(parse_decimal(&longer), None);
}

#[test]
fn parse_agrees_with_std() {
    let texts: [&str; 12] =
        ["0", "1", "+1", "-1", "", "+", "12345", "0012", "1 2", "18446744073709551615",
         "18446744073709551616", "a"];
    for text in texts {
        assert_eq!(parse_decimal(text.as_bytes()), text.parse::<usize>().ok(), "{}", text);
    }
}

#[test]
fn is_decimal_ignores_the_size() {
    assert!(is_decimal(b"0"));
    assert!(is_decimal(b"+12"));
    assert!(is_decimal(b"99999999999999999999999999999999999999999"));
    assert!(!is_decimal(b""));
    assert!(!is_decimal(b"+"));
    assert!(!is_decimal(b"12x"));
    assert!(!is_decimal(b"-12"));
}

#[test]
fn renders_without_leading_zeros() {
    assert_eq!(render_decimal(0), b"0");
    assert_eq!(render_decimal(5), b"5");
    assert_eq!(render_decimal(10), b"10");
    assert_eq!(render_decimal(405), b"405");
    assert_eq!(render_decimal(1024), b"1024");
}

#[test]
fn renders_the_largest_number() {
    assert_eq!(render_decimal(usize::MAX), usize::MAX.to_string().into_bytes());
}

#[test]
fn rendering_then_parsing_gives_the_number_back() {
    let numbers: [usize; 9] = [0, 1, 9, 10, 99, 100, 12345, 4294967295, usize::MAX];
    for n in numbers {
        assert_eq!(parse_decimal(&render_decimal(n)), Some(n));
    }
}
