use slickcmd::calculator::{
    accepts_input, parse_parts, radix_literal_decimal, PartType,
};

fn chars(s: &str) -> Vec<char> {
    s.chars().collect()
}

#[test]
fn test_parse_parts_basic() {
    let parts = parse_parts(&chars("a = 1 + 2.5")).unwrap();
    let texts: Vec<&str> = parts.iter().map(|p| p.text.as_str()).collect();
    assert_eq!(texts, vec!["a", "=", "1", "+", "2.5"]);
    assert!(matches!(parts[0].typ, PartType::Variable));
    assert!(matches!(parts[1].typ, PartType::Operator));
    assert!(matches!(parts[2].typ, PartType::Number));
    assert!(matches!(parts[4].typ, PartType::Number));
}

#[test]
fn test_parse_parts_rejections() {
    // a second dot inside one number
    assert!(parse_parts(&chars("1.2.3")).is_none());
    // a letter directly after digits
    assert!(parse_parts(&chars("12x")).is_none());
    // a character with no meaning in a calculation
    assert!(parse_parts(&chars("a & b")).is_none());
}

#[test]
fn test_parse_parts_identifier_with_digits() {
    let parts = parse_parts(&chars("x2 + 1")).unwrap();
    assert_eq!(parts[0].text, "x2");
    assert!(matches!(parts[0].typ, PartType::Variable));
}

#[test]
fn test_accepts_input_expressions() {
    assert!(accepts_input("1 + 2"));
    assert!(accepts_input("a = 3; a * 2"));
    assert!(accepts_input("sqrt(2)"));
    // an undefined variable that is neither assigned nor called
    assert!(!accepts_input("b + 1"));
    assert!(!accepts_input(""));
    assert!(!accepts_input("hello world"));
}

#[test]
fn test_accepts_input_radix_literals() {
    assert!(accepts_input("0x1F"));
    assert!(accepts_input("0o17"));
    assert!(accepts_input("0b1011"));
    assert!(!accepts_input("0xZZ"));
    assert!(!accepts_input("0b12"));
}

#[test]
fn test_radix_literal_decimal() {
    assert_eq!(radix_literal_decimal(&chars("1F"), 16).unwrap(), "31");
    assert_eq!(radix_literal_decimal(&chars("ff"), 16).unwrap(), "255");
    assert_eq!(radix_literal_decimal(&chars("17"), 8).unwrap(), "15");
    assert_eq!(radix_literal_decimal(&chars("1011"), 2).unwrap(), "11");
    assert!(radix_literal_decimal(&chars("G"), 16).is_none());
}
