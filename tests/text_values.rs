use tinyscript::text::{parse_int, push_int};

fn chars(s: &str) -> Vec<char> {
    s.chars().collect()
}

#[test]
fn parse_int_accepts_signs_and_space() {
    assert_eq!(parse_int(&chars("  -12\t")), Some(-12));
    assert_eq!(parse_int(&chars("+7")), Some(7));
    assert_eq!(parse_int(&chars("2147483647")), Some(2147483647));
    assert_eq!(parse_int(&chars("-2147483648")), Some(-2147483648));
}

#[test]
fn parse_int_rejects() {
    assert_eq!(parse_int(&chars("")), None);
    assert_eq!(parse_int(&chars("-")), None);
    assert_eq!(parse_int(&chars("1 2")), None);
    assert_eq!(parse_int(&chars("2147483648")), None);
    assert_eq!(parse_int(&chars("99999999999999999999")), None);
}

#[test]
fn decimal_text() {
    let mut v = Vec::new();
    push_int(&mut v, -2147483648);
    assert_eq!(v.iter().collect::<String>(), "-2147483648");
    let mut w = Vec::new();
    push_int(&mut w, 0);
    assert_eq!(w.iter().collect::<String>(), "0");
}
