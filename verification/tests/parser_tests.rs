use axiomatic::parser::parse_conjecture;

#[test]
fn test_parse_simple_conjecture() {
    let eq = parse_conjecture("(x + 0) = (0 + x)").unwrap();
    assert_eq!(eq.lhs.to_string(), "(x + 0)");
    assert_eq!(eq.rhs.to_string(), "(0 + x)");
}

#[test]
fn test_parse_nested_conjecture() {
    let eq = parse_conjecture("((x + 0) * 1) = (1 * x)").unwrap();
    assert_eq!(eq.lhs.to_string(), "((x + 0) * 1)");
    assert_eq!(eq.rhs.to_string(), "(1 * x)");
}

#[test]
fn test_parse_boolean_logic() {
    let eq = parse_conjecture("!(a & b) = (!a | !b)").unwrap();
    assert_eq!(eq.lhs.to_string(), "!(a & b)");
}

#[test]
fn test_parse_calculus() {
    let eq = parse_conjecture("D(x + 0) = 1").unwrap();
    assert_eq!(eq.lhs.to_string(), "D((x + 0))");
}

#[test]
fn test_parse_errors() {
    assert!(parse_conjecture("x + ").is_err());
    assert!(parse_conjecture("x = y )").is_err());
    assert!(parse_conjecture("x y").is_err());
    let eq = parse_conjecture("a - b = c").unwrap();
    assert_eq!(eq.lhs.to_string(), "(a + -b)");
}
