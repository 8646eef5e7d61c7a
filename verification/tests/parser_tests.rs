use exprc::parser::{Node, ParseError, Parser};
use exprc::token::tokenize;

fn parse_str(s: &str) -> Result<Node, ParseError> {
    let tokens = tokenize(s.to_string()).unwrap();
    let mut parser = Parser::new(tokens);
    parser.parse()
}

fn num(v: u32) -> Box<Node> {
    Box::new(Node::Num(v))
}

#[test]
fn multiplication_binds_tighter_than_addition() {
    let tree = parse_str("1+2*3").unwrap();
    assert_eq!(tree, Node::Add(num(1), Box::new(Node::Mul(num(2), num(3)))));
}

#[test]
fn parentheses_override_precedence() {
    let tree = parse_str("(1+2)*3").unwrap();
    assert_eq!(tree, Node::Mul(Box::new(Node::Add(num(1), num(2))), num(3)));
}

#[test]
fn greater_than_swaps_into_less_than() {
    let gt = parse_str("1>2").unwrap();
    let lt = parse_str("2<1").unwrap();
    assert_eq!(gt, lt);
    assert_eq!(gt, Node::Lt(num(2), num(1)));

    let ge = parse_str("1>=2").unwrap();
    assert_eq!(ge, Node::Le(num(2), num(1)));
}

#[test]
fn unary_minus_rewrites_to_zero_minus() {
    let tree = parse_str("-3+5").unwrap();
    assert_eq!(tree, Node::Add(Box::new(Node::Sub(num(0), num(3))), num(5)));
}

#[test]
fn unary_plus_is_a_no_op() {
    assert_eq!(parse_str("+3").unwrap(), Node::Num(3));
    assert_eq!(parse_str("+ + 3").unwrap(), Node::Num(3));
    assert_eq!(parse_str("- - 3").unwrap(),
        Node::Sub(num(0), Box::new(Node::Sub(num(0), num(3)))));
}

#[test]
fn binary_levels_chain_left_to_right() {
    let tree = parse_str("10-4-3").unwrap();
    assert_eq!(tree, Node::Sub(Box::new(Node::Sub(num(10), num(4))), num(3)));

    let tree = parse_str("8/4/2").unwrap();
    assert_eq!(tree, Node::Div(Box::new(Node::Div(num(8), num(4))), num(2)));
}

#[test]
fn equality_and_relational_levels_nest() {
    let tree = parse_str("1+1==2").unwrap();
    assert_eq!(tree, Node::Eq(Box::new(Node::Add(num(1), num(1))), num(2)));

    let tree = parse_str("1<2!=0").unwrap();
    assert_eq!(tree, Node::Ne(Box::new(Node::Lt(num(1), num(2))), num(0)));
}

#[test]
fn relational_operands_are_full_additive_expressions() {
    let tree = parse_str("1<=2+3").unwrap();
    assert_eq!(tree, Node::Le(num(1), Box::new(Node::Add(num(2), num(3)))));

    let tree = parse_str("1>=2+3").unwrap();
    assert_eq!(tree, Node::Le(Box::new(Node::Add(num(2), num(3))), num(1)));
}

#[test]
fn dangling_operator_is_a_parse_error() {
    assert_eq!(parse_str("1+"), Err(ParseError::ExpectedOperand(2)));
    assert_eq!(parse_str("*1"), Err(ParseError::ExpectedOperand(0)));
    assert_eq!(parse_str(""), Err(ParseError::ExpectedOperand(0)));
}

#[test]
fn missing_close_paren_is_a_parse_error() {
    assert_eq!(parse_str("(1+2"), Err(ParseError::ExpectedCloseParen(4)));
    assert_eq!(parse_str("(1))").unwrap(), Node::Num(1));
}

#[test]
fn trailing_tokens_are_left_unconsumed() {
    // The parser returns the expression at the front and leaves what
    // follows it in place.
    assert_eq!(parse_str("1 2").unwrap(), Node::Num(1));
    assert_eq!(parse_str("1)2").unwrap(), Node::Num(1));
}
