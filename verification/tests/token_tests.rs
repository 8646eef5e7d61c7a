use exprc::token::{matches_two_chars, tokenize, LexError, Token};

#[test]
fn main_test_matches_two_char() {
    let chars = "==".chars().collect::<Vec<char>>();
    assert!(matches_two_chars(&chars, 0));

    let chars = "!=".chars().collect::<Vec<char>>();
    assert!(matches_two_chars(&chars, 0));

    let chars = "<=".chars().collect::<Vec<char>>();
    assert!(matches_two_chars(&chars, 0));

    let chars = ">=".chars().collect::<Vec<char>>();
    assert!(matches_two_chars(&chars, 0));

    let chars = "!!".chars().collect::<Vec<char>>();
    assert!(!matches_two_chars(&chars, 0));

    let chars = "<>".chars().collect::<Vec<char>>();
    assert!(!matches_two_chars(&chars, 0));
}

#[test]
fn main_test_tokenize() {
    let input = "3".to_string();
    let tokens = tokenize(input).unwrap();
    assert_eq!(tokens, vec![Token::Num(3)]);

    let input = "13".to_string();
    let tokens = tokenize(input).unwrap();
    assert_eq!(tokens, vec![Token::Num(13)]);

    let input = "3+14".to_string();
    let tokens = tokenize(input).unwrap();
    assert_eq!(
        tokens,
        vec![
            Token::Num(3),
            Token::Reserved("+".to_string()),
            Token::Num(14)
        ]
    );

    let input = "3 + 14 - 1".to_string();
    let tokens = tokenize(input).unwrap();
    assert_eq!(
        tokens,
        vec![
            Token::Num(3),
            Token::Reserved("+".to_string()),
            Token::Num(14),
            Token::Reserved("-".to_string()),
            Token::Num(1)
        ]
    );

    let input = "3 * 14 / 1".to_string();
    let tokens = tokenize(input).unwrap();
    assert_eq!(
        tokens,
        vec![
            Token::Num(3),
            Token::Reserved("*".to_string()),
            Token::Num(14),
            Token::Reserved("/".to_string()),
            Token::Num(1)
        ]
    );
}

#[test]
fn token_test_matches_two_char() {
    let chars = "==".chars().collect::<Vec<char>>();
    assert!(matches_two_chars(&chars, 0));

    let chars = "!=".chars().collect::<Vec<char>>();
    assert!(matches_two_chars(&chars, 0));

    let chars = "<=".chars().collect::<Vec<char>>();
    assert!(matches_two_chars(&chars, 0));

    let chars = ">=".chars().collect::<Vec<char>>();
    assert!(matches_two_chars(&chars, 0));

    let chars = "!!".chars().collect::<Vec<char>>();
    assert!(!matches_two_chars(&chars, 0));

    let chars = "<>".chars().collect::<Vec<char>>();
    assert!(!matches_two_chars(&chars, 0));
}

#[test]
fn token_test_tokenize() {
    let input = "3".to_string();
    let tokens = tokenize(input).unwrap();
    assert_eq!(tokens, vec![Token::Num(3)]);

    let input = "13".to_string();
    let tokens = tokenize(input).unwrap();
    assert_eq!(tokens, vec![Token::Num(13)]);

    let input = "3+14".to_string();
    let tokens = tokenize(input).unwrap();
    assert_eq!(
        tokens,
        vec![
            Token::Num(3),
            Token::Reserved("+".to_string()),
            Token::Num(14)
        ]
    );

    let input = "3 + 14 - 1".to_string();
    let tokens = tokenize(input).unwrap();
    assert_eq!(
        tokens,
        vec![
            Token::Num(3),
            Token::Reserved("+".to_string()),
            Token::Num(14),
            Token::Reserved("-".to_string()),
            Token::Num(1)
        ]
    );

    let input = "3 * 14 / 1".to_string();
    let tokens = tokenize(input).unwrap();
    assert_eq!(
        tokens,
        vec![
            Token::Num(3),
            Token::Reserved("*".to_string()),
            Token::Num(14),
            Token::Reserved("/".to_string()),
            Token::Num(1)
        ]
    );
}

#[test]
fn two_char_operators_are_single_tokens() {
    for op in ["<=", ">=", "==", "!="] {
        let tokens = tokenize(op.to_string()).unwrap();
        assert_eq!(tokens, vec![Token::Reserved(op.to_string())]);
    }
    let tokens = tokenize("1<=2".to_string()).unwrap();
    assert_eq!(
        tokens,
        vec![
            Token::Num(1),
            Token::Reserved("<=".to_string()),
            Token::Num(2)
        ]
    );
}

#[test]
fn single_char_operators_tokenize() {
    let tokens = tokenize("( 1 < 2 ) > 3".to_string()).unwrap();
    assert_eq!(
        tokens,
        vec![
            Token::Reserved("(".to_string()),
            Token::Num(1),
            Token::Reserved("<".to_string()),
            Token::Num(2),
            Token::Reserved(")".to_string()),
            Token::Reserved(">".to_string()),
            Token::Num(3)
        ]
    );
}

#[test]
fn unexpected_character_is_a_lex_error() {
    assert_eq!(tokenize("$".to_string()), Err(LexError::UnexpectedChar));
    assert_eq!(tokenize("1 + a".to_string()), Err(LexError::UnexpectedChar));
    // A lone `=` or `!` is no token of the language.
    assert_eq!(tokenize("1 = 2".to_string()), Err(LexError::UnexpectedChar));
    assert_eq!(tokenize("!1".to_string()), Err(LexError::UnexpectedChar));
}

#[test]
fn literal_overflow_is_a_lex_error() {
    assert_eq!(
        tokenize("4294967296".to_string()),
        Err(LexError::LiteralOverflow)
    );
    assert_eq!(
        tokenize("4294967295".to_string()),
        Ok(vec![Token::Num(u32::MAX)])
    );
    assert_eq!(
        tokenize("99999999999999999999".to_string()),
        Err(LexError::LiteralOverflow)
    );
}

#[test]
fn empty_and_blank_inputs_tokenize_to_nothing() {
    assert_eq!(tokenize(String::new()), Ok(vec![]));
    assert_eq!(tokenize("  \t\n ".to_string()), Ok(vec![]));
}

#[test]
fn expect_number_returns_the_value() {
    assert_eq!(Token::Num(14).expect_number(), 14);
}
