use packard::error::PslError;
use packard::lexer::{tokenize, Lexer, Token};

#[test]
fn test_basic_tokens() {
    let input = "[ atom : number ]";
    let tokens = tokenize(input).unwrap();
    assert_eq!(tokens[0], Token::LBracket);
    assert_eq!(tokens[1], Token::Atom("atom".to_string()));
    assert_eq!(tokens[2], Token::Colon);
    assert_eq!(tokens[3], Token::Atom("number".to_string()));
    assert_eq!(tokens[4], Token::RBracket);
}

#[test]
fn test_comments() {
    let input = "[ atom // comment\n : value ]";
    let tokens = tokenize(input).unwrap();
    assert_eq!(tokens[0], Token::LBracket);
    assert_eq!(tokens[1], Token::Atom("atom".to_string()));
    assert_eq!(tokens[2], Token::Colon);
    assert_eq!(tokens[3], Token::Atom("value".to_string()));
}

#[test]
fn test_operators() {
    let input = "[ + - * / > < >= <= == != ]";
    let tokens = tokenize(input).unwrap();
    assert!(tokens.iter().any(|t| *t == Token::Plus));
    assert!(tokens.iter().any(|t| *t == Token::Minus));
    assert!(tokens.iter().any(|t| *t == Token::Star));
    assert!(tokens.iter().any(|t| *t == Token::Slash));
}

#[test]
fn operators_in_order_end_with_eof() {
    let tokens = tokenize("[ + - * / > < >= <= == != ]").unwrap();
    assert_eq!(
        tokens,
        vec![
            Token::LBracket,
            Token::Plus,
            Token::Minus,
            Token::Star,
            Token::Slash,
            Token::Gt,
            Token::Lt,
            Token::GtEq,
            Token::LtEq,
            Token::EqEq,
            Token::NotEq,
            Token::RBracket,
            Token::Eof,
        ]
    );
}

#[test]
fn empty_input_is_just_eof() {
    assert_eq!(tokenize("").unwrap(), vec![Token::Eof]);
    assert_eq!(tokenize("  // only a comment").unwrap(), vec![Token::Eof]);
}

#[test]
fn minus_before_digit_reads_a_signed_atom() {
    let tokens = tokenize("-5").unwrap();
    assert_eq!(tokens, vec![Token::Atom("-5".to_string()), Token::Eof]);
    let mut lexer = Lexer::new("-5");
    assert_eq!(lexer.next_token().unwrap(), Token::Atom("-5".to_string()));
    let tokens = tokenize("- x").unwrap();
    assert_eq!(tokens, vec![Token::Minus, Token::Atom("x".to_string()), Token::Eof]);
}

#[test]
fn atoms_take_dots_dashes_and_underscores() {
    let tokens = tokenize("hero_1.name-x]").unwrap();
    assert_eq!(tokens, vec![Token::Atom("hero_1.name-x".to_string()), Token::RBracket, Token::Eof]);
}

#[test]
fn lone_equals_is_an_error_after_it() {
    match tokenize("ab\n =x") {
        Err(PslError::LexError { line, col, message }) => {
            assert_eq!(line, 2);
            assert_eq!(col, 3);
            assert_eq!(message, "Unexpected '='. Did you mean '=='?");
        }
        other => panic!("unexpected result {:?}", other),
    }
}

#[test]
fn lone_bang_is_an_error() {
    match tokenize("!") {
        Err(PslError::LexError { line, col, message }) => {
            assert_eq!((line, col), (1, 2));
            assert_eq!(message, "Unexpected '!'. Did you mean '!='?");
        }
        other => panic!("unexpected result {:?}", other),
    }
}

#[test]
fn unexpected_character_is_reported_where_it_stands() {
    match tokenize("[a]\n  \u{1}") {
        Err(e) => {
            assert_eq!(e.to_message(), "Lexer error at line 2, col 3: Unexpected character: '\u{1}'");
        }
        other => panic!("unexpected result {:?}", other),
    }
}

#[test]
fn next_token_steps_through_the_input() {
    let mut lexer = Lexer::new("[ a ]");
    assert_eq!(lexer.next_token().unwrap(), Token::LBracket);
    assert_eq!(lexer.next_token().unwrap(), Token::Atom("a".to_string()));
    assert_eq!(lexer.next_token().unwrap(), Token::RBracket);
    assert_eq!(lexer.next_token().unwrap(), Token::Eof);
    assert_eq!(lexer.next_token().unwrap(), Token::Eof);
}

#[test]
fn unicode_letters_form_atoms() {
    let tokens = tokenize("héros ünd").unwrap();
    assert_eq!(
        tokens,
        vec![Token::Atom("héros".to_string()), Token::Atom("ünd".to_string()), Token::Eof]
    );
}

#[test]
fn story_punctuation_stays_in_words() {
    let tokens = tokenize("[text: Go? Welcome! begins... (yes)]").unwrap();
    assert_eq!(
        tokens,
        vec![
            Token::LBracket,
            Token::Atom("text".to_string()),
            Token::Colon,
            Token::Atom("Go?".to_string()),
            Token::Atom("Welcome!".to_string()),
            Token::Atom("begins...".to_string()),
            Token::Atom("(yes)".to_string()),
            Token::RBracket,
            Token::Eof,
        ]
    );
}

#[test]
fn lone_bang_is_refused() {
    match tokenize("[ ! ]") {
        Err(PslError::LexError { message, .. }) => assert_eq!(message, "Unexpected '!'. Did you mean '!='?"),
        other => panic!("unexpected: {:?}", other),
    }
}

#[test]
fn bang_before_equals_is_not_equal() {
    let tokens = tokenize("a!=b Welcome! x!").unwrap();
    assert_eq!(
        tokens,
        vec![
            Token::Atom("a".to_string()),
            Token::NotEq,
            Token::Atom("b".to_string()),
            Token::Atom("Welcome!".to_string()),
            Token::Atom("x!".to_string()),
            Token::Eof,
        ]
    );
}

#[test]
fn tokenize_is_next_token_repeated() {
    for src in ["[a: -5]", "a!=b", "[[x]] >= [y], // c\n", "", "[ = ]", "[ok] !"] {
        let mut lexer = Lexer::new(src);
        let mut steps = Vec::new();
        let stepped = loop {
            match lexer.next_token() {
                Ok(Token::Eof) => {
                    steps.push(Token::Eof);
                    break Ok(steps);
                }
                Ok(t) => steps.push(t),
                Err(e) => break Err(e),
            }
        };
        match (tokenize(src), stepped) {
            (Ok(a), Ok(b)) => assert_eq!(a, b),
            (Err(a), Err(b)) => assert_eq!(a.to_message(), b.to_message()),
            (a, b) => panic!("{:?} {:?}", a, b),
        }
    }
}
