use packard::error::PslError;
use packard::lexer::{tokenize, Token};
use packard::number::is_number_literal;
use packard::parser::{parse, Expr, Parser};

fn parse_src(src: &str) -> Result<Vec<Expr>, PslError> {
    parse(tokenize(src).unwrap())
}

fn message(e: PslError) -> String {
    match e {
        PslError::ParseError { message, .. } => message,
        other => panic!("not a parse error: {:?}", other),
    }
}

#[test]
fn test_parse_text() {
    let tokens = tokenize("[text: Hello World]").unwrap();
    let exprs = parse(tokens).unwrap();
    assert_eq!(exprs.len(), 1);
    if let Expr::Text(s) = &exprs[0] {
        assert_eq!(s, "Hello World");
    } else {
        panic!("Expected text expression");
    }
}

#[test]
fn test_parse_number() {
    let tokens = tokenize("[number: 42]").unwrap();
    let exprs = parse(tokens).unwrap();
    if let Expr::Number(n) = &exprs[0] {
        assert_eq!(n.parse::<f64>().unwrap(), 42.0);
    } else {
        panic!("Expected number expression");
    }
}

#[test]
fn number_literals_follow_the_float_grammar() {
    for ok in ["3.14", "1e5", "2.5E-3", "5.", "inf", "NaN", "infinity"] {
        let exprs = parse_src(&format!("[number: {}]", ok)).unwrap();
        assert_eq!(exprs, vec![Expr::Number(ok.to_string())]);
        assert!(ok.parse::<f64>().is_ok());
    }
    for bad in ["abc", "1e", "1.2.3", "e5", "5-"] {
        let err = parse_src(&format!("[number: {}]", bad)).unwrap_err();
        assert_eq!(message(err), format!("Invalid number: {}", bad));
        assert!(bad.parse::<f64>().is_err());
    }
    assert_eq!(parse_src("[number: -5]").unwrap(), vec![Expr::Number("-5".to_string())]);
    assert_eq!(parse_src("[number: -2.5]").unwrap(), vec![Expr::Number("-2.5".to_string())]);
}

#[test]
fn flags_are_on_or_off() {
    assert_eq!(parse_src("[flag: on]").unwrap(), vec![Expr::Flag(true)]);
    assert_eq!(parse_src("[flag: off]").unwrap(), vec![Expr::Flag(false)]);
    let err = parse_src("[flag: maybe]").unwrap_err();
    assert_eq!(message(err), "Invalid flag value: maybe. Use 'on' or 'off'");
}

#[test]
fn names_and_literals() {
    let exprs = parse_src("[character: main], [attribute: long name], [item:], [section: a]").unwrap();
    assert_eq!(
        exprs,
        vec![
            Expr::Character("main".to_string()),
            Expr::Attribute("long name".to_string()),
            Expr::Item,
            Expr::Section("a".to_string()),
        ]
    );
}

#[test]
fn define_with_body_of_two() {
    let exprs = parse_src(
        "[[define: [character: hero]]: [[set: [attribute: name]]: [text: Hero]], [[set: [attribute: hp]]: [number: 5]]]",
    )
    .unwrap();
    assert_eq!(
        exprs,
        vec![Expr::Define {
            target: Box::new(Expr::Character("hero".to_string())),
            body: Box::new(Expr::SequenceExpr(vec![
                Expr::SetValue {
                    target: Box::new(Expr::Attribute("name".to_string())),
                    value: Box::new(Expr::Text("Hero".to_string())),
                },
                Expr::SetValue {
                    target: Box::new(Expr::Attribute("hp".to_string())),
                    value: Box::new(Expr::Number("5".to_string())),
                },
            ])),
        }]
    );
}

#[test]
fn empty_target_is_item_and_body_is_optional() {
    let exprs = parse_src("[[as:]: [text: Hi]]").unwrap();
    assert_eq!(
        exprs,
        vec![Expr::Keyword {
            name: "as".to_string(),
            params: vec![
                ("id".to_string(), Expr::Item),
                ("body".to_string(), Expr::Text("Hi".to_string())),
            ],
        }]
    );
    let exprs = parse_src("[[define: [container: empty]]]").unwrap();
    assert_eq!(
        exprs,
        vec![Expr::Define {
            target: Box::new(Expr::Container("empty".to_string())),
            body: Box::new(Expr::SequenceExpr(vec![])),
        }]
    );
}

#[test]
fn double_bracket_from_and_comparison() {
    let exprs = parse_src("[[[from: [character: a]]: [attribute: coins]] >= [number: 5]]").unwrap();
    assert_eq!(
        exprs,
        vec![Expr::ComparisonOp {
            op: ">=".to_string(),
            left: Box::new(Expr::From {
                base: Box::new(Expr::Character("a".to_string())),
                path: Box::new(Expr::Attribute("coins".to_string())),
            }),
            right: Box::new(Expr::Number("5".to_string())),
        }]
    );
    let exprs = parse_src("[[[from: [character: a]]: [attribute: coins]] - [number: 5]]").unwrap();
    assert!(matches!(&exprs[0], Expr::ArithmeticOp { op, .. } if op == "-"));
}

#[test]
fn single_bracket_from_and_goto() {
    let exprs = parse_src("[from: [character: main]: [attribute: name]], [goto: [section: s]]").unwrap();
    assert_eq!(
        exprs,
        vec![
            Expr::From {
                base: Box::new(Expr::Character("main".to_string())),
                path: Box::new(Expr::Attribute("name".to_string())),
            },
            Expr::Keyword {
                name: "goto".to_string(),
                params: vec![("body".to_string(), Expr::Section("s".to_string()))],
            },
        ]
    );
}

#[test]
fn if_and_chapter_statements() {
    let exprs = parse_src("[[if: [flag: on]]: [text: x]], [[chapter: c1]: [text: One]]").unwrap();
    assert_eq!(
        exprs,
        vec![
            Expr::If {
                condition: Box::new(Expr::Flag(true)),
                body: Box::new(Expr::Text("x".to_string())),
            },
            Expr::Keyword {
                name: "chapter".to_string(),
                params: vec![
                    ("id".to_string(), Expr::Chapter("c1".to_string())),
                    ("body".to_string(), Expr::Text("One".to_string())),
                ],
            },
        ]
    );
}

#[test]
fn keyword_parameters() {
    let exprs = parse_src("[go: to: [section: a], mode: fast]").unwrap();
    assert_eq!(
        exprs,
        vec![Expr::Keyword {
            name: "go".to_string(),
            params: vec![
                ("to".to_string(), Expr::Section("a".to_string())),
                ("mode".to_string(), Expr::Text("fast".to_string())),
            ],
        }]
    );
    let err = parse_src("[go: to [x: y]]").unwrap_err();
    assert_eq!(message(err), "Expected ':' after parameter name");
}

#[test]
fn errors_name_the_tokens() {
    let err = parse_src("[text: a").unwrap_err();
    assert_eq!(message(err), "Expected RBracket, found Eof");
    let err = parse_src("]").unwrap_err();
    assert_eq!(message(err), "Unexpected token: RBracket");
    let err = parse_src("[[x y: z]]").unwrap_err();
    assert_eq!(message(err), "Expected Colon, found Atom(\"y\")");
    let err = parse_src("[define: [character: a]]").unwrap_err();
    assert_eq!(message(err), "define requires double-bracket syntax [[define:...]: body]");
    let err = parse_src("[[[text: a]] [text: b]]").unwrap_err();
    assert_eq!(message(err), "Expected operator, found LBracket");
    let err = parse_src("[+]").unwrap_err();
    assert_eq!(message(err), "Expected keyword, found Plus");
}

#[test]
fn bare_atoms_and_commas() {
    let exprs = parse_src("hello, , world").unwrap();
    assert_eq!(exprs, vec![Expr::Text("hello".to_string()), Expr::Text("world".to_string())]);
}

#[test]
fn parser_from_tokens_without_eof() {
    let mut p = Parser::new(vec![Token::Atom("a".to_string())]);
    assert_eq!(p.parse_program().unwrap(), vec![Expr::Text("a".to_string())]);
}

#[test]
fn number_recognizer_agrees_with_std() {
    let samples = [
        "0", "42", "3.14", ".5", "5.", ".", "", "+", "-", "+1", "-1", "--1", "1e5", "1E5", "1e+5",
        "1e-5", "1e", "1e+", "e5", ".e5", "1.e5", ".5e5", "1.5.5", "1e5e5", "inf", "INF", "Inf",
        "-inf", "+infinity", "InFiNiTy", "nan", "NaN", "-nan", "nana", "infin", " 1", "1 ", "1_0",
        "0x10", "1,5", "١", "12345678901234567890123", "1e999", "-0", "+.5e-3",
    ];
    for s in samples {
        assert_eq!(is_number_literal(s), s.parse::<f64>().is_ok(), "on {:?}", s);
    }
}
