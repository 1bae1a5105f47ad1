use packard::error::PslError;

#[test]
fn messages_of_each_kind() {
    let cases = vec![
        (PslError::LexError { line: 3, col: 7, message: "bad".to_string() }, "Lexer error at line 3, col 7: bad"),
        (PslError::ParseError { line: 0, col: 12, message: "worse".to_string() }, "Parser error at line 0, col 12: worse"),
        (PslError::RuntimeError("r".to_string()), "Runtime error: r"),
        (PslError::TypeError("t".to_string()), "Type error: t"),
        (PslError::NameError("n".to_string()), "Name error: n"),
        (PslError::AccessError("a".to_string()), "Access error: a"),
    ];
    for (e, m) in cases {
        assert_eq!(e.to_message(), m);
        assert_eq!(e.duplicate().to_message(), m);
    }
}
