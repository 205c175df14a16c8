use deimos_core::codeslice::CodeSlice;
use deimos_core::diagnostics::{usize_to_string, SyntaxError};
use deimos_core::element::{ElementKind, ExprKind, GrammarElement, StmtKind};
use deimos_core::parser::parse;
use deimos_core::token::{CodeToken, Token};

/// A token with a one-character span at position `i` on line 1.
fn ctok(tok: Token, i: usize) -> CodeToken {
    CodeToken::new(tok, CodeSlice::new(i, i + 1, 1, 0))
}

/// A token spanning `start .. end` on line 1.
fn ctok_at(tok: Token, start: usize, end: usize) -> CodeToken {
    CodeToken::new(tok, CodeSlice::new(start, end, 1, 0))
}

/// The statements of a parsed chunk, or a panic.
fn chunk_stmts(parsed: GrammarElement) -> Vec<GrammarElement> {
    match parsed.kind {
        ElementKind::Chunk(stmts) => stmts,
        other => panic!("expected a chunk, got {:?}", other),
    }
}

/// The statements of a block element, or a panic.
fn block_stmts(block: &GrammarElement) -> &Vec<GrammarElement> {
    match &block.kind {
        ElementKind::Block(stmts) => stmts,
        other => panic!("expected a block, got {:?}", other),
    }
}

#[test]
fn test_failure() {
    let code = "\n        x = 1 + 2\n        ";
    // the token sequence a scanner produces for the code above
    let tokens = vec![
        CodeToken::new(Token::EOL, CodeSlice::new(0, 1, 1, 0)),
        CodeToken::new(Token::WhiteSpace, CodeSlice::new(1, 9, 2, 1)),
        CodeToken::new(Token::Identifier("x".to_string()), CodeSlice::new(9, 10, 2, 1)),
        CodeToken::new(Token::WhiteSpace, CodeSlice::new(10, 11, 2, 1)),
        CodeToken::new(Token::Equal, CodeSlice::new(11, 12, 2, 1)),
        CodeToken::new(Token::WhiteSpace, CodeSlice::new(12, 13, 2, 1)),
        CodeToken::new(Token::Number("1".to_string()), CodeSlice::new(13, 14, 2, 1)),
        CodeToken::new(Token::WhiteSpace, CodeSlice::new(14, 15, 2, 1)),
        CodeToken::new(Token::Plus, CodeSlice::new(15, 16, 2, 1)),
        CodeToken::new(Token::WhiteSpace, CodeSlice::new(16, 17, 2, 1)),
        CodeToken::new(Token::Number("2".to_string()), CodeSlice::new(17, 18, 2, 1)),
        CodeToken::new(Token::EOL, CodeSlice::new(18, 19, 2, 1)),
        CodeToken::new(Token::WhiteSpace, CodeSlice::new(19, 27, 3, 19)),
        CodeToken::new(Token::EOF, CodeSlice::new(27, 27, 3, 19)),
    ];
    match parse(tokens) {
        Ok(_) => {},
        Err(error) => {
            println!("{}", error.render(code));
            assert!(false);
        },
    }
}

#[test]
fn do_end_block() {
    // do 5+4 end
    let tokens = vec![
        ctok(Token::Do, 0),
        ctok(Token::Number("5".to_string()), 1),
        ctok(Token::Plus, 2),
        ctok(Token::Number("4".to_string()), 3),
        ctok(Token::End, 4),
        ctok(Token::EOF, 5),
    ];
    let stmts = chunk_stmts(parse(tokens).unwrap());
    assert_eq!(stmts.len(), 1);
    match &stmts[0].kind {
        ElementKind::Statement(StmtKind::DoEnd { body }) => {
            let inner = block_stmts(body);
            assert_eq!(inner.len(), 1);
            assert!(matches!(
                &inner[0].kind,
                ElementKind::Expression(ExprKind::Binary { op: Token::Plus, .. })
            ));
        },
        other => panic!("expected a do-end statement, got {:?}", other),
    }
}

#[test]
fn while_do_end_block() {
    // while true do 5+4 end
    let tokens = vec![
        ctok(Token::While, 0),
        ctok(Token::True, 1),
        ctok(Token::Do, 2),
        ctok(Token::Number("5".to_string()), 3),
        ctok(Token::Plus, 4),
        ctok(Token::Number("4".to_string()), 5),
        ctok(Token::End, 6),
    ];
    let stmts = chunk_stmts(parse(tokens).unwrap());
    assert_eq!(stmts.len(), 1);
    match &stmts[0].kind {
        ElementKind::Statement(StmtKind::WhileDoEnd { condition, body }) => {
            assert!(matches!(
                &condition.kind,
                ElementKind::Expression(ExprKind::Literal(Token::True))
            ));
            let inner = block_stmts(body);
            assert_eq!(inner.len(), 1);
            assert!(matches!(
                &inner[0].kind,
                ElementKind::Expression(ExprKind::Binary { op: Token::Plus, .. })
            ));
        },
        other => panic!("expected a while statement, got {:?}", other),
    }
}

#[test]
fn nested_blocks_match_by_depth() {
    // do do x = 1 end end must pair each opener with its own closer
    let tokens = vec![
        ctok(Token::Do, 0),
        ctok(Token::Do, 1),
        ctok(Token::Identifier("x".to_string()), 2),
        ctok(Token::Equal, 3),
        ctok(Token::Number("1".to_string()), 4),
        ctok(Token::End, 5),
        ctok(Token::End, 6),
    ];
    let stmts = chunk_stmts(parse(tokens).unwrap());
    assert_eq!(stmts.len(), 1);
    match &stmts[0].kind {
        ElementKind::Statement(StmtKind::DoEnd { body }) => {
            let outer = block_stmts(body);
            assert_eq!(outer.len(), 1);
            match &outer[0].kind {
                ElementKind::Statement(StmtKind::DoEnd { body }) => {
                    let inner = block_stmts(body);
                    assert_eq!(inner.len(), 1);
                    assert!(matches!(
                        &inner[0].kind,
                        ElementKind::Statement(StmtKind::Assignment { .. })
                    ));
                },
                other => panic!("expected a nested do-end, got {:?}", other),
            }
        },
        other => panic!("expected a do-end statement, got {:?}", other),
    }
}

#[test]
fn empty_do_block() {
    // do end holds an empty block spanning the gap between the keywords
    let tokens = vec![ctok(Token::Do, 0), ctok(Token::End, 1)];
    let stmts = chunk_stmts(parse(tokens).unwrap());
    assert_eq!(stmts.len(), 1);
    match &stmts[0].kind {
        ElementKind::Statement(StmtKind::DoEnd { body }) => {
            assert!(block_stmts(body).is_empty());
            assert_eq!(body.span.get_range(), (1, 1));
        },
        other => panic!("expected a do-end statement, got {:?}", other),
    }
    assert_eq!(stmts[0].span.get_range(), (0, 2));
}

#[test]
fn repeat_until_block() {
    // repeat x = 1 until true
    let tokens = vec![
        ctok(Token::Repeat, 0),
        ctok(Token::Identifier("x".to_string()), 1),
        ctok(Token::Equal, 2),
        ctok(Token::Number("1".to_string()), 3),
        ctok(Token::Until, 4),
        ctok(Token::True, 5),
    ];
    let stmts = chunk_stmts(parse(tokens).unwrap());
    assert_eq!(stmts.len(), 1);
    match &stmts[0].kind {
        ElementKind::Statement(StmtKind::RepeatUntil { body, condition }) => {
            assert_eq!(block_stmts(body).len(), 1);
            assert!(matches!(
                &condition.kind,
                ElementKind::Expression(ExprKind::Literal(Token::True))
            ));
        },
        other => panic!("expected a repeat statement, got {:?}", other),
    }
}

#[test]
fn if_elseif_else_chain() {
    // if true then x = 1 elseif false then x = 2 else x = 3 end
    let tokens = vec![
        ctok(Token::If, 0),
        ctok(Token::True, 1),
        ctok(Token::Then, 2),
        ctok(Token::Identifier("x".to_string()), 3),
        ctok(Token::Equal, 4),
        ctok(Token::Number("1".to_string()), 5),
        ctok(Token::Elseif, 6),
        ctok(Token::False, 7),
        ctok(Token::Then, 8),
        ctok(Token::Identifier("x".to_string()), 9),
        ctok(Token::Equal, 10),
        ctok(Token::Number("2".to_string()), 11),
        ctok(Token::Else, 12),
        ctok(Token::Identifier("x".to_string()), 13),
        ctok(Token::Equal, 14),
        ctok(Token::Number("3".to_string()), 15),
        ctok(Token::End, 16),
    ];
    let stmts = chunk_stmts(parse(tokens).unwrap());
    assert_eq!(stmts.len(), 1);
    match &stmts[0].kind {
        ElementKind::Statement(StmtKind::IfChain { arms, else_body }) => {
            assert_eq!(arms.len(), 2);
            assert!(matches!(
                &arms[0].condition.kind,
                ElementKind::Expression(ExprKind::Literal(Token::True))
            ));
            assert!(matches!(
                &arms[1].condition.kind,
                ElementKind::Expression(ExprKind::Literal(Token::False))
            ));
            assert_eq!(block_stmts(&arms[0].body).len(), 1);
            assert_eq!(block_stmts(&arms[1].body).len(), 1);
            match else_body {
                Some(b) => assert_eq!(block_stmts(b).len(), 1),
                None => panic!("expected an else block"),
            }
        },
        other => panic!("expected an if chain, got {:?}", other),
    }
}

#[test]
fn if_without_then_is_an_error() {
    let tokens = vec![
        ctok(Token::If, 0),
        ctok(Token::True, 1),
        ctok(Token::Identifier("x".to_string()), 2),
        ctok(Token::End, 3),
    ];
    match parse(tokens) {
        Err(SyntaxError::Contextual { message, .. }) => {
            assert_eq!(message, "if without then");
        },
        other => panic!("expected a contextual error, got {:?}", other),
    }
}

#[test]
fn bare_expression_chunk_fails_validation() {
    // a chunk whose only statement is a bare expression is rejected
    let tokens = vec![
        ctok(Token::Number("5".to_string()), 0),
        ctok(Token::Plus, 1),
        ctok(Token::Number("4".to_string()), 2),
    ];
    match parse(tokens) {
        Err(SyntaxError::Contextual { message, .. }) => {
            assert_eq!(message, "not a statement");
        },
        other => panic!("expected a contextual error, got {:?}", other),
    }
}

#[test]
fn chunk_may_end_in_return() {
    // x = 1 \n return x
    let tokens = vec![
        ctok(Token::Identifier("x".to_string()), 0),
        ctok(Token::Equal, 1),
        ctok(Token::Number("1".to_string()), 2),
        ctok(Token::EOL, 3),
        ctok(Token::Return, 4),
        ctok(Token::Identifier("x".to_string()), 5),
        ctok(Token::EOF, 6),
    ];
    let stmts = chunk_stmts(parse(tokens).unwrap());
    assert_eq!(stmts.len(), 2);
    assert!(matches!(&stmts[0].kind, ElementKind::Statement(StmtKind::Assignment { .. })));
    assert!(matches!(&stmts[1].kind, ElementKind::Statement(StmtKind::Return { .. })));
}

#[test]
fn chunk_may_end_in_break() {
    let tokens = vec![ctok(Token::Break, 0)];
    let stmts = chunk_stmts(parse(tokens).unwrap());
    assert_eq!(stmts.len(), 1);
    assert!(matches!(&stmts[0].kind, ElementKind::Statement(StmtKind::Break)));
}

#[test]
fn terminal_statement_must_be_last() {
    // break \n x = 1 puts the terminal statement in the middle
    let tokens = vec![
        ctok(Token::Break, 0),
        ctok(Token::EOL, 1),
        ctok(Token::Identifier("x".to_string()), 2),
        ctok(Token::Equal, 3),
        ctok(Token::Number("1".to_string()), 4),
    ];
    match parse(tokens) {
        Err(SyntaxError::Contextual { message, span }) => {
            assert_eq!(message, "not a statement");
            assert_eq!(span.get_range(), (0, 1));
        },
        other => panic!("expected a contextual error, got {:?}", other),
    }
}

#[test]
fn unterminated_block_is_an_error() {
    let tokens = vec![
        ctok(Token::Do, 0),
        ctok(Token::Identifier("x".to_string()), 1),
        ctok(Token::Equal, 2),
        ctok(Token::Number("1".to_string()), 3),
    ];
    match parse(tokens) {
        Err(SyntaxError::Contextual { message, span }) => {
            assert_eq!(message, "unterminated block");
            assert_eq!(span.get_range(), (0, 1));
        },
        other => panic!("expected a contextual error, got {:?}", other),
    }
}

#[test]
fn while_without_do_is_an_error() {
    let tokens = vec![ctok(Token::While, 0), ctok(Token::True, 1)];
    match parse(tokens) {
        Err(SyntaxError::Contextual { message, .. }) => {
            assert_eq!(message, "while without do");
        },
        other => panic!("expected a contextual error, got {:?}", other),
    }
}

#[test]
fn while_needs_a_condition() {
    let tokens = vec![
        ctok(Token::While, 0),
        ctok(Token::Do, 1),
        ctok(Token::Identifier("x".to_string()), 2),
        ctok(Token::Equal, 3),
        ctok(Token::Number("1".to_string()), 4),
        ctok(Token::End, 5),
    ];
    match parse(tokens) {
        Err(SyntaxError::Contextual { message, .. }) => {
            assert_eq!(message, "expected a condition");
        },
        other => panic!("expected a contextual error, got {:?}", other),
    }
}

#[test]
fn wrong_closer_is_an_error() {
    // do ... until pairs a do with an until
    let tokens = vec![
        ctok(Token::Do, 0),
        ctok(Token::Identifier("x".to_string()), 1),
        ctok(Token::Equal, 2),
        ctok(Token::Number("1".to_string()), 3),
        ctok(Token::Until, 4),
        ctok(Token::True, 5),
    ];
    match parse(tokens) {
        Err(SyntaxError::Contextual { message, span }) => {
            assert_eq!(message, "mismatched block closer");
            assert_eq!(span.get_range(), (4, 5));
        },
        other => panic!("expected a contextual error, got {:?}", other),
    }
}

#[test]
fn for_loops_are_reported_unsupported() {
    let tokens = vec![
        ctok(Token::For, 0),
        ctok(Token::Identifier("i".to_string()), 1),
        ctok(Token::Equal, 2),
        ctok(Token::Number("1".to_string()), 3),
        ctok(Token::Do, 4),
        ctok(Token::End, 5),
    ];
    match parse(tokens) {
        Err(SyntaxError::Contextual { message, span }) => {
            assert_eq!(message, "unsupported statement");
            assert_eq!(span.get_range(), (0, 1));
        },
        other => panic!("expected a contextual error, got {:?}", other),
    }
}

#[test]
fn empty_input_is_an_internal_error() {
    match parse(Vec::new()) {
        Err(SyntaxError::Internal { message }) => {
            assert_eq!(message, "parser found an empty chunk");
        },
        other => panic!("expected an internal error, got {:?}", other),
    }
    // a stream of nothing but blank lines fares the same
    let tokens = vec![ctok(Token::EOL, 0), ctok(Token::EOL, 1), ctok(Token::EOF, 2)];
    match parse(tokens) {
        Err(SyntaxError::Internal { message }) => {
            assert_eq!(message, "parser found an empty chunk");
        },
        other => panic!("expected an internal error, got {:?}", other),
    }
}

#[test]
fn semicolon_separates_statements() {
    // x = 1; y = 2 on one line yields two statements
    let tokens = vec![
        ctok(Token::Identifier("x".to_string()), 0),
        ctok(Token::Equal, 1),
        ctok(Token::Number("1".to_string()), 2),
        ctok(Token::SemiColon, 3),
        ctok(Token::Identifier("y".to_string()), 4),
        ctok(Token::Equal, 5),
        ctok(Token::Number("2".to_string()), 6),
    ];
    let stmts = chunk_stmts(parse(tokens).unwrap());
    assert_eq!(stmts.len(), 2);
}

#[test]
fn span_slices_nest_in_order() {
    let code = "x = 1 + 2";
    let tokens = vec![
        ctok_at(Token::Identifier("x".to_string()), 0, 1),
        ctok_at(Token::WhiteSpace, 1, 2),
        ctok_at(Token::Equal, 2, 3),
        ctok_at(Token::WhiteSpace, 3, 4),
        ctok_at(Token::Number("1".to_string()), 4, 5),
        ctok_at(Token::WhiteSpace, 5, 6),
        ctok_at(Token::Plus, 6, 7),
        ctok_at(Token::WhiteSpace, 7, 8),
        ctok_at(Token::Number("2".to_string()), 8, 9),
    ];
    let parsed = parse(tokens).unwrap();
    assert_eq!(parsed.span.slice_code(code), "x = 1 + 2");
    let stmts = chunk_stmts(parsed);
    assert_eq!(stmts.len(), 1);
    assert_eq!(stmts[0].span.slice_code(code), "x = 1 + 2");
    match &stmts[0].kind {
        ElementKind::Statement(StmtKind::Assignment { targets, values, .. }) => {
            let target_text = targets[0].span.slice_code(code);
            let value_text = values[0].span.slice_code(code);
            assert_eq!(target_text, "x");
            assert_eq!(value_text, "1 + 2");
            // the parent's slice contains the children's slices, in order
            let whole = stmts[0].span.slice_code(code);
            let t_at = whole.find(target_text).unwrap();
            let v_at = whole.find(value_text).unwrap();
            assert!(t_at < v_at);
        },
        other => panic!("expected an assignment, got {:?}", other),
    }
}

#[test]
fn syntax_error_renders_with_caret_line() {
    let code = "5 +";
    let tokens = vec![
        ctok_at(Token::Number("5".to_string()), 0, 1),
        ctok_at(Token::WhiteSpace, 1, 2),
        ctok_at(Token::Plus, 2, 3),
    ];
    let err = parse(tokens).unwrap_err();
    assert_eq!(err.render(code), "invalid syntax:\n      5 +\n      ^ line: 1 col: 1");
}

#[test]
fn internal_error_renders_bare() {
    let err = parse(Vec::new()).unwrap_err();
    assert_eq!(err.render(""), "parser found an empty chunk");
}

#[test]
fn decimal_rendering() {
    assert_eq!(usize_to_string(0), "0");
    assert_eq!(usize_to_string(9), "9");
    assert_eq!(usize_to_string(10), "10");
    assert_eq!(usize_to_string(12345), "12345");
}

#[test]
fn keyword_matching() {
    assert_eq!(Token::match_keyword("while"), Some(Token::While));
    assert_eq!(Token::match_keyword("and"), Some(Token::And));
    assert_eq!(Token::match_keyword("function"), Some(Token::Function));
    assert_eq!(Token::match_keyword("banana"), None);
    assert_eq!(Token::match_keyword(""), None);
}

#[test]
fn character_classes() {
    assert!(Token::is_eol("\n"));
    assert!(Token::is_eol("\r"));
    assert!(!Token::is_eol("x"));
    assert!(Token::is_whitespace(" "));
    assert!(!Token::is_whitespace("\t"));
    assert!(Token::is_valid_number_char("5"));
    assert!(Token::is_valid_number_char("."));
    assert!(!Token::is_valid_number_char("a"));
    assert!(Token::is_valid_word_char("a", true));
    assert!(Token::is_valid_word_char("_", true));
    assert!(!Token::is_valid_word_char("5", true));
    assert!(Token::is_valid_word_char("5", false));
    assert!(!Token::is_valid_word_char("+", false));
}

#[test]
fn token_display_lengths() {
    assert_eq!(Token::Function.len(), 8);
    assert_eq!(Token::Plus.len(), 1);
    assert_eq!(Token::EOL.len(), 0);
    assert_eq!(Token::Identifier("bob".to_string()).len(), 3);
    assert_eq!(Token::String("hi".to_string()).len(), 4);
    assert_eq!(Token::Number("3.5".to_string()).len(), 3);
}

#[test]
fn codeslice_basics() {
    let a = CodeSlice::new(5, 9, 2, 4);
    assert_eq!(a.get_range(), (5, 9));
    assert_eq!(a.get_line(), 2);
    assert_eq!(a.get_column(), 2);
    let b = CodeSlice::new(12, 15, 3, 11);
    let c = CodeSlice::create_from(&a, &b);
    assert_eq!(c.get_range(), (5, 15));
    assert_eq!(c.get_line(), 2);
    assert_eq!(c.get_column(), 2);
    assert_eq!(CodeSlice::empty().get_range(), (0, 0));
    assert_eq!(CodeSlice::default(), CodeSlice::empty());
    let hello = CodeSlice::new(6, 11, 1, 0);
    assert_eq!(hello.slice_code("hello world"), "world");
}
