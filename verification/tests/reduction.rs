use deimos_core::codeslice::CodeSlice;
use deimos_core::element::{ElementKind, ExprKind, GrammarElement, StmtKind};
use deimos_core::reduce::reduce;
use deimos_core::token::{CodeToken, Token};

/// A one-character span at position `i` on line 1.
fn sp1(i: usize) -> CodeSlice {
    CodeSlice::new(i, i + 1, 1, 0)
}

/// The element a token at position `i` enters the reducer as.
fn el(t: Token, i: usize) -> GrammarElement {
    GrammarElement::from_token(CodeToken::new(t, sp1(i)))
}

/// A number-literal expression element.
fn num(text: &str, i: usize) -> GrammarElement {
    el(Token::Number(text.to_string()), i)
}

/// The number text of a literal expression element, or a panic.
fn num_text(e: &GrammarElement) -> String {
    match &e.kind {
        ElementKind::Expression(ExprKind::Literal(Token::Number(s))) => s.clone(),
        other => panic!("expected a number literal, got {:?}", other),
    }
}

#[test]
fn basic_parsing() {
    let nil = |i: usize| el(Token::Nil, i);
    let what = |i: usize| el(Token::String("what".to_string()), i);

    assert!(GrammarElement::create_binary(nil(0), el(Token::Carrot, 1), what(2)).is_some());
    assert!(GrammarElement::create_binary(nil(0), el(Token::Star, 1), what(2)).is_some());
    assert!(GrammarElement::create_binary(nil(0), el(Token::Slash, 1), what(2)).is_some());
    assert!(GrammarElement::create_binary(nil(0), el(Token::Or, 1), what(2)).is_some());
    assert!(GrammarElement::create_binary(nil(0), el(Token::DoublePeriod, 1), what(2)).is_some());
    assert!(GrammarElement::create_binary(nil(0), el(Token::Plus, 1), what(2)).is_some());
    assert!(GrammarElement::create_binary(nil(0), el(Token::Minus, 1), what(2)).is_some());
    assert!(GrammarElement::create_binary(nil(0), el(Token::LessThan, 1), what(2)).is_some());
    assert!(GrammarElement::create_binary(nil(0), el(Token::And, 1), what(2)).is_some());
    assert!(GrammarElement::create_binary(nil(0), el(Token::EqualEqual, 1), what(2)).is_some());
    assert!(GrammarElement::create_binary(nil(0), el(Token::GreaterEqual, 1), what(2)).is_some());
    assert!(GrammarElement::create_binary(nil(0), el(Token::GreaterThan, 1), what(2)).is_some());
    assert!(GrammarElement::create_binary(nil(0), el(Token::LessEqual, 1), what(2)).is_some());
    assert!(GrammarElement::create_binary(nil(0), el(Token::NotEqual, 1), what(2)).is_some());

    assert!(GrammarElement::create_binary(nil(0), el(Token::LeftParen, 1), what(2)).is_none());
    assert!(GrammarElement::create_binary(nil(0), el(Token::Not, 1), what(2)).is_none());
}

#[test]
fn order_of_operations() {
    // 5 + 6 * 2 - 3 must reduce to ((5 + (6 * 2)) - 3)
    let group = vec![
        num("5", 0),
        el(Token::Plus, 1),
        num("6", 2),
        el(Token::Star, 3),
        num("2", 4),
        el(Token::Minus, 5),
        num("3", 6),
    ];
    let reduced = match reduce(group) {
        Ok(e) => e,
        Err(error) => panic!("ERROR : {:?}", error),
    };
    match &reduced.kind {
        ElementKind::Expression(ExprKind::Binary { op, left, right }) => {
            assert_eq!(*op, Token::Minus);
            assert_eq!(num_text(right), "3");
            match &left.kind {
                ElementKind::Expression(ExprKind::Binary { op, left, right }) => {
                    assert_eq!(*op, Token::Plus);
                    assert_eq!(num_text(left), "5");
                    match &right.kind {
                        ElementKind::Expression(ExprKind::Binary { op, left, right }) => {
                            assert_eq!(*op, Token::Star);
                            assert_eq!(num_text(left), "6");
                            assert_eq!(num_text(right), "2");
                        },
                        other => panic!("expected 6 * 2, got {:?}", other),
                    }
                },
                other => panic!("expected 5 + (6 * 2), got {:?}", other),
            }
        },
        other => panic!("expected a binary expression, got {:?}", other),
    }
}

#[test]
fn same_tier_chain_is_left_associative() {
    // 5 + 4 - 3 reduces to ((5 + 4) - 3), never (5 + (4 - 3))
    let group = vec![num("5", 0), el(Token::Plus, 1), num("4", 2), el(Token::Minus, 3), num("3", 4)];
    let reduced = reduce(group).unwrap();
    match &reduced.kind {
        ElementKind::Expression(ExprKind::Binary { op, left, right }) => {
            assert_eq!(*op, Token::Minus);
            assert_eq!(num_text(right), "3");
            match &left.kind {
                ElementKind::Expression(ExprKind::Binary { op, left, right }) => {
                    assert_eq!(*op, Token::Plus);
                    assert_eq!(num_text(left), "5");
                    assert_eq!(num_text(right), "4");
                },
                other => panic!("expected (5 + 4), got {:?}", other),
            }
        },
        other => panic!("expected a binary expression, got {:?}", other),
    }
}

#[test]
fn multiplication_binds_tighter_than_addition() {
    // 5 + 4 * 3 reduces to (5 + (4 * 3))
    let group = vec![num("5", 0), el(Token::Plus, 1), num("4", 2), el(Token::Star, 3), num("3", 4)];
    let reduced = reduce(group).unwrap();
    match &reduced.kind {
        ElementKind::Expression(ExprKind::Binary { op, left, right }) => {
            assert_eq!(*op, Token::Plus);
            assert_eq!(num_text(left), "5");
            match &right.kind {
                ElementKind::Expression(ExprKind::Binary { op, left, right }) => {
                    assert_eq!(*op, Token::Star);
                    assert_eq!(num_text(left), "4");
                    assert_eq!(num_text(right), "3");
                },
                other => panic!("expected (4 * 3), got {:?}", other),
            }
        },
        other => panic!("expected a binary expression, got {:?}", other),
    }
}

#[test]
fn exponent_binds_tighter_than_multiplication() {
    // 2 ^ 3 * 4 reduces to ((2 ^ 3) * 4)
    let group = vec![
        num("2", 0),
        el(Token::Carrot, 1),
        num("3", 2),
        el(Token::Star, 3),
        num("4", 4),
    ];
    let reduced = reduce(group).unwrap();
    match &reduced.kind {
        ElementKind::Expression(ExprKind::Binary { op, left, right }) => {
            assert_eq!(*op, Token::Star);
            assert_eq!(num_text(right), "4");
            match &left.kind {
                ElementKind::Expression(ExprKind::Binary { op, left, right }) => {
                    assert_eq!(*op, Token::Carrot);
                    assert_eq!(num_text(left), "2");
                    assert_eq!(num_text(right), "3");
                },
                other => panic!("expected (2 ^ 3), got {:?}", other),
            }
        },
        other => panic!("expected a binary expression, got {:?}", other),
    }
}

#[test]
fn chained_logical_operators() {
    // 50 == 4 and 3 <= 10 or true reduces to
    // ((50 == 4) and (3 <= 10)) or true
    let group = vec![
        num("50", 0),
        el(Token::EqualEqual, 1),
        num("4", 2),
        el(Token::And, 3),
        num("3", 4),
        el(Token::LessEqual, 5),
        num("10", 6),
        el(Token::Or, 7),
        el(Token::True, 8),
    ];
    let reduced = reduce(group).unwrap();
    match &reduced.kind {
        ElementKind::Expression(ExprKind::Binary { op, left, right }) => {
            assert_eq!(*op, Token::Or);
            assert!(matches!(
                &right.kind,
                ElementKind::Expression(ExprKind::Literal(Token::True))
            ));
            match &left.kind {
                ElementKind::Expression(ExprKind::Binary { op, left, right }) => {
                    assert_eq!(*op, Token::And);
                    match &left.kind {
                        ElementKind::Expression(ExprKind::Binary { op, left, right }) => {
                            assert_eq!(*op, Token::EqualEqual);
                            assert_eq!(num_text(left), "50");
                            assert_eq!(num_text(right), "4");
                        },
                        other => panic!("expected (50 == 4), got {:?}", other),
                    }
                    match &right.kind {
                        ElementKind::Expression(ExprKind::Binary { op, left, right }) => {
                            assert_eq!(*op, Token::LessEqual);
                            assert_eq!(num_text(left), "3");
                            assert_eq!(num_text(right), "10");
                        },
                        other => panic!("expected (3 <= 10), got {:?}", other),
                    }
                },
                other => panic!("expected a logical and, got {:?}", other),
            }
        },
        other => panic!("expected a binary expression, got {:?}", other),
    }
}

#[test]
fn unary_minus_alone() {
    // -5 reduces to Unary("-", 5)
    let group = vec![el(Token::Minus, 0), num("5", 1)];
    let reduced = reduce(group).unwrap();
    match &reduced.kind {
        ElementKind::Expression(ExprKind::Unary { op, operand }) => {
            assert_eq!(*op, Token::Minus);
            assert_eq!(num_text(operand), "5");
        },
        other => panic!("expected a unary expression, got {:?}", other),
    }
}

#[test]
fn unary_binds_tighter_than_binary() {
    // -5 + 4 reduces to ((-5) + 4)
    let group = vec![el(Token::Minus, 0), num("5", 1), el(Token::Plus, 2), num("4", 3)];
    let reduced = reduce(group).unwrap();
    match &reduced.kind {
        ElementKind::Expression(ExprKind::Binary { op, left, right }) => {
            assert_eq!(*op, Token::Plus);
            assert_eq!(num_text(right), "4");
            match &left.kind {
                ElementKind::Expression(ExprKind::Unary { op, operand }) => {
                    assert_eq!(*op, Token::Minus);
                    assert_eq!(num_text(operand), "5");
                },
                other => panic!("expected (-5), got {:?}", other),
            }
        },
        other => panic!("expected a binary expression, got {:?}", other),
    }
}

#[test]
fn reducing_a_reduced_node_is_a_no_op() {
    // a fully reduced singleton group comes back unchanged
    let reduced = reduce(vec![num("7", 0)]).unwrap();
    let again = reduce(vec![reduced]).unwrap();
    assert_eq!(again, reduce(vec![num("7", 0)]).unwrap());

    let stmt = reduce(vec![el(Token::Break, 0)]).unwrap();
    assert!(matches!(&stmt.kind, ElementKind::Statement(StmtKind::Break)));
    let stmt_again = reduce(vec![stmt]).unwrap();
    assert!(matches!(&stmt_again.kind, ElementKind::Statement(StmtKind::Break)));
}

#[test]
fn simple_assignment_shape() {
    // bob = 5 + 4
    let group = vec![
        el(Token::Identifier("bob".to_string()), 0),
        el(Token::Equal, 1),
        num("5", 2),
        el(Token::Plus, 3),
        num("4", 4),
    ];
    let reduced = reduce(group).unwrap();
    match &reduced.kind {
        ElementKind::Statement(StmtKind::Assignment { targets, values, is_local }) => {
            assert!(!is_local);
            assert_eq!(targets.len(), 1);
            assert_eq!(values.len(), 1);
            assert!(matches!(&targets[0].kind, ElementKind::Expression(ExprKind::Var(n)) if n == "bob"));
            assert!(matches!(
                &values[0].kind,
                ElementKind::Expression(ExprKind::Binary { op: Token::Plus, .. })
            ));
        },
        other => panic!("expected an assignment, got {:?}", other),
    }
}

#[test]
fn local_assignment_with_two_names() {
    // local bob, linda = 5, 4
    let group = vec![
        el(Token::Local, 0),
        el(Token::Identifier("bob".to_string()), 1),
        el(Token::Comma, 2),
        el(Token::Identifier("linda".to_string()), 3),
        el(Token::Equal, 4),
        num("5", 5),
        el(Token::Comma, 6),
        num("4", 7),
    ];
    let reduced = reduce(group).unwrap();
    match &reduced.kind {
        ElementKind::Statement(StmtKind::Assignment { targets, values, is_local }) => {
            assert!(is_local);
            assert_eq!(targets.len(), 2);
            assert_eq!(values.len(), 2);
            assert!(matches!(&targets[1].kind, ElementKind::Expression(ExprKind::Var(n)) if n == "linda"));
            assert_eq!(num_text(&values[0]), "5");
            assert_eq!(num_text(&values[1]), "4");
        },
        other => panic!("expected a local assignment, got {:?}", other),
    }
}

#[test]
fn mismatched_assignment_counts_are_permitted() {
    // bob, linda, jorge = 5 * 4 + 3, false gives a 3-target, 2-value
    // assignment: value-count reconciliation is an evaluator concern
    let group = vec![
        el(Token::Identifier("bob".to_string()), 0),
        el(Token::Comma, 1),
        el(Token::Identifier("linda".to_string()), 2),
        el(Token::Comma, 3),
        el(Token::Identifier("jorge".to_string()), 4),
        el(Token::Equal, 5),
        num("5", 6),
        el(Token::Star, 7),
        num("4", 8),
        el(Token::Plus, 9),
        num("3", 10),
        el(Token::Comma, 11),
        el(Token::False, 12),
    ];
    let reduced = reduce(group).unwrap();
    match &reduced.kind {
        ElementKind::Statement(StmtKind::Assignment { targets, values, is_local }) => {
            assert!(!is_local);
            assert_eq!(targets.len(), 3);
            assert_eq!(values.len(), 2);
            // 5 * 4 + 3 must itself obey precedence: ((5 * 4) + 3)
            match &values[0].kind {
                ElementKind::Expression(ExprKind::Binary { op, left, right }) => {
                    assert_eq!(*op, Token::Plus);
                    assert_eq!(num_text(right), "3");
                    assert!(matches!(
                        &left.kind,
                        ElementKind::Expression(ExprKind::Binary { op: Token::Star, .. })
                    ));
                },
                other => panic!("expected ((5 * 4) + 3), got {:?}", other),
            }
        },
        other => panic!("expected an assignment, got {:?}", other),
    }
}

#[test]
fn left_side_must_be_a_var() {
    // 5 = 3 names the offending side
    let group = vec![num("5", 0), el(Token::Equal, 1), num("3", 2)];
    match reduce(group) {
        Err(deimos_core::diagnostics::SyntaxError::Contextual { message, .. }) => {
            assert_eq!(message, "Left side of '=' must be a var");
        },
        other => panic!("expected a contextual error, got {:?}", other),
    }
}

#[test]
fn right_side_must_be_an_expression() {
    // x = end
    let group = vec![
        el(Token::Identifier("x".to_string()), 0),
        el(Token::Equal, 1),
        el(Token::End, 2),
    ];
    match reduce(group) {
        Err(deimos_core::diagnostics::SyntaxError::Contextual { message, .. }) => {
            assert_eq!(message, "Right side of '=' must be an expression");
        },
        other => panic!("expected a contextual error, got {:?}", other),
    }
}

#[test]
fn empty_item_in_target_list() {
    // x, = 5 has an empty second target
    let group = vec![
        el(Token::Identifier("x".to_string()), 0),
        el(Token::Comma, 1),
        el(Token::Equal, 2),
        num("5", 3),
    ];
    match reduce(group) {
        Err(deimos_core::diagnostics::SyntaxError::Contextual { message, .. }) => {
            assert_eq!(message, "empty item in a comma-separated list");
        },
        other => panic!("expected a contextual error, got {:?}", other),
    }
}

#[test]
fn irreducible_group_is_a_syntax_error() {
    // 5 + has nothing to fold
    let group = vec![num("5", 0), el(Token::Plus, 1)];
    match reduce(group) {
        Err(deimos_core::diagnostics::SyntaxError::Syntax { span }) => {
            assert_eq!(span.get_range(), (0, 2));
        },
        other => panic!("expected a syntax error, got {:?}", other),
    }
}

#[test]
fn return_with_values() {
    // return 5, 4
    let group = vec![
        el(Token::Return, 0),
        num("5", 1),
        el(Token::Comma, 2),
        num("4", 3),
    ];
    let reduced = reduce(group).unwrap();
    match &reduced.kind {
        ElementKind::Statement(StmtKind::Return { values }) => {
            assert_eq!(values.len(), 2);
            assert_eq!(num_text(&values[0]), "5");
            assert_eq!(num_text(&values[1]), "4");
        },
        other => panic!("expected a return statement, got {:?}", other),
    }
}

#[test]
fn return_values_must_be_expressions() {
    let group = vec![el(Token::Return, 0), el(Token::End, 1)];
    match reduce(group) {
        Err(deimos_core::diagnostics::SyntaxError::Contextual { message, .. }) => {
            assert_eq!(message, "return values must be expressions");
        },
        other => panic!("expected a contextual error, got {:?}", other),
    }
}

#[test]
fn reduce_of_empty_group_is_internal() {
    match reduce(Vec::new()) {
        Err(deimos_core::diagnostics::SyntaxError::Internal { message }) => {
            assert_eq!(message, "parser found an empty statement");
        },
        other => panic!("expected an internal error, got {:?}", other),
    }
}

#[test]
fn binary_node_span_covers_operands() {
    // the span of 5 + 4 runs from the start of 5 to the end of 4
    let group = vec![num("5", 0), el(Token::Plus, 2), num("4", 4)];
    let reduced = reduce(group).unwrap();
    assert_eq!(reduced.span.get_range(), (0, 5));
}
