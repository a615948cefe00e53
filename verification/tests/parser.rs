use lox::parser::{AstExpression, AstLiteral, Expression, ParseError, Parser, Stmt, StmtDeclaration};

fn parse_expression(code: &str) -> Result<AstExpression, String> {
    let with_semi = if code.ends_with(';') { code.to_string() } else { String::from(code) + ";" };
    let mut parser = Parser::new(&with_semi);
    let mut statements = parser.parse();
    let ast = statements.swap_remove(0);
    match ast.node {
        Stmt::Expression(expr) => Ok(expr),
        _ => Err("input should contain single expression".to_string()),
    }
}

#[test]
fn test_get_property_simple() {
    let expr = parse_expression("obj.field").unwrap();
    match expr.node {
        Expression::GetProperty { object, name } => {
            assert_eq!(name, "field");
            match object.node {
                Expression::Identier(obj_name) => assert_eq!(obj_name, "obj"),
                _ => panic!("Expected identifier for object"),
            }
        }
        _ => panic!("Expected GetProperty expression"),
    }
}

#[test]
fn test_get_property_chained() {
    let expr = parse_expression("obj.a.b.c").unwrap();
    match expr.node {
        Expression::GetProperty { object, name } => {
            assert_eq!(name, "c");
            match object.node {
                Expression::GetProperty { object: inner, name } => {
                    assert_eq!(name, "b");
                    match inner.node {
                        Expression::GetProperty { object: innermost, name } => {
                            assert_eq!(name, "a");
                            match innermost.node {
                                Expression::Identier(obj_name) => assert_eq!(obj_name, "obj"),
                                _ => panic!("Expected identifier"),
                            }
                        }
                        _ => panic!("Expected GetProperty"),
                    }
                }
                _ => panic!("Expected GetProperty"),
            }
        }
        _ => panic!("Expected GetProperty expression"),
    }
}

#[test]
fn test_set_property_simple() {
    let expr = parse_expression("obj.field = value").unwrap();
    match expr.node {
        Expression::SetProperty { object, name, value } => {
            assert_eq!(name, "field");
            match object.node {
                Expression::Identier(obj_name) => assert_eq!(obj_name, "obj"),
                _ => panic!("Expected identifier for object"),
            }
            match value.node {
                Expression::Identier(val_name) => assert_eq!(val_name, "value"),
                _ => panic!("Expected identifier for value"),
            }
        }
        _ => panic!("Expected SetProperty expression"),
    }
}

#[test]
fn test_set_property_chained() {
    let expr = parse_expression("obj.a.b = value").unwrap();
    match expr.node {
        Expression::SetProperty { object, name, value } => {
            assert_eq!(name, "b");
            match object.node {
                Expression::GetProperty { object: inner, name } => {
                    assert_eq!(name, "a");
                    match inner.node {
                        Expression::Identier(obj_name) => assert_eq!(obj_name, "obj"),
                        _ => panic!("Expected identifier"),
                    }
                }
                _ => panic!("Expected GetProperty for object"),
            }
            match value.node {
                Expression::Identier(val_name) => assert_eq!(val_name, "value"),
                _ => panic!("Expected identifier for value"),
            }
        }
        _ => panic!("Expected SetProperty expression"),
    }
}

#[test]
fn test_property_with_call() {
    let expr = parse_expression("obj.method()").unwrap();
    match expr.node {
        Expression::Call { calee, arguments } => {
            assert!(arguments.is_empty());
            match calee.node {
                Expression::GetProperty { object, name } => {
                    assert_eq!(name, "method");
                    match object.node {
                        Expression::Identier(obj_name) => assert_eq!(obj_name, "obj"),
                        _ => panic!("Expected identifier for object"),
                    }
                }
                _ => panic!("Expected GetProperty for calee"),
            }
        }
        _ => panic!("Expected Call expression"),
    }
}

#[test]
fn precedence_puts_products_below_sums() {
    let expr = parse_expression("1 + 2 * 3").unwrap();
    match expr.node {
        Expression::Add { left, right } => {
            assert!(matches!(left.node, Expression::Literal(_)));
            assert!(matches!(right.node, Expression::Multiply { .. }));
        }
        _ => panic!("Expected Add expression"),
    }
}

#[test]
fn a_bad_declaration_is_reported_and_parsing_goes_on() {
    let code = "var nil = 1;\nprint 2;";
    let mut parser = Parser::new(code);
    let statements = parser.parse();
    assert!(parser.had_errors());
    assert_eq!(statements.len(), 1);
    assert!(matches!(statements[0].node, Stmt::Print(_)));
    let errors = parser.into_errors();
    assert_eq!(errors.len(), 1);
    assert!(matches!(errors[0], ParseError::UnexpectedToken { .. }));
    assert_eq!(errors[0].message(), "Expect variable name.");
}

#[test]
fn a_missing_expression_at_the_end_is_reported() {
    let mut parser = Parser::new("print");
    let _ = parser.parse();
    let errors = parser.into_errors();
    assert!(!errors.is_empty());
}

fn number_text(e: &AstExpression) -> String {
    match &e.node {
        Expression::Literal(AstLiteral::NumberLiteral(n)) => n.clone(),
        _ => panic!("Expected a number literal"),
    }
}

#[test]
fn test_subtraction_groups_to_the_left() {
    let expr = parse_expression("1 - 2 - 3").unwrap();
    match expr.node {
        Expression::Subtract { left, right } => {
            assert_eq!(number_text(&right), "3");
            match left.node {
                Expression::Subtract { left: a, right: b } => {
                    assert_eq!(number_text(&a), "1");
                    assert_eq!(number_text(&b), "2");
                }
                _ => panic!("Expected the inner subtraction on the left"),
            }
        }
        _ => panic!("Expected a subtraction"),
    }
}

#[test]
fn test_multiplication_binds_more_strongly_than_addition() {
    let expr = parse_expression("1 + 2 * 3").unwrap();
    match expr.node {
        Expression::Add { left, right } => {
            assert_eq!(number_text(&left), "1");
            assert!(matches!(right.node, Expression::Multiply { .. }));
        }
        _ => panic!("Expected an addition"),
    }
    let expr = parse_expression("1 * 2 + 3").unwrap();
    match expr.node {
        Expression::Add { left, right } => {
            assert!(matches!(left.node, Expression::Multiply { .. }));
            assert_eq!(number_text(&right), "3");
        }
        _ => panic!("Expected an addition"),
    }
}

#[test]
fn test_unary_operand_is_a_primary() {
    let expr = parse_expression("-a * b").unwrap();
    match expr.node {
        Expression::Multiply { left, .. } => {
            assert!(matches!(left.node, Expression::UnaryNegation { .. }));
        }
        _ => panic!("Expected a multiplication"),
    }
}

#[test]
fn test_statement_kinds_follow_first_token() {
    let code = "var a = 1; fun f(x, y) { return x; } class C {} print a; { a; } if (a) a; while (a) a; for (;;) a; a;";
    let mut parser = Parser::new(code);
    let statements = parser.parse();
    assert!(!parser.had_errors());
    assert_eq!(statements.len(), 9);
    assert!(matches!(statements[0].node, Stmt::Declarations(StmtDeclaration::Variable { .. })));
    assert!(matches!(statements[1].node, Stmt::Declarations(StmtDeclaration::Function(_))));
    assert!(matches!(statements[2].node, Stmt::Declarations(StmtDeclaration::Class(_))));
    assert!(matches!(statements[3].node, Stmt::Print(_)));
    assert!(matches!(statements[4].node, Stmt::Block(_)));
    assert!(matches!(statements[5].node, Stmt::If(_)));
    assert!(matches!(statements[6].node, Stmt::While(_)));
    assert!(matches!(statements[7].node, Stmt::For(_)));
    assert!(matches!(statements[8].node, Stmt::Expression(_)));
}

#[test]
fn test_duplicate_parameter_is_refused() {
    let mut parser = Parser::new("fun f(a, a) {}");
    let statements = parser.parse();
    assert!(statements.is_empty());
    let errors = parser.into_errors();
    assert!(matches!(errors[0], ParseError::VariableAlreadyDeclared { .. }));
}
