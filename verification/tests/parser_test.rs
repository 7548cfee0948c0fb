use compiler_11::ast::{
    AstComparable, Expression, FunctionCall, FunctionDef, OperatorUse, ValidInFunctionBody,
    VarReference, Variable,
};
use compiler_11::data_type::DataType;
use compiler_11::lexer::token::{Token, TokenType};
use compiler_11::parser::Parser;

// Helper to assert likeness with detailed error reporting.
fn assert_ast_eq<T: AstComparable>(left: &T, right: &T) {
    if let Err(errors) = left.compare(right) {
        panic!("AST comparison failed. Differences found: {:?}", errors);
    }
}

// Helper to create a simple token.
fn token(ty: TokenType, value: &str) -> Token {
    Token { type_: ty, value: value.to_string() }
}

// Helper to create a simple expression.
fn expr_token(ty: TokenType, value: &str) -> Expression {
    Expression::Token(token(ty, value))
}

// Helper to create a variable reference: a bare identifier in an
// expression parses to a reference, not to a literal token.
fn expr_ref(name: &str) -> Expression {
    Expression::VarReference(VarReference { name: name.to_string() })
}

#[test]
fn test_parse_variable_declaration() {
    let mut p = Parser::new("var num int = 10");
    p.tokenizer.expect(TokenType::Keyword).unwrap();
    let var = p.parse_var().unwrap();
    assert_ast_eq(&var.name, &"num".to_string());
    assert_ast_eq(&var.type_, &DataType::Int);
    if let Some(Expression::Token(token)) = var.value {
        assert_ast_eq(&token.value, &"10".to_string());
        assert_eq!(token.value, "10");
    } else {
        panic!("Expected a value");
    }
}

#[test]
fn test_parse_function() {
    let code = "my_func(a int, b int,): int { return a + b }";
    let mut p = Parser::new(code);
    let function = p.parse_function().unwrap();

    // The expected AST structure.
    let expected = FunctionDef {
        name: "my_func".to_string(),
        args: vec![
            Variable { name: "a".to_string(), type_: DataType::Int, value: None },
            Variable { name: "b".to_string(), type_: DataType::Int, value: None },
        ],
        return_type: DataType::Int,
        body: vec![ValidInFunctionBody::Return(Expression::OperatorUse(OperatorUse {
            operator: "+".to_string(),
            left: Box::new(expr_ref("a")),
            right: Box::new(expr_ref("b")),
        }))],
    };

    assert_ast_eq(&function, &expected);

    // The same expectation, spelled out a second time.
    let expected = FunctionDef {
        name: "my_func".to_string(),
        args: vec![
            Variable { name: "a".to_string(), type_: DataType::Int, value: None },
            Variable { name: "b".to_string(), type_: DataType::Int, value: None },
        ],
        return_type: DataType::Int,
        body: vec![ValidInFunctionBody::Return(Expression::OperatorUse(OperatorUse {
            operator: "+".to_string(),
            left: Box::new(expr_ref("a")),
            right: Box::new(expr_ref("b")),
        }))],
    };

    assert_ast_eq(&function, &expected);
}

#[test]
fn test_parse_function_header() {
    let code = "my_func(a int, b int,): int";
    let mut p = Parser::new(code);
    let (name, args, return_type) = p.parse_function_header().unwrap();

    assert_eq!(name, "my_func");
    assert_eq!(args.len(), 2);

    let expected_args = vec![
        Variable { name: "a".to_string(), type_: DataType::Int, value: None },
        Variable { name: "b".to_string(), type_: DataType::Int, value: None },
    ];

    for (actual, expected) in args.iter().zip(expected_args.iter()) {
        assert_ast_eq(actual, expected);
    }

    assert_eq!(return_type, DataType::Int);
}

#[test]
fn test_parse_complex_expression() {
    let code = "var result int = (a + b) * (c - d) / e";
    let mut p = Parser::new(code);
    p.tokenizer.expect(TokenType::Keyword).unwrap();
    let var = p.parse_var().unwrap();

    assert_eq!(var.name, "result");
    assert_eq!(var.type_, DataType::Int);

    // ((a + b) * (c - d)) / e: left-associative and precedence-respecting.
    let expected = Expression::OperatorUse(OperatorUse {
        operator: "/".to_string(),
        left: Box::new(Expression::OperatorUse(OperatorUse {
            operator: "*".to_string(),
            left: Box::new(Expression::OperatorUse(OperatorUse {
                operator: "+".to_string(),
                left: Box::new(expr_ref("a")),
                right: Box::new(expr_ref("b")),
            })),
            right: Box::new(Expression::OperatorUse(OperatorUse {
                operator: "-".to_string(),
                left: Box::new(expr_ref("c")),
                right: Box::new(expr_ref("d")),
            })),
        })),
        right: Box::new(expr_ref("e")),
    });

    assert_ast_eq(&var.value.unwrap(), &expected);
}

#[test]
fn test_parse_var_with_value() {
    let code = "var result bool = a == b";
    let mut p = Parser::new(code);
    p.tokenizer.expect(TokenType::Keyword).unwrap();
    let var = p.parse_var().unwrap();

    let expected_value = Expression::OperatorUse(OperatorUse {
        operator: "==".to_string(),
        left: Box::new(expr_ref("a")),
        right: Box::new(expr_ref("b")),
    });

    assert_ast_eq(&var.value.unwrap(), &expected_value);
}

#[test]
fn test_parse_function_call_expression() {
    let code = "result = max(a + b, c * d,)";
    let mut p = Parser::new(code);
    let parsed_expression = p.parse_expression(0).unwrap();

    let expected_expression: Expression = Expression::OperatorUse(OperatorUse {
        operator: "=".to_string(),
        left: Box::new(expr_ref("result")),
        right: Box::new(Expression::FunctionCall(FunctionCall {
            name: "max".to_string(),
            args: vec![
                Expression::OperatorUse(OperatorUse {
                    operator: "+".to_string(),
                    left: Box::new(expr_ref("a")),
                    right: Box::new(expr_ref("b")),
                }),
                Expression::OperatorUse(OperatorUse {
                    operator: "*".to_string(),
                    left: Box::new(expr_ref("c")),
                    right: Box::new(expr_ref("d")),
                }),
            ],
        })),
    });

    assert_ast_eq(&parsed_expression, &expected_expression);
}

#[test]
fn test_parse_var() {
    let code = "var result int = a + b";
    let mut p = Parser::new(code);
    p.tokenizer.expect(TokenType::Keyword).unwrap();
    let parsed_var = p.parse_var().unwrap();

    let expected_var = Variable {
        name: "result".to_string(),
        type_: DataType::Int,
        value: Some(Expression::OperatorUse(OperatorUse {
            operator: "+".to_string(),
            left: Box::new(expr_ref("a")),
            right: Box::new(expr_ref("b")),
        })),
    };

    assert_ast_eq(&parsed_var, &expected_var);
}

#[test]
fn test_parse_function2() {
    let code = "func main() { send_message() }";
    let mut p = Parser::new(code);
    p.tokenizer.expect(TokenType::Keyword).unwrap();
    let parsed_function = p.parse_function().unwrap();

    let expected_function = FunctionDef {
        name: "main".to_string(),
        args: vec![],
        return_type: DataType::Untyped,
        body: vec![ValidInFunctionBody::Expression(Expression::FunctionCall(FunctionCall {
            name: "send_message".to_string(),
            args: vec![],
        }))],
    };

    assert_ast_eq(&parsed_function, &expected_function);
}

#[test]
fn test_parse_subscript_expression() {
    let code = "xs[i + 1]";
    let mut p = Parser::new(code);
    let parsed = p.parse_expression(0).unwrap();
    match parsed {
        Expression::Subscript(sub) => {
            assert_eq!(sub.name, "xs");
            match *sub.arg {
                Expression::OperatorUse(op) => assert_eq!(op.operator, "+"),
                other => panic!("expected an operator index, got {:?}", other),
            }
        },
        other => panic!("expected a subscript, got {:?}", other),
    }
}

#[test]
fn test_parse_array_literal() {
    let code = "[1, 2, 3,]";
    let mut p = Parser::new(code);
    let parsed = p.parse_expression(0).unwrap();
    match parsed {
        Expression::Array(arr) => assert_eq!(arr.elements.len(), 3),
        other => panic!("expected an array, got {:?}", other),
    }
}

#[test]
fn test_parse_named_and_anonymous_objects() {
    let mut p = Parser::new("Person{name: \"John\", age: 30}");
    match p.parse_expression(0).unwrap() {
        Expression::Object(o) => {
            assert_eq!(o.name, "Person");
            assert_eq!(o.fields.len(), 2);
            assert_eq!(o.fields[0].name, "name");
            assert_eq!(o.fields[1].name, "age");
        },
        other => panic!("expected an object, got {:?}", other),
    }
    let mut p = Parser::new("{name: \"John\"}");
    match p.parse_expression(0).unwrap() {
        Expression::Object(o) => {
            assert_eq!(o.name, "anonymous");
            assert_eq!(o.fields.len(), 1);
        },
        other => panic!("expected an object, got {:?}", other),
    }
}

#[test]
fn test_parse_struct_with_fields_and_method() {
    let code = "Person {\n name string\n age int\n func greet(): string { return name }\n}";
    let mut p = Parser::new(code);
    let parsed = p.parse_struct().unwrap();
    assert_eq!(parsed.name, "Person");
    assert_eq!(parsed.fields.len(), 2);
    assert_eq!(parsed.fields[0].name, "name");
    assert_eq!(parsed.fields[1].name, "age");
    assert_eq!(parsed.methods.len(), 1);
    assert_eq!(parsed.methods[0].name, "greet");
    assert_eq!(parsed.methods[0].return_type, DataType::String);
}

#[test]
fn test_parse_unknown_type_is_rejected() {
    let mut p = Parser::new("var x floaty = 1");
    p.tokenizer.expect(TokenType::Keyword).unwrap();
    assert!(p.parse_var().is_err());
}

#[test]
fn test_parse_comma_before_expression_is_rejected() {
    let mut p = Parser::new("max(, 1)");
    assert!(p.parse_expression(0).is_err());
}

#[test]
fn test_parse_equal_precedence_chains_left() {
    let code = "a - b - c";
    let mut p = Parser::new(code);
    let parsed = p.parse_expression(0).unwrap();

    // (a - b) - c, not a - (b - c).
    let expected = Expression::OperatorUse(OperatorUse {
        operator: "-".to_string(),
        left: Box::new(Expression::OperatorUse(OperatorUse {
            operator: "-".to_string(),
            left: Box::new(expr_ref("a")),
            right: Box::new(expr_ref("b")),
        })),
        right: Box::new(expr_ref("c")),
    });
    assert_ast_eq(&parsed, &expected);
}

#[test]
fn test_parse_precedence_binds_multiplication_tighter() {
    let code = "a + b*7";
    let mut p = Parser::new(code);
    let parsed = p.parse_expression(0).unwrap();

    let expected = Expression::OperatorUse(OperatorUse {
        operator: "+".to_string(),
        left: Box::new(expr_ref("a")),
        right: Box::new(Expression::OperatorUse(OperatorUse {
            operator: "*".to_string(),
            left: Box::new(expr_ref("b")),
            right: Box::new(expr_token(TokenType::Number, "7")),
        })),
    });
    assert_ast_eq(&parsed, &expected);
}
