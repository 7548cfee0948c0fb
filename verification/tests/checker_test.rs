use compiler_11::ast::{Expression, FunctionDef, OperatorUse, Variable};
use compiler_11::data_type::{type_from, DataType};
use compiler_11::diagnostics::TypeError;
use compiler_11::file::File;
use compiler_11::get_type::HasType;
use compiler_11::in_function_scope_validation::find_var_type_from_local_scope;
use compiler_11::lexer::token::{Token, TokenType};
use compiler_11::scope_placement_info::ScopePlacementInfo;

#[test]
fn well_typed_program_checks_without_error() {
    let code = "func add(a int, b int): int { var s int = a + b \n return s } \n var result int = add(1, 2)";
    let file = File::parse(code).unwrap();
    assert!(file.validate_global_variable_types().is_ok());
    assert!(file.validate_functions().is_ok());
}

#[test]
fn return_type_mismatch_fails() {
    let code = "func f(): int { return \"hi\" }";
    let file = File::parse(code).unwrap();
    let err = file.validate_functions().unwrap_err();
    assert!(matches!(err, TypeError::ReturnMismatch { .. }));
}

#[test]
fn operand_type_mismatch_fails() {
    let code = "var g int = 1 + \"x\"";
    let file = File::parse(code).unwrap();
    let err = file.validate_global_variable_types().unwrap_err();
    assert!(matches!(err, TypeError::OperandMismatch { .. }));
}

#[test]
fn unknown_function_fails() {
    let code = "var g int = missing(1)";
    let file = File::parse(code).unwrap();
    let err = file.validate_global_variable_types().unwrap_err();
    assert!(matches!(err, TypeError::UnknownFunction { .. }));
}

#[test]
fn unknown_variable_fails() {
    let code = "func f() { ghostly }";
    let file = File::parse(code).unwrap();
    let err = file.validate_functions().unwrap_err();
    assert!(matches!(err, TypeError::UnknownVariable { .. }));
}

#[test]
fn wrong_argument_count_fails() {
    let code = "func f(a int): int { return a }\n var g int = f(1, 2)";
    let file = File::parse(code).unwrap();
    let err = file.validate_global_variable_types().unwrap_err();
    assert!(matches!(err, TypeError::ArgumentCountMismatch { .. }));
}

#[test]
fn wrong_argument_type_fails_with_its_position() {
    let code = "func f(a int, b string): int { return a }\n var g int = f(1, 2)";
    let file = File::parse(code).unwrap();
    let err = file.validate_global_variable_types().unwrap_err();
    match err {
        TypeError::ArgumentMismatch { position, expected, actual, .. } => {
            assert_eq!(position, 2);
            assert_eq!(expected, DataType::String);
            assert_eq!(actual, DataType::Int);
        },
        other => panic!("expected an argument mismatch, got {:?}", other),
    }
}

#[test]
fn declared_variable_type_mismatch_fails() {
    let code = "var g string = 1";
    let file = File::parse(code).unwrap();
    let err = file.validate_global_variable_types().unwrap_err();
    assert!(matches!(err, TypeError::VariableMismatch { .. }));
}

#[test]
fn global_without_type_or_value_cannot_be_inferred() {
    let mut file = File::new("main");
    file.insert_variable(Variable {
        name: "g".to_string(),
        type_: DataType::Untyped,
        value: None,
    });
    let err = file.validate_global_variable_types().unwrap_err();
    assert!(matches!(err, TypeError::CannotInfer { .. }));
}

#[test]
fn composite_literal_has_no_inference_rule() {
    let code = "var g int = [1, 2]";
    let file = File::parse(code).unwrap();
    let err = file.validate_global_variable_types().unwrap_err();
    assert!(matches!(err, TypeError::UnsupportedExpression));
}

#[test]
fn literal_token_kinds_type_as_themselves() {
    let num = Expression::Token(Token { type_: TokenType::Number, value: "7".to_string() });
    assert_eq!(num.get_type().unwrap(), DataType::Int);
    let text = Expression::Token(Token { type_: TokenType::String, value: "hi".to_string() });
    assert_eq!(text.get_type().unwrap(), DataType::String);
    let kw = Expression::Token(Token { type_: TokenType::Keyword, value: "var".to_string() });
    assert!(matches!(kw.get_type().unwrap_err(), TypeError::UnknownLiteral { .. }));
}

#[test]
fn operator_use_requires_equal_operand_types() {
    let op = OperatorUse {
        left: Box::new(Expression::Token(Token {
            type_: TokenType::Number,
            value: "1".to_string(),
        })),
        operator: "+".to_string(),
        right: Box::new(Expression::Token(Token {
            type_: TokenType::String,
            value: "x".to_string(),
        })),
    };
    assert!(matches!(op.get_type().unwrap_err(), TypeError::OperandMismatch { .. }));
    let same = OperatorUse {
        left: Box::new(Expression::Token(Token {
            type_: TokenType::Number,
            value: "1".to_string(),
        })),
        operator: "+".to_string(),
        right: Box::new(Expression::Token(Token {
            type_: TokenType::Number,
            value: "2".to_string(),
        })),
    };
    assert_eq!(same.get_type().unwrap(), DataType::Int);
}

#[test]
fn local_declaration_shadows_parameter_and_global() {
    // `x` exists as a string global, a string parameter and an int local:
    // the local wins at its own statement and after it.
    let code =
        "var x string = \"g\"\n func f(x string): int { var x int = 1 \n return x }";
    let file = File::parse(code).unwrap();
    assert!(file.validate_global_variable_types().is_ok());
    assert!(file.validate_functions().is_ok());

    let f = file.lookup_function("f").unwrap();
    let at_return = ScopePlacementInfo { function_def: f, index: 1 };
    assert_eq!(find_var_type_from_local_scope("x", &at_return), Some(DataType::Int));
}

#[test]
fn parameter_shadows_global() {
    let code = "var x string = \"g\"\n func f(x int): int { return x }";
    let file = File::parse(code).unwrap();
    assert!(file.validate_functions().is_ok());
    let f = file.lookup_function("f").unwrap();
    let at_return = ScopePlacementInfo { function_def: f, index: 0 };
    assert_eq!(find_var_type_from_local_scope("x", &at_return), Some(DataType::Int));
}

#[test]
fn unshadowed_name_resolves_to_the_global() {
    let code = "var x string = \"g\"\n func f(): string { return x }";
    let file = File::parse(code).unwrap();
    assert!(file.validate_functions().is_ok());
    let f = file.lookup_function("f").unwrap();
    let at_return = ScopePlacementInfo { function_def: f, index: 0 };
    assert_eq!(find_var_type_from_local_scope("x", &at_return), None);
    let body_expr = match &f.body[0] {
        compiler_11::ast::ValidInFunctionBody::Return(e) => e,
        other => panic!("expected a return statement, got {:?}", other),
    };
    let info = ScopePlacementInfo { function_def: f, index: 0 };
    assert_eq!(HasType::get_type(body_expr, &file, Some(&info)).unwrap(), DataType::String);
}

#[test]
fn initializer_sees_its_own_declared_type() {
    // The backward scan includes the current statement, so the declaration's
    // own initializer resolves `x` to the declared type at that statement.
    let code = "func f(): int { var x int = x \n return x }";
    let file = File::parse(code).unwrap();
    assert!(file.validate_functions().is_ok());
}

#[test]
fn checking_fails_on_the_first_bad_statement() {
    let code = "func f(): int { var a int = \"s\" \n var b string = 1 \n return a }";
    let file = File::parse(code).unwrap();
    let err = file.validate_functions().unwrap_err();
    match err {
        TypeError::VariableMismatch { name, expected, actual } => {
            assert_eq!(name, "a");
            assert_eq!(expected, DataType::Int);
            assert_eq!(actual, DataType::String);
        },
        other => panic!("expected the first declaration to fail, got {:?}", other),
    }
}

#[test]
fn call_returns_the_declared_return_type() {
    let code = "func name_of(): string { return \"n\" }\n var g string = name_of()";
    let file = File::parse(code).unwrap();
    assert!(file.validate_global_variable_types().is_ok());
}

#[test]
fn type_from_resolves_the_three_type_names() {
    assert_eq!(type_from("int"), Some(DataType::Int));
    assert_eq!(type_from("string"), Some(DataType::String));
    assert_eq!(type_from("bool"), Some(DataType::Bool));
    assert_eq!(type_from("none"), None);
    assert_eq!(type_from(""), None);
}

#[test]
fn empty_function_definition_checks() {
    let f = FunctionDef {
        name: "noop".to_string(),
        args: vec![],
        return_type: DataType::Untyped,
        body: vec![],
    };
    let mut file = File::new("main");
    file.insert_function(f);
    assert!(file.validate_functions().is_ok());
}
