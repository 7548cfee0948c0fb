use compiler_11::ast::{
    Array, AstComparable, ComparisonError, Expression, FunctionCall, FunctionDef, OperatorUse,
    VarReference, Variable,
};
use compiler_11::data_type::DataType;
use compiler_11::lexer::token::{Token, TokenType};

fn ident(name: &str) -> Expression {
    Expression::Token(Token { type_: TokenType::Identifier, value: name.to_string() })
}

fn reference(name: &str) -> Expression {
    Expression::VarReference(VarReference { name: name.to_string() })
}

#[test]
fn values_of_different_kinds_mismatch_by_variant() {
    // A literal identifier token and a variable reference are different
    // kinds, even under the same name.
    let errors = ident("a").compare(&reference("a")).unwrap_err();
    assert_eq!(errors, vec![ComparisonError::MismatchedVariant]);
    let errors = reference("a").compare(&ident("a")).unwrap_err();
    assert_eq!(errors, vec![ComparisonError::MismatchedVariant]);
    assert!(reference("a").compare(&reference("a")).is_ok());
    assert!(ident("a").compare(&ident("a")).is_ok());
    assert!(reference("a").compare(&reference("b")).is_err());
}

#[test]
fn token_comparison_collects_both_divergences() {
    let a = Token { type_: TokenType::Number, value: "1".to_string() };
    let b = Token { type_: TokenType::String, value: "2".to_string() };
    let errors = a.compare(&b).unwrap_err();
    assert_eq!(errors.len(), 2);
    let same = Token { type_: TokenType::Number, value: "1".to_string() };
    assert!(a.compare(&same).is_ok());
}

#[test]
fn function_def_comparison_collects_field_divergences() {
    let a = FunctionDef {
        name: "f".to_string(),
        args: vec![],
        return_type: DataType::Int,
        body: vec![],
    };
    let b = FunctionDef {
        name: "g".to_string(),
        args: vec![],
        return_type: DataType::String,
        body: vec![],
    };
    let errors = a.compare(&b).unwrap_err();
    assert_eq!(errors.len(), 2);
}

#[test]
fn list_comparison_collects_one_error_per_diverging_element() {
    let a = FunctionDef {
        name: "f".to_string(),
        args: vec![
            Variable { name: "a".to_string(), type_: DataType::Int, value: None },
            Variable { name: "b".to_string(), type_: DataType::Int, value: None },
            Variable { name: "c".to_string(), type_: DataType::Int, value: None },
        ],
        return_type: DataType::Int,
        body: vec![],
    };
    let b = FunctionDef {
        name: "f".to_string(),
        args: vec![
            Variable { name: "x".to_string(), type_: DataType::Int, value: None },
            Variable { name: "b".to_string(), type_: DataType::Int, value: None },
            Variable { name: "z".to_string(), type_: DataType::Int, value: None },
        ],
        return_type: DataType::Int,
        body: vec![],
    };
    let errors = a.compare(&b).unwrap_err();
    assert_eq!(errors.len(), 2);
}

#[test]
fn length_mismatch_is_reported_with_both_lengths() {
    let a = FunctionDef {
        name: "f".to_string(),
        args: vec![Variable { name: "a".to_string(), type_: DataType::Int, value: None }],
        return_type: DataType::Int,
        body: vec![],
    };
    let b = FunctionDef {
        name: "f".to_string(),
        args: vec![],
        return_type: DataType::Int,
        body: vec![],
    };
    let errors = a.compare(&b).unwrap_err();
    assert_eq!(errors, vec![ComparisonError::MismatchedLengths(1, 0)]);
}

#[test]
fn composite_literals_are_not_comparable() {
    let a = Expression::Array(Array { elements: vec![] });
    let b = Expression::Array(Array { elements: vec![] });
    let errors = a.compare(&b).unwrap_err();
    assert_eq!(errors, vec![ComparisonError::MismatchedVariant]);
}

#[test]
fn call_comparison_checks_arguments_pointwise() {
    let a = Expression::FunctionCall(FunctionCall {
        name: "f".to_string(),
        args: vec![reference("a"), reference("b")],
    });
    let same = Expression::FunctionCall(FunctionCall {
        name: "f".to_string(),
        args: vec![reference("a"), reference("b")],
    });
    let shorter = Expression::FunctionCall(FunctionCall {
        name: "f".to_string(),
        args: vec![reference("a")],
    });
    assert!(a.compare(&same).is_ok());
    assert!(a.compare(&shorter).is_err());
}

#[test]
fn variable_comparison_distinguishes_value_presence() {
    let with_value = Variable {
        name: "x".to_string(),
        type_: DataType::Int,
        value: Some(reference("y")),
    };
    let without_value =
        Variable { name: "x".to_string(), type_: DataType::Int, value: None };
    assert!(with_value.compare(&without_value).is_err());
    assert!(without_value
        .compare(&Variable { name: "x".to_string(), type_: DataType::Int, value: None })
        .is_ok());
}

#[test]
fn operator_use_comparison_reports_each_side() {
    let a = OperatorUse {
        left: Box::new(reference("a")),
        operator: "+".to_string(),
        right: Box::new(reference("b")),
    };
    let b = OperatorUse {
        left: Box::new(reference("x")),
        operator: "-".to_string(),
        right: Box::new(reference("y")),
    };
    let errors = a.compare(&b).unwrap_err();
    assert_eq!(errors.len(), 3);
    assert!(errors.contains(&ComparisonError::MismatchedValues("operators differ".to_string())));
}
