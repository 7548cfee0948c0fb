use compiler_11::ast::{
    AstComparable, Expression, FunctionCall, FunctionDef, OperatorUse, ValidInFunctionBody,
    Variable,
};
use compiler_11::data_type::DataType;
use compiler_11::file::File;
use compiler_11::ast::VarReference;
use compiler_11::lexer::token::{Token, TokenType};

fn expected_add_function() -> FunctionDef {
    FunctionDef {
        name: "add".to_string(),
        args: vec![
            Variable { name: "a".to_string(), type_: DataType::Int, value: None },
            Variable { name: "b".to_string(), type_: DataType::Int, value: None },
        ],
        return_type: DataType::Int,
        body: vec![ValidInFunctionBody::Return(Expression::OperatorUse(OperatorUse {
            left: Box::new(Expression::VarReference(VarReference { name: "a".to_string() })),
            operator: "+".to_string(),
            right: Box::new(Expression::VarReference(VarReference { name: "b".to_string() })),
        }))],
    }
}

fn expected_result_variable() -> Variable {
    Variable {
        name: "result".to_string(),
        type_: DataType::Int,
        value: Some(Expression::FunctionCall(FunctionCall {
            name: "add".to_string(),
            args: vec![
                Expression::Token(Token { type_: TokenType::Number, value: "1".to_string() }),
                Expression::Token(Token { type_: TokenType::Number, value: "2".to_string() }),
            ],
        })),
    }
}

#[test]
fn file_test_parse_file() {
    let code = "func add(a int, b int,): int { return a + b } \n var result int = add(1, 2,)";
    let file = File::parse(code).unwrap();
    let parsed_add_function = file.lookup_function("add").unwrap();

    assert!(parsed_add_function.compare(&expected_add_function()).is_ok());
    assert!(file.lookup_variable("result").unwrap().compare(&expected_result_variable()).is_ok());
}

#[test]
fn file_parse_test_test_parse_file() {
    let code = "func add(a int, b int,): int { return a + b } \n var result int = add(1, 2,)";
    let file = File::parse(code).unwrap();
    let parsed_add_function = file.lookup_function("add").unwrap();

    assert!(parsed_add_function.compare(&expected_add_function()).is_ok());
    assert!(file.lookup_variable("result").unwrap().compare(&expected_result_variable()).is_ok());
}

#[test]
fn parse_top_level_declarations_without_keywords() {
    let code = "add(a int): int { return a }\n Person { name string }\n var n int = 3";
    let file = File::parse(code).unwrap();
    assert!(file.lookup_function("add").is_some());
    assert!(file.lookup_struct("Person").is_some());
    assert!(file.lookup_variable("n").is_some());
    assert!(file.lookup_function("missing").is_none());
    assert_eq!(file.name, "main");
}

#[test]
fn parse_empty_source_yields_empty_tables() {
    let file = File::parse("   \n \n ").unwrap();
    assert!(file.lookup_function("anything").is_none());
    assert!(file.lookup_variable("anything").is_none());
    assert!(file.lookup_struct("anything").is_none());
}

#[test]
fn parse_rejects_a_stray_token_at_top_level() {
    assert!(File::parse("42").is_err());
    assert!(File::parse("return 1").is_err());
}

#[test]
fn parse_reports_the_offending_range() {
    let err = File::parse("var x floaty = 1").unwrap_err();
    assert!(err.start <= err.end);
    assert!(!err.message.is_empty());
}

#[test]
fn redeclared_function_is_silently_replaced() {
    let code = "func dup(): int { return 1 }\n func dup(): string { return \"s\" }";
    let file = File::parse(code).unwrap();
    let dup = file.lookup_function("dup").unwrap();
    assert_eq!(dup.return_type, DataType::String);
}

#[test]
fn redeclared_variable_is_silently_replaced() {
    let code = "var v int = 1 \n var v string = \"s\"";
    let file = File::parse(code).unwrap();
    let v = file.lookup_variable("v").unwrap();
    assert_eq!(v.type_, DataType::String);
}

#[test]
fn redeclared_struct_is_silently_replaced() {
    let code = "struct S { a int }\n struct S { b string \n c int }";
    let file = File::parse(code).unwrap();
    let s = file.lookup_struct("S").unwrap();
    assert_eq!(s.fields.len(), 2);
    assert_eq!(s.fields[0].name, "b");
}
