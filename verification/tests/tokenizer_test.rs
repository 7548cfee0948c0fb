use compiler_11::lexer::token::TokenType;
use compiler_11::lexer::tokenizer::Tokenizer;

fn collect_types_and_values(mut t: Tokenizer) -> Vec<(TokenType, String)> {
    let mut out = Vec::new();
    while let Some(tok) = t.next() {
        out.push((tok.type_.clone(), tok.value.clone()))
    }
    out
}

#[test]
fn tokenize_identifiers_numbers_and_operators() {
    let src = "a + b*7".to_string();
    let t = Tokenizer::new(&src);
    let toks = collect_types_and_values(t);
    let expected = vec![
        (TokenType::Identifier, "a".into()),
        (TokenType::Operator, "+".into()),
        (TokenType::Identifier, "b".into()),
        (TokenType::Operator, "*".into()),
        (TokenType::Number, "7".into()),
    ];
    assert_eq!(toks, expected);
}

#[test]
fn tokenize_strings_and_punctuation() {
    let src = "(\"hi\", 42)".to_string();
    let t = Tokenizer::new(&src);
    let toks = collect_types_and_values(t);
    let expected = vec![
        (TokenType::Punctuation, "(".into()),
        (TokenType::String, "hi".into()),
        (TokenType::Punctuation, ",".into()),
        (TokenType::Number, "42".into()),
        (TokenType::Punctuation, ")".into()),
    ];
    assert_eq!(toks, expected);
}

#[test]
fn tokenize_keywords_vs_identifiers() {
    let src = "var x = func".to_string();
    let t = Tokenizer::new(&src);

    let expected = vec![
        (TokenType::Keyword, "var".into()),
        (TokenType::Identifier, "x".into()),
        (TokenType::Operator, "=".into()),
        (TokenType::Keyword, "func".into()),
    ];

    let toks = collect_types_and_values(t);
    assert_eq!(toks, expected);
}

#[test]
fn peek_does_not_advance() {
    let src = "x,y".to_string();
    let t = Tokenizer::new(&src);
    let expected = vec![
        (TokenType::Identifier, "x".into()),
        (TokenType::Punctuation, ",".into()),
        (TokenType::Identifier, "y".into()),
    ];
    let toks = collect_types_and_values(t);
    assert_eq!(toks, expected);
}

#[test]
fn peek_leaves_the_position_unchanged() {
    let src = "x,y".to_string();
    let mut t = Tokenizer::new(&src);
    let peeked = t.peek().unwrap();
    assert_eq!(peeked.value, "x");
    assert_eq!(t.index, 0);
    let consumed = t.next().unwrap();
    assert_eq!(consumed.value, "x");
    assert_eq!(t.index, 1);
}

#[test]
fn rewinding_the_index_restarts_the_stream() {
    let src = "a + b".to_string();
    let mut t = Tokenizer::new(&src);
    let first = t.next().unwrap();
    assert_eq!(first.value, "a");
    t.next().unwrap();
    t.index = 0;
    let again = t.next().unwrap();
    assert_eq!(again.value, "a");
}

#[test]
fn tokenize_two_character_operators_longest_first() {
    let src = "a == b <= c != d".to_string();
    let t = Tokenizer::new(&src);
    let toks = collect_types_and_values(t);
    let expected = vec![
        (TokenType::Identifier, "a".into()),
        (TokenType::Operator, "==".into()),
        (TokenType::Identifier, "b".into()),
        (TokenType::Operator, "<=".into()),
        (TokenType::Identifier, "c".into()),
        (TokenType::Operator, "!=".into()),
        (TokenType::Identifier, "d".into()),
    ];
    assert_eq!(toks, expected);
}

#[test]
fn tokenize_empty_source_yields_nothing() {
    let src = "".to_string();
    let mut t = Tokenizer::new(&src);
    assert!(t.next().is_none());
}

#[test]
fn tokenize_unterminated_string_ends_the_stream() {
    let src = "\"never closed".to_string();
    let mut t = Tokenizer::new(&src);
    assert!(t.next().is_none());
}

#[test]
fn expect_wrong_kind_fails_and_keeps_position() {
    let src = "42".to_string();
    let mut t = Tokenizer::new(&src);
    let err = t.expect(TokenType::Identifier).unwrap_err();
    assert_eq!(t.index, 0);
    assert!(err.end <= src.len());
    let ok = t.expect(TokenType::Number).unwrap();
    assert_eq!(ok.value, "42");
}

#[test]
fn eat_lines_skips_line_breaks_only() {
    let src = "\n\n  \n var".to_string();
    let mut t = Tokenizer::new(&src);
    t.eat_lines();
    let tok = t.next().unwrap();
    assert_eq!(tok.type_, TokenType::Keyword);
    assert_eq!(tok.value, "var");
}
