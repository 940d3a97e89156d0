use json_typegen::lexer::Lexer;
use json_typegen::token::{JsonToken, JsonType};

fn kinds(json: &str) -> Vec<JsonToken> {
    Lexer::new(json).start_lex().into_iter().map(|token| token.value).collect()
}

#[test]
fn lexer_simple_json() {
    let json = "{\"f1\": \"value\", \"f2\": true, \"f3\": 45.3, \"f4\": 12}";

    let expected_result = vec![
        JsonToken::ObjectStart, JsonToken::Name("f1".to_owned()), JsonToken::Colon, JsonToken::Value(JsonType::String),
        JsonToken::Comma, JsonToken::Name("f2".to_owned()), JsonToken::Colon, JsonToken::Value(JsonType::Bool),
        JsonToken::Comma, JsonToken::Name("f3".to_owned()), JsonToken::Colon, JsonToken::Value(JsonType::Float),
        JsonToken::Comma, JsonToken::Name("f4".to_owned()), JsonToken::Colon, JsonToken::Value(JsonType::Int),
        JsonToken::ObjectEnd,
    ];

    let lexer = Lexer::new(json);

    let tokens: Vec<JsonToken> = lexer.start_lex().into_iter().map(|token| token.value).collect();
    assert_eq!(tokens, expected_result);
}

#[test]
fn lexer_array_object_json() {
    let json = "{\"f1\": {\"f2\": true, \"f3\": 45.3, \"f4\": 12}, \"f2\": [1, 2, 3]}";
    let expected_result = vec![
        JsonToken::ObjectStart, JsonToken::Name("f1".to_owned()), JsonToken::Colon, JsonToken::ObjectStart,
        JsonToken::Name("f2".to_owned()), JsonToken::Colon, JsonToken::Value(JsonType::Bool), JsonToken::Comma,
        JsonToken::Name("f3".to_owned()), JsonToken::Colon, JsonToken::Value(JsonType::Float), JsonToken::Comma,
        JsonToken::Name("f4".to_owned()), JsonToken::Colon, JsonToken::Value(JsonType::Int), JsonToken::ObjectEnd,
        JsonToken::Comma, JsonToken::Name("f2".to_owned()), JsonToken::Colon, JsonToken::ArrayStart,
        JsonToken::Value(JsonType::Int), JsonToken::Comma, JsonToken::Value(JsonType::Int), JsonToken::Comma,
        JsonToken::Value(JsonType::Int), JsonToken::ArrayEnd, JsonToken::ObjectEnd,
    ];

    let lexer = Lexer::new(json);

    let tokens: Vec<JsonToken> = lexer.start_lex().into_iter().map(|token| token.value).collect();
    assert_eq!(tokens, expected_result);
}

#[test]
fn lexer_lex_number() {
    let json = "5423234";
    let expected_result = vec![JsonToken::Value(JsonType::Int)];

    let lexer = Lexer::new(json);
    let tokens: Vec<JsonToken> = lexer.start_lex().into_iter().map(|token| token.value).collect();

    assert_eq!(expected_result, tokens);
}

#[test]
fn lexer_lex_float() {
    let json = "542.3234";
    let expected_result = vec![JsonToken::Value(JsonType::Float)];

    let lexer = Lexer::new(json);
    let tokens: Vec<JsonToken> = lexer.start_lex().into_iter().map(|token| token.value).collect();

    assert_eq!(expected_result, tokens);
}

#[test]
fn lexer_skip_number() {
    let json = "5423234,{";

    let lexer = Lexer::new(json);
    let (end, kind) = lexer.lex_number(0);
    let char = json.chars().nth(end).unwrap();

    assert_eq!(char, ',');
    assert_eq!(kind, JsonType::Int);
}

#[test]
fn lexer_skip_float_number() {
    let json = "542.3234,{";

    let lexer = Lexer::new(json);
    let (end, kind) = lexer.lex_number(0);
    let char = json.chars().nth(end).unwrap();

    assert_eq!(char, ',');
    assert_eq!(kind, JsonType::Float);
}

#[test]
fn lexer_lex_field_name() {
    let json = ",\"hola\"";
    let expected_result = vec![
        JsonToken::Comma,
        JsonToken::Name("hola".to_owned()),
    ];

    let lexer = Lexer::new(json);
    let tokens: Vec<JsonToken> = lexer.start_lex().into_iter().map(|token| token.value).collect();

    assert_eq!(tokens, expected_result);
}

#[test]
fn lexer_lex_string() {
    let json = ":\"hola\"";
    let expected_result = vec![
        JsonToken::Colon,
        JsonToken::Value(JsonType::String),
    ];

    let lexer = Lexer::new(json);
    let tokens: Vec<JsonToken> = lexer.start_lex().into_iter().map(|token| token.value).collect();

    assert_eq!(tokens, expected_result);
}

#[test]
fn lexer_lex_bool() {
    let json = "true";

    let expected_result = vec![
        JsonToken::Value(JsonType::Bool),
    ];

    let lexer = Lexer::new(json);
    let tokens: Vec<JsonToken> = lexer.start_lex().into_iter().map(|token| token.value).collect();

    assert_eq!(tokens, expected_result);
}

#[test]
fn lex_bad_name_after_degree_symbol() {
    let json = "{\"2\":\"aº\", \"ab\": 32}";

    let expected_result = vec![
        JsonToken::ObjectStart, JsonToken::Name("2".to_owned()), JsonToken::Colon,
        JsonToken::Value(JsonType::String), JsonToken::Comma, JsonToken::Name("ab".to_owned()),
        JsonToken::Colon, JsonToken::Value(JsonType::Int), JsonToken::ObjectEnd,
    ];

    let lexer = Lexer::new(json);
    let tokens: Vec<JsonToken> = lexer.start_lex().into_iter().map(|token| token.value).collect();
    assert_eq!(tokens, expected_result)
}

#[test]
fn lex_bool_end_on_right_brace() {
    let json = "true}";
    let expected_result = vec![
        JsonToken::Value(JsonType::Bool), JsonToken::ObjectEnd,
    ];

    let lexer = Lexer::new(json);
    let tokens: Vec<JsonToken> = lexer.start_lex().into_iter().map(|token| token.value).collect();
    assert_eq!(tokens, expected_result)
}

#[test]
fn null_token() {
    let json = "null";
    let expected_result = vec![
        JsonToken::Value(JsonType::Null)
    ];

    let lexer = Lexer::new(json);
    let tokens: Vec<JsonToken> = lexer.start_lex().into_iter().map(|token| token.value).collect();

    assert_eq!(tokens, expected_result)
}

#[test]
fn empty_text_gives_no_tokens() {
    assert_eq!(kinds(""), vec![]);
    assert_eq!(kinds("  \n\t "), vec![]);
}

#[test]
fn false_is_a_bool() {
    assert_eq!(kinds(":false,"), vec![JsonToken::Colon, JsonToken::Value(JsonType::Bool), JsonToken::Comma]);
}

#[test]
fn single_digit_at_end_of_line_is_a_number() {
    let json = "{\"a\": 5\n}";
    assert_eq!(
        kinds(json),
        vec![
            JsonToken::ObjectStart, JsonToken::Name("a".to_owned()), JsonToken::Colon,
            JsonToken::Value(JsonType::Int), JsonToken::ObjectEnd,
        ]
    );
}

#[test]
fn escaped_quote_stays_inside_a_string() {
    let json = "{\"a\": \"x\\\"y\", \"b\": 1}";
    assert_eq!(
        kinds(json),
        vec![
            JsonToken::ObjectStart, JsonToken::Name("a".to_owned()), JsonToken::Colon,
            JsonToken::Value(JsonType::String), JsonToken::Comma, JsonToken::Name("b".to_owned()),
            JsonToken::Colon, JsonToken::Value(JsonType::Int), JsonToken::ObjectEnd,
        ]
    );
}

#[test]
fn quote_after_a_value_is_skipped() {
    assert_eq!(kinds("[\"a\"]"), vec![JsonToken::ArrayStart, JsonToken::ArrayEnd]);
}

#[test]
fn tokens_carry_line_and_column() {
    let json = "{\n  \"ab\": 12,\n  \"c\": true\n}";
    let tokens = Lexer::new(json).start_lex();
    let places: Vec<(usize, usize)> = tokens.iter().map(|t| (t.line, t.col)).collect();
    assert_eq!(
        places,
        vec![(0, 0), (1, 2), (1, 6), (1, 8), (1, 10), (2, 2), (2, 5), (2, 7), (3, 0)]
    );
}
