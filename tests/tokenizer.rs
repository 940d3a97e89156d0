use json_typegen::lexer::Lexer;
use json_typegen::tokenizer::{Tokenizer, TokenizerError};
use json_typegen::tree::{JsonArrayType, JsonTree};

fn schema(json: &str) -> Result<Vec<JsonTree>, TokenizerError> {
    Tokenizer::new(Lexer::new(json).start_lex()).start_tokenizer()
}

#[test]
#[should_panic]
fn tokenizer_syntax_error_on_no_root_brace() {
    let json = "\"error\": \"oof\"";

    let lexer = Lexer::new(json);
    let tokenizer = Tokenizer::new(lexer.start_lex());
    tokenizer.start_tokenizer().unwrap();
}

#[test]
fn tokenizer_simple_json() {
    let json = "{\"f1\": \"value\", \"f2\": true, \"f3\": 45.3, \"f4\": 12}";
    let expected_result = vec![
        JsonTree::String("f1".to_owned()),
        JsonTree::Bool("f2".to_owned()),
        JsonTree::Float("f3".to_owned()),
        JsonTree::Int("f4".to_owned()),
    ];

    let lexer = Lexer::new(json);
    let lexer_result = lexer.start_lex();
    let tokenizer = Tokenizer::new(lexer_result);

    let tree = tokenizer.start_tokenizer().unwrap();
    assert_eq!(tree, expected_result);
}

#[test]
fn tokenizer_nested_json_object() {
    let json = "{\"f1\": \"value\", \"f2\": true, \"f3\": { \"f4\": 45.3, \"f5\": {\"f6\": true, \"f7\":\"aº\"}}, \"a\": 32}";

    let expected_result = vec![
        JsonTree::String("f1".to_owned()),
        JsonTree::Bool("f2".to_owned()),
        JsonTree::JsonObject("f3".to_owned(), vec![
            JsonTree::Float("f4".to_owned()),
            JsonTree::JsonObject("f5".to_owned(), vec![
                JsonTree::Bool("f6".to_owned()),
                JsonTree::String("f7".to_owned()),
            ]),
        ]),
        JsonTree::Int("a".to_owned()),
    ];

    let lexer = Lexer::new(json);
    let lexer_result = lexer.start_lex();
    let tokenizer = Tokenizer::new(lexer_result);
    let tree = tokenizer.start_tokenizer().unwrap();

    assert_eq!(tree, expected_result);
}

#[test]
fn tokenizer_simple_array() {
    let json = "{\"f1\": [5, 3, 2, 1]}";

    let expected_result = vec![
        JsonTree::JsonArray("f1".to_owned(), JsonArrayType::Int)
    ];

    let lexer = Lexer::new(json);
    let lexer_result = lexer.start_lex();
    let tokenizer = Tokenizer::new(lexer_result);
    let tree = tokenizer.start_tokenizer().unwrap();

    assert_eq!(tree, expected_result);
}

#[test]
fn tokenizer_nested_array() {
    let json = "{\"f1\": [[5, 3], [2, 1]]}";

    let expected_result = vec![
        JsonTree::JsonArray("f1".to_owned(), JsonArrayType::JsonArray(Box::new(JsonArrayType::Int)))
    ];

    let lexer = Lexer::new(json);
    let lexer_result = lexer.start_lex();
    let tokenizer = Tokenizer::new(lexer_result);
    let tree = tokenizer.start_tokenizer().unwrap();

    assert_eq!(tree, expected_result);
}

#[test]
#[should_panic]
fn tokenizer_different_nested_array_error() {
    let json = "{\"f1\": [[5, 3], [2.0, 1.0]]}";

    let lexer = Lexer::new(json);
    let lexer_result = lexer.start_lex();
    let tokenizer = Tokenizer::new(lexer_result);
    tokenizer.start_tokenizer().unwrap();
}

#[test]
fn tokenizer_array_with_object() {
    let json = "{\"f1\": [{\"f2\": 432, \"f3\": true}]}";

    let expected_result = vec![
        JsonTree::JsonArray("f1".to_owned(), JsonArrayType::JsonObject(
            vec![
                JsonTree::Int("f2".to_owned()),
                JsonTree::Bool("f3".to_owned()),
            ]
        ))
    ];

    let lexer = Lexer::new(json);
    let lexer_result = lexer.start_lex();
    let tokenizer = Tokenizer::new(lexer_result);
    let tree = tokenizer.start_tokenizer().unwrap();

    assert_eq!(tree, expected_result);
}

#[test]
fn tokenizer_array_object_adding() {
    let json = "{\"f1\": [{\"f2\": 432, \"f3\": true}, {\"f4\": 43.2}]}";
    let expected_result = vec![
        JsonTree::JsonArray("f1".to_owned(), JsonArrayType::JsonObject(
            vec![
                JsonTree::Int("f2".to_owned()),
                JsonTree::Bool("f3".to_owned()),
                JsonTree::Float("f4".to_owned()),
            ]
        ))
    ];

    let lexer = Lexer::new(json);
    let lexer_result = lexer.start_lex();
    let tokenizer = Tokenizer::new(lexer_result);
    let tree = tokenizer.start_tokenizer().unwrap();

    assert_eq!(tree, expected_result);
}

#[test]
#[should_panic]
fn fail_on_null() {
    let json = "{ \"f2\": null }";
    let lexer = Lexer::new(json);
    let lexer_result = lexer.start_lex();
    let tokenizer = Tokenizer::new(lexer_result);
    tokenizer.start_tokenizer().unwrap();
}

#[test]
#[should_panic]
fn fail_on_empty_array() {
    let json = "{ \"f2\": [] }";
    let lexer = Lexer::new(json);
    let lexer_result = lexer.start_lex();
    let tokenizer = Tokenizer::new(lexer_result);
    tokenizer.start_tokenizer().unwrap();
}

#[test]
fn null_field_is_rejected_with_its_place() {
    assert_eq!(schema("{ \"f2\": null }"), Err(TokenizerError::NullNotSupportedError(0, 8)));
}

#[test]
fn null_inside_array_is_rejected() {
    assert_eq!(schema("{\"a\": [1, null]}"), Err(TokenizerError::NullNotSupportedError(0, 10)));
}

#[test]
fn empty_array_is_rejected_with_its_place() {
    assert_eq!(schema("{ \"f2\": [] }"), Err(TokenizerError::EmptyArrayNotSupportedError(0, 9)));
}

#[test]
fn mismatched_nested_arrays_are_a_syntax_error() {
    assert_eq!(schema("{\"f1\": [[5, 3], [2.0, 1.0]]}"), Err(TokenizerError::SyntaxError(0, 16)));
}

#[test]
fn mixed_scalars_are_a_syntax_error() {
    assert_eq!(schema("{\"f1\": [1, 2.5]}"), Err(TokenizerError::SyntaxError(0, 11)));
}

#[test]
fn object_and_scalar_elements_are_a_syntax_error() {
    assert_eq!(schema("{\"f1\": [{\"a\": 1}, 2]}"), Err(TokenizerError::SyntaxError(0, 18)));
}

#[test]
fn missing_root_brace_is_a_syntax_error() {
    assert_eq!(schema("\"error\": \"oof\""), Err(TokenizerError::SyntaxError(0, 7)));
}

#[test]
fn two_names_in_a_row_are_a_syntax_error() {
    assert_eq!(schema("{\"a\", \"b\": 1}"), Err(TokenizerError::SyntaxError(0, 6)));
}

#[test]
fn unterminated_empty_array_is_an_unknown_syntax_error() {
    assert_eq!(schema("{\"a\": ["), Err(TokenizerError::UnknownSyntaxError));
}

#[test]
fn unterminated_array_keeps_the_elements_read() {
    assert_eq!(schema("{\"a\": [1, 2").unwrap(), vec![JsonTree::JsonArray("a".to_owned(), JsonArrayType::Int)]);
}

#[test]
fn object_fields_merge_by_name() {
    let json = "{\"f1\": [{\"a\": 1, \"b\": true}, {\"b\": false, \"c\": \"x\"}, {\"a\": 2}]}";
    assert_eq!(
        schema(json).unwrap(),
        vec![JsonTree::JsonArray(
            "f1".to_owned(),
            JsonArrayType::JsonObject(vec![
                JsonTree::Int("a".to_owned()),
                JsonTree::Bool("b".to_owned()),
                JsonTree::String("c".to_owned()),
            ])
        )]
    );
}

#[test]
fn empty_object_has_no_fields() {
    assert_eq!(schema("{}").unwrap(), vec![]);
    assert_eq!(schema("").unwrap(), vec![]);
}

#[test]
fn build_wraps_the_fields_in_a_root() {
    let tokens = Lexer::new("{\"a\": 1}").start_lex();
    assert_eq!(
        Tokenizer::new(tokens).build().unwrap(),
        JsonTree::Root(vec![JsonTree::Int("a".to_owned())])
    );
}

#[test]
fn flat_object_gives_one_leaf_per_field_in_order() {
    assert_eq!(
        schema("{\"a\":7,\"b\":true,\"c\":4.5,\"d\":\"\"}").unwrap(),
        vec![
            JsonTree::Int("a".to_owned()),
            JsonTree::Bool("b".to_owned()),
            JsonTree::Float("c".to_owned()),
            JsonTree::String("d".to_owned()),
        ]
    );
}

#[test]
fn nested_object_becomes_one_object_child() {
    assert_eq!(
        schema("{\"x\": {\"y\": 1}, \"z\": false}").unwrap(),
        vec![
            JsonTree::JsonObject("x".to_owned(), vec![JsonTree::Int("y".to_owned())]),
            JsonTree::Bool("z".to_owned()),
        ]
    );
}

#[test]
fn sibling_fields_with_one_name_are_all_kept() {
    assert_eq!(
        schema("{\"a\": 1, \"a\": true}").unwrap(),
        vec![JsonTree::Int("a".to_owned()), JsonTree::Bool("a".to_owned())]
    );
}

#[test]
fn root_free_check() {
    let fields = schema("{\"a\": {\"b\": [{\"c\": 1}]}}").unwrap();
    assert!(json_typegen::tree::has_no_root(&fields));
    let nested = vec![JsonTree::JsonObject("a".to_owned(), vec![JsonTree::Root(vec![])])];
    assert!(!json_typegen::tree::has_no_root(&nested));
}
