use json_typegen::lexer::Lexer;
use json_typegen::tokenizer::Tokenizer;
use json_typegen::tree::{JsonArrayType, JsonTree};

#[test]
#[should_panic]
fn token_syntax_error_on_no_root_brace() {
    let json = "\"error\": \"oof\"";

    let lexer = Lexer::new(json);
    let tokenizer = Tokenizer::new(lexer.start_lex());
    tokenizer.build().unwrap();
}

#[test]
fn token_simple_json() {
    let json = "{\"f1\": \"value\", \"f2\": true, \"f3\": 45.3, \"f4\": 12}";
    let expected_result = JsonTree::Root(vec![
        JsonTree::String("f1".to_owned()),
        JsonTree::Bool("f2".to_owned()),
        JsonTree::Float("f3".to_owned()),
        JsonTree::Int("f4".to_owned()),
    ]);

    let lexer = Lexer::new(json);
    let lexer_result = lexer.start_lex();
    let tokenizer = Tokenizer::new(lexer_result);

    let tree = tokenizer.build().unwrap();
    assert_eq!(tree, expected_result);
}

#[test]
fn token_nested_json_object() {
    let json = "{\"f1\": \"value\", \"f2\": true, \"f3\": { \"f4\": 45.3, \"f5\": {\"f6\": true, \"f7\":\"aÂº\"}}, \"a\": 32}";

    let expected_result = JsonTree::Root(
        vec![
            JsonTree::String("f1".to_owned()),
            JsonTree::Bool("f2".to_owned()),
            JsonTree::JsonObject("f3".to_owned(), vec![
                JsonTree::Float("f4".to_owned()),
                JsonTree::JsonObject("f5".to_owned(), vec![
                    JsonTree::Bool("f6".to_owned()),
                    JsonTree::String("f7".to_owned()),
                ]),
            ]),
            JsonTree::Int("a".to_owned())
        ]
    );

    let lexer = Lexer::new(json);
    let lexer_result = lexer.start_lex();
    let tokenizer = Tokenizer::new(lexer_result);
    let tree = tokenizer.build().unwrap();

    assert_eq!(tree, expected_result);
}

#[test]
fn token_simple_array() {
    let json = "{\"f1\": [5, 3, 2, 1]}";

    let expected_result = JsonTree::Root(
        vec![
            JsonTree::JsonArray("f1".to_owned(), JsonArrayType::Int)
        ]
    );

    let lexer = Lexer::new(json);
    let lexer_result = lexer.start_lex();
    let tokenizer = Tokenizer::new(lexer_result);
    let tree = tokenizer.build().unwrap();

    assert_eq!(tree, expected_result);
}

#[test]
fn token_nested_array() {
    let json = "{\"f1\": [[5, 3], [2, 1]]}";

    let expected_result = JsonTree::Root(
        vec![
            JsonTree::JsonArray("f1".to_owned(), JsonArrayType::JsonArray(Box::new(JsonArrayType::Int)))
        ]
    );

    let lexer = Lexer::new(json);
    let lexer_result = lexer.start_lex();
    let tokenizer = Tokenizer::new(lexer_result);
    let tree = tokenizer.build().unwrap();

    assert_eq!(tree, expected_result);
}

#[test]
#[should_panic]
fn token_different_nested_array_error() {
    let json = "{\"f1\": [[5, 3], [2.0, 1.0]]}";

    let lexer = Lexer::new(json);
    let lexer_result = lexer.start_lex();
    let tokenizer = Tokenizer::new(lexer_result);
    tokenizer.build().unwrap();
}

#[test]
fn token_array_with_object() {
    let json = "{\"f1\": [{\"f2\": 432, \"f3\": true}]}";

    let expected_result = JsonTree::Root(
        vec![
            JsonTree::JsonArray("f1".to_owned(), JsonArrayType::JsonObject(
                vec![
                    JsonTree::Int("f2".to_owned()),
                    JsonTree::Bool("f3".to_owned())
                ]
            ))
        ]
    );

    let lexer = Lexer::new(json);
    let lexer_result = lexer.start_lex();
    let tokenizer = Tokenizer::new(lexer_result);
    let tree = tokenizer.build().unwrap();

    assert_eq!(tree, expected_result);
}

#[test]
fn token_array_object_adding() {
    let json = "{\"f1\": [{\"f2\": 432, \"f3\": true}, {\"f4\": 43.2}]}";
    let expected_result = JsonTree::Root(
        vec![
            JsonTree::JsonArray("f1".to_owned(), JsonArrayType::JsonObject(
                vec![
                    JsonTree::Int("f2".to_owned()),
                    JsonTree::Bool("f3".to_owned()),
                    JsonTree::Float("f4".to_owned())
                ]
            ))
        ]
    );

    let lexer = Lexer::new(json);
    let lexer_result = lexer.start_lex();
    let tokenizer = Tokenizer::new(lexer_result);
    let tree = tokenizer.build().unwrap();

    assert_eq!(tree, expected_result);
}
