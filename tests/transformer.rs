use json_typegen::case::CaseType;
use json_typegen::config::{dart_definition, java_definition, kotlin_definition, rust_definition, ConstructorConfig, ConstructorField, TransformConfig};
use json_typegen::lexer::Lexer;
use json_typegen::tokenizer::Tokenizer;
use json_typegen::transformer::{Transformer, TransformerError};

fn render(config: TransformConfig, json: &str) -> Vec<Vec<String>> {
    let tree = Tokenizer::new(Lexer::new(json).start_lex()).start_tokenizer().unwrap();
    Transformer::new(config, tree, None).unwrap().start_transform()
}

fn error_of(config: TransformConfig) -> TransformerError {
    match Transformer::new(config, vec![], None) {
        Ok(_) => panic!("configuration accepted"),
        Err(e) => e,
    }
}

#[test]
fn transformer_simple_json() {
    let json = "{\"f1\": \"value\", \"f2\": true, \"f3\": 45.3, \"f4\": 12}";
    let expected_result = vec![
        vec![
            "#[derive(Serialize, Deserialize, Debug)]\nstruct Root {",
            "\tf1: String,",
            "\tf2: bool,",
            "\tf3: f32,",
            "\tf4: i32,",
            "}",
        ]
    ];

    let lexer = Lexer::new(json);
    let tokenizer = Tokenizer::new(lexer.start_lex());
    let transformer = Transformer::new(rust_definition(), tokenizer.start_tokenizer().unwrap(), None).unwrap();
    let result = transformer.start_transform();

    assert_eq!(result, expected_result);
}

#[test]
fn nested_json() {
    let json = "{\"f1\": \"value\", \"f2\": true, \"f3\": 45.3, \"f4\": {\"f5\": true}}";
    let expected_result = vec![
        vec![
            "#[derive(Serialize, Deserialize, Debug)]\nstruct F4 {",
            "\tf5: bool,",
            "}",
        ],
        vec![
            "#[derive(Serialize, Deserialize, Debug)]\nstruct Root {",
            "\tf1: String,",
            "\tf2: bool,",
            "\tf3: f32,",
            "\tf4: F4,",
            "}",
        ],
    ];

    let lexer = Lexer::new(json);
    let tokenizer = Tokenizer::new(lexer.start_lex());
    let transformer = Transformer::new(rust_definition(), tokenizer.start_tokenizer().unwrap(), None).unwrap();
    let result = transformer.start_transform();

    assert_eq!(result, expected_result);
}

#[test]
#[should_panic]
fn fail_on_bad_config() {
    let bad_config = TransformConfig {
        type_definition: "{nn}".to_owned(),
        field_definition: "\t{field_ame}: {field_ype}".to_owned(),
        name_change_annotation: Some("a".to_owned()),
        array_definition: "Vec<{field_type}>".to_owned(),
        block_end: "}".to_owned(),
        int_type: "i32".to_owned(),
        float_type: "f32".to_owned(),
        bool_type: "bool".to_owned(),
        string_type: "String".to_owned(),
        constructor: None,
        case_type: CaseType::CamelCase,
        object_case_type: CaseType::UpperCamelCase
    };

    Transformer::new(bad_config, vec![], None).unwrap();
}

#[test]
fn rename_annotation_precedes_a_renamed_field() {
    let blocks = render(rust_definition(), "{\"fieldName\": 1}");
    assert_eq!(
        blocks,
        vec![vec![
            "#[derive(Serialize, Deserialize, Debug)]\nstruct Root {",
            "\t#[serde(rename = \"fieldName\")]",
            "\tfield_name: i32,",
            "}",
        ]]
    );
}

#[test]
fn arrays_render_with_the_array_template() {
    let blocks = render(rust_definition(), "{\"items\": [{\"id\": 1}], \"nums\": [1, 2]}");
    assert_eq!(
        blocks,
        vec![
            vec!["#[derive(Serialize, Deserialize, Debug)]\nstruct Items {", "\tid: i32,", "}"],
            vec![
                "#[derive(Serialize, Deserialize, Debug)]\nstruct Root {",
                "\titems: Vec<Items>,",
                "\tnums: Vec<nums>,",
                "}",
            ],
        ]
    );
}

#[test]
fn nested_blocks_come_innermost_first() {
    let blocks = render(kotlin_definition(), "{\"a\": {\"b\": {\"c\": 1}}, \"d\": true}");
    assert_eq!(
        blocks,
        vec![
            vec!["data class B (", "\tval c: int,", ");"],
            vec!["data class A (", "\tval b: B,", ");"],
            vec!["data class Root (", "\tval a: A,", "\tval d: bool,", ");"],
        ]
    );
}

#[test]
fn java_constructor_assigns_every_field() {
    let blocks = render(java_definition(), "{\"first_name\": \"x\", \"age\": 3}");
    assert_eq!(
        blocks,
        vec![vec![
            "class Root {",
            "\t@SerializedName(value = \"first_name\")",
            "\tprivate final String firstName;",
            "\tprivate final int age;",
            "\tpublic Root(String firstName, int age) {",
            "\t\tthis.firstName = firstName;",
            "\t\tthis.age = age;",
            "\t}",
            "}",
        ]]
    );
}

#[test]
fn dart_separator_follows_the_last_argument() {
    let blocks = render(dart_definition(), "{\"a\": 1.5, \"b\": false}");
    assert_eq!(
        blocks,
        vec![vec![
            "class Root {",
            "\tfinal double? a;",
            "\tfinal bool? b;",
            "\tRoot({\n\t\tthis.a), \n\t\tthis.b), \n\t});",
            "}",
        ]]
    );
}

#[test]
fn root_name_can_be_chosen() {
    let tree = Tokenizer::new(Lexer::new("{\"a\": 1}").start_lex()).start_tokenizer().unwrap();
    let blocks = Transformer::new(kotlin_definition(), tree, Some("Top".to_owned())).unwrap().start_transform();
    assert_eq!(blocks, vec![vec!["data class Top (", "\tval a: int,", ");"]]);
}

#[test]
fn empty_object_renders_an_empty_block() {
    assert_eq!(render(kotlin_definition(), "{}"), vec![vec!["data class Root (", ");"]]);
}

fn valid_config() -> TransformConfig {
    java_definition()
}

#[test]
fn bad_type_definition_is_reported() {
    let mut c = valid_config();
    c.type_definition = "class {name} {".to_owned();
    assert_eq!(error_of(c), TransformerError::BadTypeDefinition("class {name} {".to_owned()));
}

#[test]
fn bad_field_name_is_reported() {
    let mut c = valid_config();
    c.field_definition = "{field_type} x;".to_owned();
    assert_eq!(error_of(c), TransformerError::BadFieldDefinitionName("{field_type} x;".to_owned()));
}

#[test]
fn bad_field_type_is_reported() {
    let mut c = valid_config();
    c.field_definition = "int {field_name};".to_owned();
    assert_eq!(error_of(c), TransformerError::BadFieldDefinitionType("int {field_name};".to_owned()));
}

#[test]
fn bad_rename_annotation_is_reported() {
    let mut c = valid_config();
    c.name_change_annotation = Some("@Rename".to_owned());
    assert_eq!(error_of(c), TransformerError::BadFieldRenameDefinition("@Rename".to_owned()));
}

#[test]
fn missing_rename_annotation_is_accepted() {
    let mut c = valid_config();
    c.name_change_annotation = None;
    assert!(Transformer::new(c, vec![], None).is_ok());
}

#[test]
fn bad_array_definition_is_reported() {
    let mut c = valid_config();
    c.array_definition = "List".to_owned();
    assert_eq!(error_of(c), TransformerError::BadArrayTypeDefinition("List".to_owned()));
}

fn with_constructor(definition: &str, argument: &str, field: Option<&str>) -> TransformConfig {
    let mut c = valid_config();
    c.constructor = Some(ConstructorConfig {
        definition: definition.to_owned(),
        argument_definition: argument.to_owned(),
        separator: ", ".to_owned(),
        separator_at_end: false,
        field_definition: field.map(|f| ConstructorField { field_definition: f.to_owned(), end: "}".to_owned() }),
    });
    c
}

#[test]
fn bad_constructor_name_is_reported() {
    let c = with_constructor("new({arguments})", "{name}", None);
    assert_eq!(error_of(c), TransformerError::BadConstructorDefinitionName("new({arguments})".to_owned()));
}

#[test]
fn bad_constructor_arguments_are_reported() {
    let c = with_constructor("{object_name}()", "{name}", None);
    assert_eq!(error_of(c), TransformerError::BadConstructorDefinitionArgument("{object_name}()".to_owned()));
}

#[test]
fn bad_argument_definition_is_reported() {
    let c = with_constructor("{object_name}({arguments})", "{type}", None);
    assert_eq!(error_of(c), TransformerError::BadArgumentDefinitionName("{type}".to_owned()));
}

#[test]
fn bad_constructor_field_is_reported() {
    let c = with_constructor("{object_name}({arguments})", "{name}", Some("this.x = x;"));
    assert_eq!(error_of(c), TransformerError::BadConstructorFieldDefinition("this.x = x;".to_owned()));
}

#[test]
fn first_bad_template_wins() {
    let mut c = with_constructor("new()", "{type}", None);
    c.array_definition = "List".to_owned();
    assert_eq!(error_of(c), TransformerError::BadArrayTypeDefinition("List".to_owned()));
}

#[test]
fn presets_are_valid() {
    assert!(Transformer::new(rust_definition(), vec![], None).is_ok());
    assert!(Transformer::new(java_definition(), vec![], None).is_ok());
    assert!(Transformer::new(dart_definition(), vec![], None).is_ok());
    assert!(Transformer::new(kotlin_definition(), vec![], None).is_ok());
}
