//! Definition configurations: the templates that describe one output language,
//! and the built-in ones.
use vstd::prelude::*;
use crate::case::CaseType;

verus! {

/// Templates and naming choices for one target representation.
///
/// Placeholders: `{object_name}` in `type_definition`; `{field_name}` and
/// `{field_type}` in `field_definition`; `{field_type}` in `array_definition`;
/// `{name}` in `name_change_annotation`.
#[derive(Debug)]
pub struct TransformConfig {
    pub type_definition: String,
    pub field_definition: String,
    pub name_change_annotation: Option<String>,
    pub array_definition: String,
    pub block_end: String,
    pub int_type: String,
    pub float_type: String,
    pub bool_type: String,
    pub string_type: String,
    pub constructor: Option<ConstructorConfig>,
    /// Convention for field names.
    pub case_type: CaseType,
    /// Convention for the names of generated types.
    pub object_case_type: CaseType,
}

/// How to write a constructor: `definition` holds `{object_name}` and
/// `{arguments}`; `argument_definition` holds `{name}` (and may hold `{type}`).
#[derive(Debug)]
pub struct ConstructorConfig {
    pub definition: String,
    pub argument_definition: String,
    pub separator: String,
    /// Whether the separator follows the last argument too.
    pub separator_at_end: bool,
    pub field_definition: Option<ConstructorField>,
}

/// One line per field in the constructor's body (`{name}` placeholder), then
/// `end`.
#[derive(Debug)]
pub struct ConstructorField {
    pub field_definition: String,
    pub end: String,
}

/// What the program was asked to do: the document to read and the definition
/// to render it with.
#[derive(Debug)]
pub struct Config {
    pub filename: String,
    pub transformer_config: TransformConfig,
}

/// Rust structs with serde derives.
pub fn rust_definition() -> (r: TransformConfig)
    ensures
        r.type_definition@ == "#[derive(Serialize, Deserialize, Debug)]\nstruct {object_name} {"@,
        r.field_definition@ == "\t{field_name}: {field_type},"@,
        r.name_change_annotation is Some,
        r.name_change_annotation->0@ == "\t#[serde(rename = \"{name}\")]"@,
        r.array_definition@ == "Vec<{field_type}>"@,
        r.block_end@ == "}"@,
        r.int_type@ == "i32"@,
        r.float_type@ == "f32"@,
        r.bool_type@ == "bool"@,
        r.string_type@ == "String"@,
        r.constructor is None,
        r.case_type == CaseType::SnakeCase,
        r.object_case_type == CaseType::UpperCamelCase,
{
    TransformConfig {
        type_definition: "#[derive(Serialize, Deserialize, Debug)]\nstruct {object_name} {".to_owned(),
        field_definition: "\t{field_name}: {field_type},".to_owned(),
        name_change_annotation: Some("\t#[serde(rename = \"{name}\")]".to_owned()),
        array_definition: "Vec<{field_type}>".to_owned(),
        block_end: "}".to_owned(),
        int_type: "i32".to_owned(),
        float_type: "f32".to_owned(),
        bool_type: "bool".to_owned(),
        string_type: "String".to_owned(),
        constructor: None,
        case_type: CaseType::SnakeCase,
        object_case_type: CaseType::UpperCamelCase,
    }
}

/// Java classes with Gson annotations and a constructor.
pub fn java_definition() -> (r: TransformConfig)
    ensures
        r.type_definition@ == "class {object_name} {"@,
        r.field_definition@ == "\tprivate final {field_type} {field_name};"@,
        r.name_change_annotation is Some,
        r.name_change_annotation->0@ == "\t@SerializedName(value = \"{name}\")"@,
        r.array_definition@ == "{field_type}[]"@,
        r.block_end@ == "}"@,
        r.int_type@ == "int"@,
        r.float_type@ == "double"@,
        r.bool_type@ == "boolean"@,
        r.string_type@ == "String"@,
        r.case_type == CaseType::CamelCase,
        r.object_case_type == CaseType::UpperCamelCase,
        r.constructor is Some,
        r.constructor->0.definition@ == "\tpublic {object_name}({arguments}) {"@,
        r.constructor->0.argument_definition@ == "{type} {name}"@,
        r.constructor->0.separator@ == ", "@,
        !r.constructor->0.separator_at_end,
        r.constructor->0.field_definition is Some,
        r.constructor->0.field_definition->0.field_definition@ == "\t\tthis.{name} = {name};"@,
        r.constructor->0.field_definition->0.end@ == "\t}"@,
{
    TransformConfig {
        type_definition: "class {object_name} {".to_owned(),
        field_definition: "\tprivate final {field_type} {field_name};".to_owned(),
        name_change_annotation: Some("\t@SerializedName(value = \"{name}\")".to_owned()),
        array_definition: "{field_type}[]".to_owned(),
        block_end: "}".to_owned(),
        int_type: "int".to_owned(),
        float_type: "double".to_owned(),
        bool_type: "boolean".to_owned(),
        string_type: "String".to_owned(),
        case_type: CaseType::CamelCase,
        object_case_type: CaseType::UpperCamelCase,
        constructor: Some(
            ConstructorConfig {
                definition: "\tpublic {object_name}({arguments}) {".to_owned(),
                argument_definition: "{type} {name}".to_owned(),
                separator: ", ".to_owned(),
                separator_at_end: false,
                field_definition: Some(
                    ConstructorField {
                        field_definition: "\t\tthis.{name} = {name};".to_owned(),
                        end: "\t}".to_owned(),
                    },
                ),
            },
        ),
    }
}

/// Dart classes with json_serializable annotations and a named-argument
/// constructor.
pub fn dart_definition() -> (r: TransformConfig)
    ensures
        r.type_definition@ == "class {object_name} {"@,
        r.field_definition@ == "\tfinal {field_type}? {field_name};"@,
        r.name_change_annotation is Some,
        r.name_change_annotation->0@ == "\t@JsonKey(name: '{name}')"@,
        r.array_definition@ == "List<{field_type}>"@,
        r.block_end@ == "}"@,
        r.int_type@ == "int"@,
        r.float_type@ == "double"@,
        r.bool_type@ == "bool"@,
        r.string_type@ == "String"@,
        r.case_type == CaseType::CamelCase,
        r.object_case_type == CaseType::UpperCamelCase,
        r.constructor is Some,
        r.constructor->0.definition@ == "\t{object_name}({{arguments}\n\t});"@,
        r.constructor->0.argument_definition@ == "\n\t\tthis.{name}"@,
        r.constructor->0.separator@ == "), "@,
        r.constructor->0.separator_at_end,
        r.constructor->0.field_definition is None,
{
    TransformConfig {
        type_definition: "class {object_name} {".to_owned(),
        field_definition: "\tfinal {field_type}? {field_name};".to_owned(),
        name_change_annotation: Some("\t@JsonKey(name: '{name}')".to_owned()),
        array_definition: "List<{field_type}>".to_owned(),
        block_end: "}".to_owned(),
        int_type: "int".to_owned(),
        float_type: "double".to_owned(),
        bool_type: "bool".to_owned(),
        string_type: "String".to_owned(),
        case_type: CaseType::CamelCase,
        object_case_type: CaseType::UpperCamelCase,
        constructor: Some(
            ConstructorConfig {
                definition: "\t{object_name}({{arguments}\n\t});".to_owned(),
                argument_definition: "\n\t\tthis.{name}".to_owned(),
                separator: "), ".to_owned(),
                separator_at_end: true,
                field_definition: None,
            },
        ),
    }
}

/// Kotlin data classes.
pub fn kotlin_definition() -> (r: TransformConfig)
    ensures
        r.type_definition@ == "data class {object_name} ("@,
        r.field_definition@ == "\tval {field_name}: {field_type},"@,
        r.name_change_annotation is Some,
        r.name_change_annotation->0@ == "\t@JsonKey(name: '{name}')"@,
        r.array_definition@ == "{field_type}[]"@,
        r.block_end@ == ");"@,
        r.int_type@ == "int"@,
        r.float_type@ == "double"@,
        r.bool_type@ == "bool"@,
        r.string_type@ == "String"@,
        r.case_type == CaseType::CamelCase,
        r.object_case_type == CaseType::UpperCamelCase,
        r.constructor is None,
{
    TransformConfig {
        type_definition: "data class {object_name} (".to_owned(),
        field_definition: "\tval {field_name}: {field_type},".to_owned(),
        name_change_annotation: Some("\t@JsonKey(name: '{name}')".to_owned()),
        array_definition: "{field_type}[]".to_owned(),
        block_end: ");".to_owned(),
        int_type: "int".to_owned(),
        float_type: "double".to_owned(),
        bool_type: "bool".to_owned(),
        string_type: "String".to_owned(),
        case_type: CaseType::CamelCase,
        object_case_type: CaseType::UpperCamelCase,
        constructor: None,
    }
}

} // verus!
