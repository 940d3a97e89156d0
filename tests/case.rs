use json_typegen::case::{convert_case, CaseType};

#[test]
fn camel_to_snake() {
    let str = "hoLa";
    let expected_result = String::from("ho_la");
    let result = convert_case(str, &CaseType::SnakeCase);

    assert_eq!(result, expected_result);
}

#[test]
fn camel_to_snake_first_uppercase() {
    let str = "HoLa";
    let expected_result = String::from("ho_la");
    let result = convert_case(str, &CaseType::SnakeCase);

    assert_eq!(result, expected_result);
}

#[test]
fn snake_to_camel() {
    let str = "ho_la";
    let expected_result = String::from("hoLa");
    let result = convert_case(str, &CaseType::CamelCase);

    assert_eq!(result, expected_result);
}

#[test]
fn snake_to_camel_first_underscore() {
    let str = "_ho_la";
    let expected_result = String::from("_hoLa");
    let result = convert_case(str, &CaseType::CamelCase);

    assert_eq!(result, expected_result);
}

#[test]
fn kebab_to_camel() {
    let str = "ho-la";
    let expected_result = String::from("hoLa");
    let result = convert_case(str, &CaseType::CamelCase);

    assert_eq!(result, expected_result);
}

#[test]
fn kebab_to_snake() {
    let str = "ho-la";
    let expected_result = String::from("ho_la");
    let result = convert_case(str, &CaseType::SnakeCase);

    assert_eq!(result, expected_result);
}

#[test]
fn multiple_snake_to_camel() {
    let str = "ho_la_eh";
    let expected_result = String::from("hoLaEh");
    let result = convert_case(str, &CaseType::CamelCase);

    assert_eq!(result, expected_result);
}

#[test]
fn snake_with_several_capitals() {
    assert_eq!(convert_case("aBcD", &CaseType::SnakeCase), "a_bc_d");
}

#[test]
fn snake_stops_folding_at_first_separator() {
    assert_eq!(convert_case("aB_cD-e", &CaseType::SnakeCase), "a_b_cD_e");
}

#[test]
fn upper_camel_from_snake() {
    assert_eq!(convert_case("ho_la", &CaseType::UpperCamelCase), "HoLa");
    assert_eq!(convert_case("f4", &CaseType::UpperCamelCase), "F4");
}

#[test]
fn empty_name_stays_empty() {
    assert_eq!(convert_case("", &CaseType::SnakeCase), "");
    assert_eq!(convert_case("", &CaseType::CamelCase), "");
    assert_eq!(convert_case("", &CaseType::UpperCamelCase), "");
}

#[test]
fn trailing_separator_is_dropped_in_camel_case() {
    assert_eq!(convert_case("ab_", &CaseType::CamelCase), "ab");
}

#[test]
fn already_converted_names_are_kept() {
    assert_eq!(convert_case("ho_la", &CaseType::SnakeCase), "ho_la");
    assert_eq!(convert_case("hoLa", &CaseType::CamelCase), "hoLa");
    assert_eq!(convert_case("HoLa", &CaseType::UpperCamelCase), "HoLa");
}

#[test]
fn case_round_trip_is_not_always_the_identity() {
    let snake = convert_case("HoLa", &CaseType::SnakeCase);
    assert_eq!(snake, "ho_la");
    let back = convert_case(&snake, &CaseType::CamelCase);
    assert_eq!(back, "hoLa");
    assert_ne!(back, "HoLa");
    let again = convert_case(&convert_case("hoLa", &CaseType::SnakeCase), &CaseType::CamelCase);
    assert_eq!(again, "hoLa");
}
