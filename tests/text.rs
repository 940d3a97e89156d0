use json_typegen::text::{text_contains, text_replace};

#[test]
fn replace_every_occurrence() {
    assert_eq!(text_replace("{a}-{a}", "{a}", "xy"), "xy-xy");
    assert_eq!(text_replace("no match", "{a}", "xy"), "no match");
    assert_eq!(text_replace("", "{a}", "xy"), "");
}

#[test]
fn replace_does_not_rescan_its_output() {
    assert_eq!(text_replace("aaa", "aa", "a"), "aa");
}

#[test]
fn contains_finds_a_placeholder() {
    assert!(text_contains("class {object_name} {", "{object_name}"));
    assert!(!text_contains("class {name} {", "{object_name}"));
    assert!(text_contains("abc", ""));
    assert!(!text_contains("", "a"));
}
