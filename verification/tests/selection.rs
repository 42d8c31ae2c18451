use graphql_schema_parser::selection::{parse_selection_set, is_parent, recurse_selection};
use graphql_schema_parser::types::Config;

fn config() -> Config {
    Config { parallel: false, run_in_wasm: false }
}

#[test]
fn selection_set_with_a_nested_field() {
    let text = "{\n  alpha\n  beta {\n    gamma\n  }\n}";
    let sels = parse_selection_set(text, &config());
    assert_eq!(sels.len(), 2);
    assert_eq!(sels[0].name, "alpha");
    assert!(sels[0].selections.is_none());
    assert_eq!(sels[1].name, "beta");
    let sub = sels[1].selections.as_ref().unwrap();
    assert_eq!(sub.len(), 1);
    assert_eq!(sub[0].name, "gamma");
    assert!(sub[0].selections.is_none());
}

#[test]
fn brace_on_its_own_line_opens_the_field_above() {
    let text = "{\n  alpha\n  {\n    gamma\n  }\n}";
    assert!(is_parent(text, 1));
    assert!(!is_parent(text, 3));
    let sels = parse_selection_set(text, &config());
    assert_eq!(sels.len(), 1);
    assert_eq!(sels[0].name, "alpha");
    assert_eq!(sels[0].selections.as_ref().unwrap()[0].name, "gamma");
}

#[test]
fn recurse_selection_stops_at_the_closing_brace() {
    let text = "{\n  beta {\n    gamma\n    delta\n  }\n  omega\n}";
    let mut stop: usize = 1;
    let sub = recurse_selection(text, &mut stop);
    assert_eq!(sub.len(), 2);
    assert_eq!(sub[0].name, "gamma");
    assert_eq!(sub[1].name, "delta");
    assert_eq!(stop, 4);
}

#[test]
fn single_letter_names_are_read() {
    let sels = parse_selection_set("{\n  a\n  bb\n}", &config());
    assert_eq!(sels.len(), 2);
    assert_eq!(sels[0].name, "a");
    assert_eq!(sels[1].name, "bb");
}

#[test]
fn recurse_selection_keeps_one_letter_fields() {
    let mut stop: usize = 0;
    let sub = recurse_selection("{\n  a\n  id\n}", &mut stop);
    assert_eq!(sub.len(), 2);
    assert_eq!(sub[0].name, "a");
    assert!(sub[0].selections.is_none());
    assert_eq!(sub[1].name, "id");
    assert_eq!(stop, 3);
}
