use graphql_schema_parser::directives::{parse_directive_data, parse_directive_instance};
use graphql_schema_parser::types::Config;

fn config() -> Config {
    Config { parallel: false, run_in_wasm: false }
}

#[test]
fn directive_data_reads_pairs() {
    let r = parse_directive_data("(reason: \"gone\")".to_string(), &config()).unwrap();
    assert_eq!(r.len(), 1);
    assert_eq!(r[0].parameter, "reason");
    assert_eq!(r[0].value, "\"gone\"");
}

#[test]
fn directive_instance_without_text_is_none() {
    assert!(parse_directive_instance(None, &config()).is_none());
}

#[test]
fn words_inside_a_string_are_not_arguments() {
    let r = parse_directive_data("(a: \"x y\" b: 2)".to_string(), &config()).unwrap();
    assert_eq!(r.len(), 2);
    assert_eq!(r[0].parameter, "a");
    assert_eq!(r[0].value, "\"x y\" ");
    assert_eq!(r[1].parameter, "b");
    assert_eq!(r[1].value, "2");
}

#[test]
fn directive_arguments_with_punctuation_are_kept() {
    let ds = parse_directive_instance(Some("@deprecated(reason: \"Use foo.\")"), &config()).unwrap();
    assert_eq!(ds.len(), 1);
    assert_eq!(ds[0].name, "deprecated");
    let vals = ds[0].values.as_ref().unwrap();
    assert_eq!(vals.len(), 1);
    assert_eq!(vals[0].parameter, "reason");
    assert_eq!(vals[0].value, "\"Use foo.\"");
}
