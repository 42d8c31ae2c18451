use graphql_schema_parser::definitions::{parse_scalar_type_def, parse_union_type_extension, parse_schema_extension};
use graphql_schema_parser::syntax::SyntaxElementData;
use graphql_schema_parser::types::{Config, UnionType, Schema};

fn config() -> Config {
    Config { parallel: false, run_in_wasm: false }
}

fn el(kind: &str, text: &str, is_node: bool, ancestors: usize) -> SyntaxElementData {
    SyntaxElementData { kind: kind.to_string(), text: text.to_string(), is_node, ancestors }
}

#[test]
fn scalar_definition_from_its_elements() {
    let es = vec![
        el("DOCUMENT", "scalar Date\n", true, 1),
        el("SCALAR_TYPE_DEFINITION", "scalar Date\n", true, 2),
        el("scalar_KW", "scalar", false, 2),
        el("WHITESPACE", " ", false, 2),
        el("NAME", "Date\n", true, 3),
        el("IDENT", "Date", false, 3),
        el("WHITESPACE", "\n", false, 3),
    ];
    let s = parse_scalar_type_def(&es, 1, &config());
    assert_eq!(s.name, "Date");
    assert!(s.description.is_none());
    assert!(s.directives.is_none());
}

#[test]
fn union_extension_from_its_elements() {
    let es = vec![
        el("DOCUMENT", "extend union Pet = Bird\n", true, 1),
        el("UNION_TYPE_EXTENSION", "extend union Pet = Bird\n", true, 2),
        el("extend_KW", "extend", false, 2),
        el("WHITESPACE", " ", false, 2),
        el("union_KW", "union", false, 2),
        el("WHITESPACE", " ", false, 2),
        el("NAME", "Pet ", true, 3),
        el("IDENT", "Pet", false, 3),
        el("WHITESPACE", " ", false, 3),
        el("UNION_MEMBER_TYPES", "= Bird\n", true, 3),
        el("EQ", "=", false, 3),
        el("WHITESPACE", " ", false, 3),
        el("NAMED_TYPE", "Bird\n", true, 4),
        el("NAME", "Bird\n", true, 5),
        el("IDENT", "Bird", false, 5),
        el("WHITESPACE", "\n", false, 5),
    ];
    let mut unions = vec![
        UnionType { name: "Pet".to_string(), description: None, directives: None, member_types: Some(vec!["Cat".to_string()]) },
        UnionType { name: "Toy".to_string(), description: None, directives: None, member_types: None },
    ];
    parse_union_type_extension(&es, 1, &mut unions, &config());
    assert_eq!(unions[0].member_types.as_ref().unwrap(), &vec!["Bird".to_string(), "Cat".to_string()]);
    assert!(unions[1].member_types.is_none());
}

#[test]
fn schema_extension_changes_nothing() {
    let es = vec![el("DOCUMENT", "extend schema @a\n", true, 1)];
    let mut schemas = vec![Schema { directives: None, description: None, root_operations: vec![] }];
    parse_schema_extension(&es, 0, &mut schemas, &config());
    assert_eq!(schemas.len(), 1);
}
