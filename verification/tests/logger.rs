use graphql_schema_parser::logger::{Logger, PRETTY_PACKAGE_NAME};

#[test]
fn message_fills_the_placeholder() {
    assert_eq!(Logger::message("Error getting complete type for {}}", Some("Int")), "WASM GraphQL Parser: Error getting complete type for Int");
}

#[test]
fn message_without_addition_keeps_the_text() {
    assert_eq!(Logger::message("done {}}", None), format!("{}: done {{}}}}", PRETTY_PACKAGE_NAME));
}
