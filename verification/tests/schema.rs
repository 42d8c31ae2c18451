use graphql_schema_parser::schema::{parse_schema_from_string, try_parse_schema_from_string, schema_errors, prepare_schema_text};
use graphql_schema_parser::process::process_fields;
use graphql_schema_parser::types::{Config, SchemaData};

fn config() -> Config {
    Config { parallel: false, run_in_wasm: false }
}

fn read(text: &str) -> SchemaData {
    try_parse_schema_from_string(text, &config()).expect("the schema should be readable")
}

#[test]
fn object_type_with_two_fields() {
    let data = read("type Query {\n  name: String!\n  tags: [String]\n}\n");
    let objects = data.object_types.unwrap();
    assert_eq!(objects.len(), 1);
    let q = &objects[0];
    assert_eq!(q.name, "Query");
    assert_eq!(q.object_type, "type");
    assert!(q.implements.is_none());
    assert_eq!(q.fields.len(), 2);
    assert_eq!(q.fields[0].name, "name");
    assert_eq!(q.fields[0].field_type, "String");
    assert_eq!(q.fields[0].field_complete_type, "String!");
    assert!(!q.fields[0].is_nullable);
    assert!(!q.fields[0].is_array);
    assert_eq!(q.fields[1].name, "tags");
    assert_eq!(q.fields[1].field_type, "String");
    assert_eq!(q.fields[1].field_complete_type, "[String]");
    assert!(q.fields[1].is_nullable);
    assert!(q.fields[1].is_array);
    assert!(data.enum_types.is_none());
    assert!(data.scalar_types.is_none());
}

#[test]
fn parse_schema_from_string_matches_try_parse() {
    let text = "type Query {\n  name: String\n}\n";
    let a = parse_schema_from_string(text, &config());
    let b = read(text);
    assert_eq!(a.object_types.unwrap()[0].name, b.object_types.unwrap()[0].name);
}

#[test]
fn enum_values_are_read_in_order() {
    let data = read("enum Color {\n  RED\n  GREEN\n}\n");
    let enums = data.enum_types.unwrap();
    assert_eq!(enums.len(), 1);
    assert_eq!(enums[0].name, "Color");
    let values = &enums[0].values;
    assert_eq!(values.len(), 2);
    assert_eq!(values[0].value, "RED");
    assert_eq!(values[1].value, "GREEN");
    assert!(values[0].description.is_none());
    assert!(values[0].directives.is_none());
}

#[test]
fn union_members_are_the_words_after_the_equals_sign() {
    let data = read("union Pet = Cat | Dog\n");
    let unions = data.union_types.unwrap();
    assert_eq!(unions[0].name, "Pet");
    assert_eq!(unions[0].member_types.as_ref().unwrap(), &vec!["Cat".to_string(), "Dog".to_string()]);
}

#[test]
fn union_extension_puts_new_members_first() {
    let data = read("union Pet = Cat\nextend union Pet = Bird\n");
    let unions = data.union_types.unwrap();
    assert_eq!(unions.len(), 1);
    assert_eq!(unions[0].member_types.as_ref().unwrap(), &vec!["Bird".to_string(), "Cat".to_string()]);
}

#[test]
fn scalar_with_a_directive() {
    let data = read("scalar Date @deprecated\n");
    let scalars = data.scalar_types.unwrap();
    assert_eq!(scalars[0].name, "Date");
    let ds = scalars[0].directives.as_ref().unwrap();
    assert_eq!(ds.len(), 1);
    assert_eq!(ds[0].name, "deprecated");
    assert!(ds[0].values.is_none());
}

#[test]
fn object_extension_adds_fields() {
    let data = read("type Item {\n  size: Int\n}\nextend type Item {\n  weight: Int\n}\n");
    let objects = data.object_types.unwrap();
    assert_eq!(objects.len(), 1);
    let names: Vec<&str> = objects[0].fields.iter().map(|f| f.name.as_str()).collect();
    assert_eq!(names, vec!["size", "weight"]);
}

#[test]
fn extension_of_an_unknown_type_changes_nothing() {
    let data = read("type Item {\n  size: Int\n}\nextend type Other {\n  weight: Int\n}\n");
    let objects = data.object_types.unwrap();
    assert_eq!(objects.len(), 1);
    assert_eq!(objects[0].name, "Item");
    assert_eq!(objects[0].fields.len(), 1);
}

#[test]
fn description_loses_its_quotes() {
    let data = read("\"\"\"A thing\"\"\"\ntype Item {\n  size: Int\n}\n");
    let objects = data.object_types.unwrap();
    assert_eq!(objects[0].description.as_deref(), Some("A thing"));
}

#[test]
fn fields_of_enum_type_are_marked() {
    let text = "enum Mood {\n  HAPPY\n  GRUMPY\n}\ntype Person {\n  mood: Mood\n  label: String\n}\n";
    let data = read(text);
    let p = &data.object_types.unwrap()[0];
    assert!(p.fields[0].is_enum);
    assert!(!p.fields[0].is_scalar);
    assert!(!p.fields[1].is_enum);
    assert!(!p.fields[1].is_scalar);
}

#[test]
fn parallel_marking_gives_the_same_marks() {
    let text = "scalar Stamp\nenum Mood {\n  HAPPY\n  GRUMPY\n}\ntype Person {\n  mood: Mood\n  seen: Stamp\n}\n";
    let par = try_parse_schema_from_string(text, &Config { parallel: true, run_in_wasm: false }).unwrap();
    let seq = read(text);
    let a = &par.object_types.unwrap()[0];
    let b = &seq.object_types.unwrap()[0];
    assert_eq!(a.fields.len(), b.fields.len());
    for (x, y) in a.fields.iter().zip(b.fields.iter()) {
        assert_eq!(x.is_enum, y.is_enum);
        assert_eq!(x.is_scalar, y.is_scalar);
        assert_eq!(x.is_union, y.is_union);
    }
    assert!(a.fields[0].is_enum);
    assert!(a.fields[1].is_scalar);
}

#[test]
fn operation_without_variables_cannot_be_read() {
    assert!(try_parse_schema_from_string("query Lookup {\n  items\n}\n", &config()).is_none());
}

#[test]
fn comments_are_removed_before_parsing() {
    assert_eq!(prepare_schema_text("a # note\r\nb"), "a\nb");
    let data = read("type Item {\n  size: Int # how big\n}\n");
    let objects = data.object_types.unwrap();
    assert_eq!(objects[0].fields.len(), 1);
    assert_eq!(objects[0].fields[0].field_type, "Int");
}

#[test]
fn syntax_errors_are_reported() {
    assert!(!schema_errors("type {").unwrap().is_empty());
    assert!(schema_errors("type Item {\n  size: Int\n}\n").unwrap().is_empty());
}

#[test]
fn interface_and_implements() {
    let data = read("interface Node {\n  id: ID!\n}\ntype User implements Node {\n  id: ID!\n}\n");
    let interfaces = data.interface_types.unwrap();
    assert_eq!(interfaces[0].name, "Node");
    assert_eq!(interfaces[0].fields[0].name, "id");
    let objects = data.object_types.unwrap();
    assert_eq!(objects[0].implements.as_ref().unwrap(), &vec!["Node".to_string()]);
}

#[test]
fn input_object_type_is_of_kind_input() {
    let data = read("input Filter {\n  limit: Int = 10\n}\n");
    let inputs = data.input_object_types.unwrap();
    assert_eq!(inputs[0].name, "Filter");
    assert_eq!(inputs[0].object_type, "input");
    assert_eq!(inputs[0].fields[0].name, "limit");
    assert_eq!(inputs[0].fields[0].default_value.as_deref(), Some("10"));
}

#[test]
fn directive_definition_with_locations() {
    let data = read("directive @auth(role: String) repeatable on FIELD_DEFINITION | OBJECT\n");
    let ds = data.directives.unwrap();
    assert_eq!(ds[0].name, "auth");
    assert!(ds[0].repeatable);
    assert_eq!(ds[0].locations, vec!["FIELD_DEFINITION".to_string(), "OBJECT".to_string()]);
    let args = ds[0].arguments.as_ref().unwrap();
    assert_eq!(args[0].argument_index, 0);
    assert_eq!(args[0].argument_type, "String");
}

#[test]
fn schema_definition_root_operations() {
    let data = read("schema {\n  query: Query\n}\n");
    let schemas = data.schemas.unwrap();
    assert_eq!(schemas[0].root_operations.len(), 1);
    assert_eq!(schemas[0].root_operations[0].operation_type, "Query\n");
}

#[test]
fn enum_value_descriptions_and_directives() {
    let data = read("enum Level {\n  \"\"\"Lowest\"\"\"\n  LOW @deprecated\n  HIGH\n}\n");
    let values = &data.enum_types.unwrap()[0].values;
    assert_eq!(values.len(), 2);
    assert_eq!(values[0].value, "LOW");
    assert_eq!(values[0].description.as_deref(), Some("Lowest"));
    let ds = values[0].directives.as_ref().unwrap();
    assert_eq!(ds.len(), 1);
    assert_eq!(ds[0].name, "deprecated");
    assert!(ds[0].values.is_none());
    assert_eq!(values[1].value, "HIGH");
    assert!(values[1].description.is_none());
    assert!(values[1].directives.is_none());
}

#[test]
fn enum_value_with_a_one_line_description() {
    let data = read("enum Level {\n  \"Top level\"\n  HIGH\n}\n");
    let values = &data.enum_types.unwrap()[0].values;
    assert_eq!(values.len(), 1);
    assert_eq!(values[0].value, "HIGH");
    assert_eq!(values[0].description.as_deref(), Some("Top level"));
}

#[test]
fn enum_value_written_twice_is_one_value() {
    let data = read("enum Level {\n  HIGH\n  LOW\n  HIGH\n}\n");
    let values = &data.enum_types.unwrap()[0].values;
    let names: Vec<&str> = values.iter().map(|v| v.value.as_str()).collect();
    assert_eq!(names, vec!["HIGH", "LOW"]);
}

#[test]
fn enum_extension_adds_values() {
    let data = read("enum Level {\n  HIGH\n}\nextend enum Level {\n  LOW\n}\n");
    let values = &data.enum_types.unwrap()[0].values;
    let names: Vec<&str> = values.iter().map(|v| v.value.as_str()).collect();
    assert_eq!(names, vec!["HIGH", "LOW"]);
}

#[test]
fn fragment_definition() {
    let data = read("fragment Basic on User {\n  username\n}\n");
    let fragments = data.fragments.unwrap();
    assert_eq!(fragments[0].name, "Basic");
    assert_eq!(fragments[0].on, "User");
    assert_eq!(fragments[0].selection_sets.len(), 1);
    assert_eq!(fragments[0].selection_sets[0].len(), 1);
    assert_eq!(fragments[0].selection_sets[0][0].name, "username");
}

#[test]
fn field_directive_with_arguments() {
    let data = read("type Item {\n  size: Int @range(min: 1)\n}\n");
    let f = &data.object_types.unwrap()[0].fields[0];
    let ds = f.directives.as_ref().unwrap();
    assert_eq!(ds[0].name, "range");
    let vals = ds[0].values.as_ref().unwrap();
    assert_eq!(vals[0].parameter, "min");
    assert_eq!(vals[0].value, "1");
}

#[test]
fn operation_with_variables() {
    let data = read("query Lookup($limit: Int) {\n  items\n  count\n}\n");
    let ops = data.operation_types.unwrap();
    assert_eq!(ops[0].name, "Lookup");
    assert_eq!(ops[0].fields.len(), 1);
    assert_eq!(ops[0].fields[0].field_type, "Int");
    assert_eq!(ops[0].selection_sets[0].len(), 2);
}

#[test]
fn marking_fields_again_changes_nothing() {
    let text = "scalar Stamp\nunion Pet = Cat | Dog\ntype Person {\n  seen: Stamp\n  pet: Pet\n  label: String\n}\n";
    let mut data = read(text);
    let before: Vec<(bool, bool, bool)> = data.object_types.as_ref().unwrap()[0].fields.iter().map(|f| (f.is_enum, f.is_scalar, f.is_union)).collect();
    process_fields(&mut data, &config());
    let after: Vec<(bool, bool, bool)> = data.object_types.as_ref().unwrap()[0].fields.iter().map(|f| (f.is_enum, f.is_scalar, f.is_union)).collect();
    assert_eq!(before, after);
    assert_eq!(before, vec![(false, true, false), (false, false, true), (false, false, false)]);
}

#[test]
fn names_read_hold_no_whitespace() {
    let data = read("type   Spaced   {\n  field :  Int\n}\nextend type Spaced {\n  other: Int\n}\n");
    let o = &data.object_types.unwrap()[0];
    assert_eq!(o.name, "Spaced");
    assert_eq!(o.fields.len(), 2);
    assert_eq!(o.fields[0].name, "field");
}

#[test]
fn list_types_the_parser_cannot_take_are_refused() {
    for text in ["type Q { a: [ String ] }", "type Q { a: [] }", "type Q { a: ["] {
        assert!(schema_errors(text).is_none());
        assert!(try_parse_schema_from_string(text, &config()).is_none());
    }
}

#[test]
fn trailing_comment_does_not_change_the_result() {
    let a = read("type Item {\n  size: Int\n}");
    let b = read("type Item {\n  size: Int\n} # the end");
    let (a, b) = (&a.object_types.unwrap()[0], &b.object_types.unwrap()[0]);
    assert_eq!(a.name, b.name);
    assert_eq!(a.fields.len(), b.fields.len());
    assert_eq!(a.fields[0].field_complete_type, b.fields[0].field_complete_type);
}

#[test]
fn crlf_line_breaks_read_as_lf() {
    let a = read("type Item {\n  size: Int\n  tag: String\n}");
    let b = read("type Item {\r\n  size: Int\r\n  tag: String\r\n}");
    let (a, b) = (&a.object_types.unwrap()[0], &b.object_types.unwrap()[0]);
    assert_eq!(a.name, b.name);
    let na: Vec<&str> = a.fields.iter().map(|f| f.name.as_str()).collect();
    let nb: Vec<&str> = b.fields.iter().map(|f| f.name.as_str()).collect();
    assert_eq!(na, nb);
}

#[test]
fn argument_of_enum_type_is_marked() {
    let data = read("enum Mood {\n  HAPPY\n}\ntype Query {\n  find(mood: Mood): Int\n}\n");
    let f = &data.object_types.unwrap()[0].fields[0];
    let args = f.arguments.as_ref().unwrap();
    assert_eq!(args.len(), 1);
    assert!(args[0].is_enum);
    assert!(!args[0].is_scalar);
    assert!(!f.is_enum);
}

#[test]
fn list_default_values_are_taken() {
    let data = read("input Filter {\n  ids: [Int] = [1, 2]\n}\n");
    let f = &data.input_object_types.unwrap()[0].fields[0];
    assert_eq!(f.field_complete_type, "[Int]");
    assert_eq!(f.default_value.as_deref(), Some("1"));
    assert!(schema_errors("input Filter {\n  ids: [Int] = [1, 2]\n}\n").unwrap().is_empty());
}
