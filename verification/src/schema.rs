//! Reading a whole schema: its text made ready, parsed by `apollo_parser`, and its
//! definitions read in order into lists by kind, with the kinds of fields then marked.
use vstd::prelude::*;
use crate::syntax::{
    SyntaxDump,
    SyntaxElementData,
    SyntaxElementV,
    KindQuery,
    elements_view,
    child_nodes,
    children_exec,
    indices_match,
    graphql_syntax,
    parse_graphql,
    brackets_open_names,
    check_brackets,
};
use crate::types::{
    Config,
    SchemaData,
    SchemaDataV,
    OperationType,
    OperationTypeV,
    ObjectType,
    ObjectTypeV,
    ScalarType,
    ScalarTypeV,
    EnumType,
    EnumTypeV,
    InterfaceType,
    InterfaceTypeV,
    UnionType,
    UnionTypeV,
    Directive,
    DirectiveV,
    Fragment,
    FragmentV,
    Schema,
    SchemaV,
};
use crate::definitions::{
    operation_view,
    object_type_view,
    scalar_type_view,
    enum_type_view,
    interface_type_view,
    input_object_type_view,
    union_type_view,
    directive_view,
    fragment_view,
    schema_def_view,
    object_extension_view,
    scalar_extension_view,
    enum_extension_view,
    interface_extension_view,
    input_object_extension_view,
    union_extension_view,
    read_operation_def,
    read_object_type_def,
    read_scalar_type_def,
    read_enum_type_def,
    read_interface_type_def,
    read_input_object_type_def,
    read_union_type_def,
    read_directive_def,
    read_fragment_def,
    read_schema_def,
    apply_object_type_extension,
    apply_scalar_type_extension,
    apply_enum_type_extension,
    apply_interface_type_extension,
    apply_input_object_type_extension,
    apply_union_type_extension,
};
use crate::fields::nonempty;
use crate::process::{processed, process_fields, par_process_fields};
use crate::patterns::{Pattern, remove_all, replace_all, remove_all_matches, replace_all_matches};
use crate::text::{chars_of, string_of, string_is};

verus! {

/// The definitions read so far, by kind, in the order they were read.
pub struct ListsV {
    pub operation_types: Seq<OperationTypeV>,
    pub object_types: Seq<ObjectTypeV>,
    pub input_object_types: Seq<ObjectTypeV>,
    pub scalar_types: Seq<ScalarTypeV>,
    pub enum_types: Seq<EnumTypeV>,
    pub interface_types: Seq<InterfaceTypeV>,
    pub union_types: Seq<UnionTypeV>,
    pub directives: Seq<DirectiveV>,
    pub fragments: Seq<FragmentV>,
    pub schemas: Seq<SchemaV>,
}

/// No definition read yet.
pub open spec fn empty_lists() -> ListsV {
    ListsV {
        operation_types: Seq::empty(),
        object_types: Seq::empty(),
        input_object_types: Seq::empty(),
        scalar_types: Seq::empty(),
        enum_types: Seq::empty(),
        interface_types: Seq::empty(),
        union_types: Seq::empty(),
        directives: Seq::empty(),
        fragments: Seq::empty(),
        schemas: Seq::empty(),
    }
}

/// Reading the definition at element `d`: a definition is added to the list of its kind,
/// an extension changes the list of the kind it extends, and a schema extension changes
/// nothing; `None` where reading panics.
pub open spec fn definition_step(l: ListsV, es: Seq<SyntaxElementV>, d: int) -> Option<ListsV> {
    let k = es[d].kind;
    if k == "OPERATION_DEFINITION"@ {
        match operation_view(es, d) {
            Some(o) => Some(ListsV { operation_types: l.operation_types.push(o), ..l }),
            None => None,
        }
    } else if k == "OBJECT_TYPE_DEFINITION"@ {
        match object_type_view(es, d) {
            Some(o) => Some(ListsV { object_types: l.object_types.push(o), ..l }),
            None => None,
        }
    } else if k == "SCALAR_TYPE_DEFINITION"@ {
        match scalar_type_view(es, d) {
            Some(o) => Some(ListsV { scalar_types: l.scalar_types.push(o), ..l }),
            None => None,
        }
    } else if k == "ENUM_TYPE_DEFINITION"@ {
        match enum_type_view(es, d) {
            Some(o) => Some(ListsV { enum_types: l.enum_types.push(o), ..l }),
            None => None,
        }
    } else if k == "INTERFACE_TYPE_DEFINITION"@ {
        match interface_type_view(es, d) {
            Some(o) => Some(ListsV { interface_types: l.interface_types.push(o), ..l }),
            None => None,
        }
    } else if k == "INPUT_OBJECT_TYPE_DEFINITION"@ {
        match input_object_type_view(es, d) {
            Some(o) => Some(ListsV { input_object_types: l.input_object_types.push(o), ..l }),
            None => None,
        }
    } else if k == "UNION_TYPE_DEFINITION"@ {
        match union_type_view(es, d) {
            Some(o) => Some(ListsV { union_types: l.union_types.push(o), ..l }),
            None => None,
        }
    } else if k == "DIRECTIVE_DEFINITION"@ {
        match directive_view(es, d) {
            Some(o) => Some(ListsV { directives: l.directives.push(o), ..l }),
            None => None,
        }
    } else if k == "FRAGMENT_DEFINITION"@ {
        match fragment_view(es, d) {
            Some(o) => Some(ListsV { fragments: l.fragments.push(o), ..l }),
            None => None,
        }
    } else if k == "SCHEMA_DEFINITION"@ {
        match schema_def_view(es, d) {
            Some(o) => Some(ListsV { schemas: l.schemas.push(o), ..l }),
            None => None,
        }
    } else if k == "OBJECT_TYPE_EXTENSION"@ {
        match object_extension_view(es, d, l.object_types) {
            Some(v) => Some(ListsV { object_types: v, ..l }),
            None => None,
        }
    } else if k == "SCALAR_TYPE_EXTENSION"@ {
        match scalar_extension_view(es, d, l.scalar_types) {
            Some(v) => Some(ListsV { scalar_types: v, ..l }),
            None => None,
        }
    } else if k == "ENUM_TYPE_EXTENSION"@ {
        match enum_extension_view(es, d, l.enum_types) {
            Some(v) => Some(ListsV { enum_types: v, ..l }),
            None => None,
        }
    } else if k == "INTERFACE_TYPE_EXTENSION"@ {
        match interface_extension_view(es, d, l.interface_types) {
            Some(v) => Some(ListsV { interface_types: v, ..l }),
            None => None,
        }
    } else if k == "INPUT_OBJECT_TYPE_EXTENSION"@ {
        match input_object_extension_view(es, d, l.input_object_types) {
            Some(v) => Some(ListsV { input_object_types: v, ..l }),
            None => None,
        }
    } else if k == "UNION_TYPE_EXTENSION"@ {
        match union_extension_view(es, d, l.union_types) {
            Some(v) => Some(ListsV { union_types: v, ..l }),
            None => None,
        }
    } else {
        Some(l)
    }
}

/// The lists after the first `n` definitions `ids` are read.
pub open spec fn definitions_from(es: Seq<SyntaxElementV>, ids: Seq<int>, n: int) -> Option<ListsV>
    decreases n,
{
    if n <= 0 || n > ids.len() {
        Some(empty_lists())
    } else {
        match definitions_from(es, ids, n - 1) {
            Some(l) => definition_step(l, es, ids[n - 1]),
            None => None,
        }
    }
}

/// The definitions of a document: the children of its root node that are definitions.
pub open spec fn document_definitions(es: Seq<SyntaxElementV>) -> Seq<int> {
    child_nodes(es, 0, KindQuery::AnyDefinition)
}

/// The lists read from all the definitions of a document.
pub open spec fn document_lists(es: Seq<SyntaxElementV>) -> Option<ListsV> {
    let ids = document_definitions(es);
    definitions_from(es, ids, ids.len() as int)
}

/// The schema data of the lists: each list, `None` when empty.
pub open spec fn lists_data(l: ListsV) -> SchemaDataV {
    SchemaDataV {
        operation_types: nonempty(l.operation_types),
        object_types: nonempty(l.object_types),
        input_object_types: nonempty(l.input_object_types),
        scalar_types: nonempty(l.scalar_types),
        enum_types: nonempty(l.enum_types),
        interface_types: nonempty(l.interface_types),
        union_types: nonempty(l.union_types),
        directives: nonempty(l.directives),
        fragments: nonempty(l.fragments),
        schemas: nonempty(l.schemas),
    }
}

/// The schema read from the elements of a syntax tree, its fields marked; `None` where
/// reading panics.
pub open spec fn schema_from_elements(es: Seq<SyntaxElementV>) -> Option<SchemaDataV> {
    match document_lists(es) {
        Some(l) => Some(processed(lists_data(l))),
        None => None,
    }
}

/// The text that is parsed: comments removed, then each run of `\r\n` made one `\n`.
pub open spec fn prepared_text(raw: Seq<char>) -> Seq<char> {
    replace_all(Pattern::CarriageReturnNewLine, remove_all(Pattern::Comment, raw), seq!['\n'])
}

/// The schema read from schema text; `None` where the parser would panic on the prepared
/// text (a `[` not followed at once by `[` or a name) or where reading a definition panics.
pub open spec fn schema_view(raw: Seq<char>) -> Option<SchemaDataV> {
    let t = prepared_text(raw);
    if brackets_open_names(t) {
        schema_from_elements(graphql_syntax(t).elements)
    } else {
        None
    }
}

/// The definitions read so far, by kind.
pub struct Lists {
    pub operation_types: Vec<OperationType>,
    pub object_types: Vec<ObjectType>,
    pub input_object_types: Vec<ObjectType>,
    pub scalar_types: Vec<ScalarType>,
    pub enum_types: Vec<EnumType>,
    pub interface_types: Vec<InterfaceType>,
    pub union_types: Vec<UnionType>,
    pub directives: Vec<Directive>,
    pub fragments: Vec<Fragment>,
    pub schemas: Vec<Schema>,
}

impl DeepView for Lists {
    type V = ListsV;

    open spec fn deep_view(&self) -> ListsV {
        ListsV {
            operation_types: self.operation_types.deep_view(),
            object_types: self.object_types.deep_view(),
            input_object_types: self.input_object_types.deep_view(),
            scalar_types: self.scalar_types.deep_view(),
            enum_types: self.enum_types.deep_view(),
            interface_types: self.interface_types.deep_view(),
            union_types: self.union_types.deep_view(),
            directives: self.directives.deep_view(),
            fragments: self.fragments.deep_view(),
            schemas: self.schemas.deep_view(),
        }
    }
}

/// Pushes `x` onto `v`, stating the deep view that results.
fn push_item<T: DeepView>(v: &mut Vec<T>, x: T)
    ensures
        final(v).deep_view() == old(v).deep_view().push(x.deep_view()),
{
    let ghost before = v.deep_view();
    v.push(x);
    assert(v.deep_view() =~= before.push(x.deep_view()));
}

/// Executable `definition_step`; `false`, with nothing promised of `l`, where reading
/// panics.
fn read_definition(es: &Vec<SyntaxElementData>, d: usize, l: &mut Lists, config: &Config) -> (ok: bool)
    requires
        d < es@.len(),
    ensures
        ok == definition_step(old(l).deep_view(), elements_view(es), d as int) is Some,
        ok ==> definition_step(old(l).deep_view(), elements_view(es), d as int) == Some(final(l).deep_view()),
{
    reveal(definition_step);
    let ghost g = elements_view(es);
    assert(g[d as int] == es@[d as int].deep_view());
    let k = &es[d].kind;
    if string_is(k, "OPERATION_DEFINITION") {
        match read_operation_def(es, d, config) {
            Some(o) => {
                push_item(&mut l.operation_types, o);
                true
            },
            None => false,
        }
    } else if string_is(k, "OBJECT_TYPE_DEFINITION") {
        match read_object_type_def(es, d, config) {
            Some(o) => {
                push_item(&mut l.object_types, o);
                true
            },
            None => false,
        }
    } else if string_is(k, "SCALAR_TYPE_DEFINITION") {
        match read_scalar_type_def(es, d, config) {
            Some(o) => {
                push_item(&mut l.scalar_types, o);
                true
            },
            None => false,
        }
    } else if string_is(k, "ENUM_TYPE_DEFINITION") {
        match read_enum_type_def(es, d, config) {
            Some(o) => {
                push_item(&mut l.enum_types, o);
                true
            },
            None => false,
        }
    } else if string_is(k, "INTERFACE_TYPE_DEFINITION") {
        match read_interface_type_def(es, d, config) {
            Some(o) => {
                push_item(&mut l.interface_types, o);
                true
            },
            None => false,
        }
    } else if string_is(k, "INPUT_OBJECT_TYPE_DEFINITION") {
        match read_input_object_type_def(es, d, config) {
            Some(o) => {
                push_item(&mut l.input_object_types, o);
                true
            },
            None => false,
        }
    } else if string_is(k, "UNION_TYPE_DEFINITION") {
        match read_union_type_def(es, d, config) {
            Some(o) => {
                push_item(&mut l.union_types, o);
                true
            },
            None => false,
        }
    } else if string_is(k, "DIRECTIVE_DEFINITION") {
        match read_directive_def(es, d, config) {
            Some(o) => {
                push_item(&mut l.directives, o);
                true
            },
            None => false,
        }
    } else if string_is(k, "FRAGMENT_DEFINITION") {
        match read_fragment_def(es, d, config) {
            Some(o) => {
                push_item(&mut l.fragments, o);
                true
            },
            None => false,
        }
    } else if string_is(k, "SCHEMA_DEFINITION") {
        match read_schema_def(es, d, config) {
            Some(o) => {
                push_item(&mut l.schemas, o);
                true
            },
            None => false,
        }
    } else if string_is(k, "OBJECT_TYPE_EXTENSION") {
        apply_object_type_extension(es, d, &mut l.object_types, config)
    } else if string_is(k, "SCALAR_TYPE_EXTENSION") {
        apply_scalar_type_extension(es, d, &mut l.scalar_types, config)
    } else if string_is(k, "ENUM_TYPE_EXTENSION") {
        apply_enum_type_extension(es, d, &mut l.enum_types, config)
    } else if string_is(k, "INTERFACE_TYPE_EXTENSION") {
        apply_interface_type_extension(es, d, &mut l.interface_types, config)
    } else if string_is(k, "INPUT_OBJECT_TYPE_EXTENSION") {
        apply_input_object_type_extension(es, d, &mut l.input_object_types, config)
    } else if string_is(k, "UNION_TYPE_EXTENSION") {
        apply_union_type_extension(es, d, &mut l.union_types, config)
    } else {
        true
    }
}

proof fn lemma_definitions_none(es: Seq<SyntaxElementV>, ids: Seq<int>, n: int, m: int)
    requires
        0 <= n <= m <= ids.len(),
        definitions_from(es, ids, n) is None,
    ensures
        definitions_from(es, ids, m) is None,
    decreases m - n,
{
    if n < m {
        lemma_definitions_none(es, ids, n, m - 1);
    }
}

/// A list, or `None` when it is empty.
fn nonempty_vec<T: DeepView>(v: Vec<T>) -> (r: Option<Vec<T>>)
    ensures
        r.deep_view() == nonempty(v.deep_view()),
{
    if v.len() != 0 {
        Some(v)
    } else {
        None
    }
}

/// Lists with nothing in them.
fn new_lists() -> (l: Lists)
    ensures
        l.deep_view() == empty_lists(),
{
    let l = Lists {
        operation_types: Vec::new(),
        object_types: Vec::new(),
        input_object_types: Vec::new(),
        scalar_types: Vec::new(),
        enum_types: Vec::new(),
        interface_types: Vec::new(),
        union_types: Vec::new(),
        directives: Vec::new(),
        fragments: Vec::new(),
        schemas: Vec::new(),
    };
    assert(l.operation_types.deep_view() =~= Seq::<OperationTypeV>::empty());
    assert(l.object_types.deep_view() =~= Seq::<ObjectTypeV>::empty());
    assert(l.input_object_types.deep_view() =~= Seq::<ObjectTypeV>::empty());
    assert(l.scalar_types.deep_view() =~= Seq::<ScalarTypeV>::empty());
    assert(l.enum_types.deep_view() =~= Seq::<EnumTypeV>::empty());
    assert(l.interface_types.deep_view() =~= Seq::<InterfaceTypeV>::empty());
    assert(l.union_types.deep_view() =~= Seq::<UnionTypeV>::empty());
    assert(l.directives.deep_view() =~= Seq::<DirectiveV>::empty());
    assert(l.fragments.deep_view() =~= Seq::<FragmentV>::empty());
    assert(l.schemas.deep_view() =~= Seq::<SchemaV>::empty());
    l
}

/// A document with no elements has no definitions.
proof fn lemma_no_definitions(es: Seq<SyntaxElementV>)
    requires
        es.len() == 0,
    ensures
        document_lists(es) == Some(empty_lists()),
{
    assert(document_definitions(es) =~= Seq::<int>::empty());
}

/// The lists read from all the definitions of the document whose elements are `es`;
/// `None` where a definition cannot be read.
fn read_document(es: &Vec<SyntaxElementData>, config: &Config) -> (r: Option<Lists>)
    ensures
        match r {
            Some(l) => document_lists(elements_view(es)) == Some(l.deep_view()),
            None => document_lists(elements_view(es)) is None,
        },
{
    let ghost g = elements_view(es);
    let mut l = new_lists();
    if es.len() == 0 {
        proof {
            lemma_no_definitions(g);
        }
        return Some(l);
    }
    let ids = children_exec(es, 0, KindQuery::AnyDefinition, true);
    let ghost gi = document_definitions(g);
    let mut k: usize = 0;
    while k < ids.len()
        invariant
            k <= ids@.len(),
            g == elements_view(es),
            gi == document_definitions(g),
            indices_match(ids@, gi),
            forall|m: int| 0 <= m < ids@.len() ==> #[trigger] ids@[m] < es@.len(),
            definitions_from(g, gi, k as int) == Some(l.deep_view()),
        decreases ids.len() - k,
    {
        let d = ids[k];
        assert(gi[k as int] == d as int);
        let ok = read_definition(es, d, &mut l, config);
        if !ok {
            proof {
                lemma_definitions_none(g, gi, k + 1, gi.len() as int);
            }
            return None;
        }
        k = k + 1;
    }
    Some(l)
}

/// The schema data of the lists, with the kinds of fields marked (in parallel when
/// `config.parallel`).
fn lists_to_data(l: Lists, config: &Config) -> (r: SchemaData)
    ensures
        r.deep_view() == processed(lists_data(l.deep_view())),
{
    let mut data = SchemaData {
        operation_types: nonempty_vec(l.operation_types),
        object_types: nonempty_vec(l.object_types),
        input_object_types: nonempty_vec(l.input_object_types),
        scalar_types: nonempty_vec(l.scalar_types),
        enum_types: nonempty_vec(l.enum_types),
        interface_types: nonempty_vec(l.interface_types),
        union_types: nonempty_vec(l.union_types),
        directives: nonempty_vec(l.directives),
        fragments: nonempty_vec(l.fragments),
        schemas: nonempty_vec(l.schemas),
    };
    assert(data.deep_view() == lists_data(l.deep_view()));
    if config.parallel {
        par_process_fields(&mut data, config);
    } else {
        process_fields(&mut data, config);
    }
    data
}

/// Reads a schema from the elements of its syntax tree, as `parse_graphql` lists them:
/// each definition of the document in order, then the kinds of the fields marked (in
/// parallel when `config.parallel`); `None` where a definition cannot be read.
pub fn schema_from_syntax(dump: &SyntaxDump, config: &Config) -> (r: Option<SchemaData>)
    ensures
        r.deep_view() == schema_from_elements(dump.deep_view().elements),
{
    assert(dump.deep_view().elements == elements_view(&dump.elements));
    match read_document(&dump.elements, config) {
        Some(l) => Some(lists_to_data(l, config)),
        None => None,
    }
}

/// Parses schema text with `apollo_parser` and reads the schema from its syntax tree;
/// `None` where a definition cannot be read.
fn parse_entire_schema(raw_schema: &str, config: &Config) -> (r: Option<SchemaData>)
    requires
        brackets_open_names(raw_schema@),
    ensures
        r.deep_view() == schema_from_elements(graphql_syntax(raw_schema@).elements),
{
    let dump = parse_graphql(raw_schema);
    schema_from_syntax(&dump, config)
}

/// The text of a schema as it is parsed: comments (`#` to the end of the line, unless
/// the `#` follows a `:`) removed, then each run of `\r\n` made one `\n`.
pub fn prepare_schema_text(raw_schema: &str) -> (r: String)
    ensures
        r@ == prepared_text(raw_schema@),
{
    let cs = chars_of(raw_schema);
    let without_comments = remove_all_matches(Pattern::Comment, cs.as_slice());
    let nl: Vec<char> = vec!['\n'];
    assert(nl@ =~= seq!['\n']);
    let joined = replace_all_matches(Pattern::CarriageReturnNewLine, without_comments.as_slice(), nl.as_slice());
    string_of(joined.as_slice())
}

/// The error messages that `apollo_parser` gives for schema text, as it is parsed; `None`
/// where the prepared text has a `[` not followed at once by `[` or a name, on which the
/// parser would panic.
pub fn schema_errors(raw_schema: &str) -> (r: Option<Vec<String>>)
    ensures
        match r {
            Some(v) => brackets_open_names(prepared_text(raw_schema@)) && v.deep_view() == graphql_syntax(
                prepared_text(raw_schema@),
            ).errors,
            None => !brackets_open_names(prepared_text(raw_schema@)),
        },
{
    let text = prepare_schema_text(raw_schema);
    if !check_brackets(text.as_str()) {
        return None;
    }
    let dump = parse_graphql(text.as_str());
    Some(dump.errors)
}

/// Reads a schema from its text: comments removed, `\r\n` made `\n`, the text parsed,
/// each definition read into the list of its kind (extensions change the types they
/// extend), and the kinds of fields marked. For text that the parser takes without panic
/// and whose definitions can all be read.
pub fn parse_schema_from_string(raw_schema: &str, config: &Config) -> (r: SchemaData)
    requires
        schema_view(raw_schema@) is Some,
    ensures
        Some(r.deep_view()) == schema_view(raw_schema@),
{
    let text = prepare_schema_text(raw_schema);
    parse_entire_schema(text.as_str(), config).unwrap()
}

/// Reads a schema from its text as `parse_schema_from_string` does; `None` where the
/// parser would panic on the prepared text or a definition cannot be read.
pub fn try_parse_schema_from_string(raw_schema: &str, config: &Config) -> (r: Option<SchemaData>)
    ensures
        r.deep_view() == schema_view(raw_schema@),
{
    let text = prepare_schema_text(raw_schema);
    if !check_brackets(text.as_str()) {
        return None;
    }
    match parse_entire_schema(text.as_str(), config) {
        Some(_) => Some(parse_schema_from_string(raw_schema, config)),
        None => None,
    }
}

} // verus!
