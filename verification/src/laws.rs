//! Properties of the reader that hold for every input.
use vstd::prelude::*;
use crate::types::{
    SchemaDataV,
    FieldArgumentDataV,
    DirectiveDataV,
    EnumValueDataV,
    FieldDataV,
    ObjectTypeV,
    InterfaceTypeV,
    OperationTypeV,
    ScalarTypeV,
    EnumTypeV,
    UnionTypeV,
    SelectionV,
};
use crate::process::{
    processed,
    name_lists,
    NameLists,
    mark_argument,
    mark_field,
    mark_fields,
    mark_object,
    mark_interface,
    mark_operation,
};
use crate::syntax::SyntaxElementV;
use crate::enum_values::{
    TempV,
    key_index,
    key_index_from,
    insert_fresh,
    value_entries,
    describe,
    description_text,
    block_phase,
    quoted_key,
    quoted_phase,
    lines_phase,
    line_without_directives,
    first_key_in,
    directive_step,
    directive_name_with_at,
    directive_entry,
    fallback_text,
    directives_phase,
    without_directives,
    descriptions_read,
    strip_descriptions,
    enum_values_state,
    enum_value_view,
    enum_values_view,
};
use crate::fields::{without_ws, child_text, name_token_of, directives_of, arguments_of, arguments_prefix, field_view, FieldDefs, bare_type, type_is_array, type_is_nullable};
use crate::directives::{directives_in, directive_with_arguments, directive_without_arguments};
use crate::syntax::{KindQuery, graphql_syntax, first_child_node, child_nodes};
use crate::schema::{ListsV, empty_lists, lists_data, definition_step, definitions_from, document_definitions, schema_view, prepared_text};
use crate::patterns::{Pattern, match_at, at_line_start, line_end, comment_at, crlf_end, replace_all, first_match_from, replace_all_from, first_match_text, all_matches, remove_all};
use crate::text::{lines, has_char};
use crate::selection::{nested_selections, nested_loop, line_name, is_parent_from};
use crate::text::{CharClass, is_ws, lemma_run_end, run_end, in_class};
use crate::definitions::{
    def_name,
    scalar_type_view,
    enum_type_view,
    union_type_view,
    directive_view,
    fragment_view,
    schema_def_view,
    object_type_view,
    interface_type_view,
    input_object_type_view,
    operation_view,
    add_directives,
    extension_name,
    scalar_extension_view,
    enum_extension_view,
    union_extension_view,
    object_extension_view,
    interface_extension_view,
    input_object_extension_view,
    extend_scalar,
    extend_enum,
    extend_union,
    extend_object,
    extend_interface,
    extend_input_object,
    values_of,
    ext_fields,
    input_ext_fields,
    FieldKind,
    field_def_at,
    fields_from,
    fields_under,
};

verus! {

proof fn lemma_mark_fields_twice(fs: Seq<FieldDataV>, n: NameLists)
    ensures
        mark_fields(mark_fields(fs, n), n) == mark_fields(fs, n),
{
    assert forall|k: int| 0 <= k < fs.len() implies #[trigger] mark_fields(mark_fields(fs, n), n)[k] == mark_fields(fs, n)[k] by {
        let f = fs[k];
        match f.arguments {
            Some(args) => {
                let once = args.map_values(|a: FieldArgumentDataV| mark_argument(a, n));
                assert(once.map_values(|a: FieldArgumentDataV| mark_argument(a, n)) =~= once);
            },
            None => {},
        }
    }
    assert(mark_fields(mark_fields(fs, n), n) =~= mark_fields(fs, n));
}

/// Marking the kinds of fields a second time changes nothing: the names that fields are
/// looked up in are those of the enums, scalars and unions, which marking leaves as they
/// are, and a flag once set stays set.
pub proof fn law_processing_twice_is_processing_once(d: SchemaDataV)
    ensures
        processed(processed(d)) == processed(d),
{
    let n = name_lists(d);
    assert(name_lists(processed(d)) == n);
    match d.operation_types {
        Some(v) => {
            let once = v.map_values(|o: OperationTypeV| mark_operation(o, n));
            assert forall|k: int| 0 <= k < once.len() implies #[trigger] mark_operation(once[k], n) == once[k] by {
                lemma_mark_fields_twice(v[k].fields, n);
            }
            assert(once.map_values(|o: OperationTypeV| mark_operation(o, n)) =~= once);
        },
        None => {},
    }
    match d.object_types {
        Some(v) => {
            let once = v.map_values(|o: ObjectTypeV| mark_object(o, n));
            assert forall|k: int| 0 <= k < once.len() implies #[trigger] mark_object(once[k], n) == once[k] by {
                lemma_mark_fields_twice(v[k].fields, n);
            }
            assert(once.map_values(|o: ObjectTypeV| mark_object(o, n)) =~= once);
        },
        None => {},
    }
    match d.input_object_types {
        Some(v) => {
            let once = v.map_values(|o: ObjectTypeV| mark_object(o, n));
            assert forall|k: int| 0 <= k < once.len() implies #[trigger] mark_object(once[k], n) == once[k] by {
                lemma_mark_fields_twice(v[k].fields, n);
            }
            assert(once.map_values(|o: ObjectTypeV| mark_object(o, n)) =~= once);
        },
        None => {},
    }
    match d.interface_types {
        Some(v) => {
            let once = v.map_values(|o: InterfaceTypeV| mark_interface(o, n));
            assert forall|k: int| 0 <= k < once.len() implies #[trigger] mark_interface(once[k], n) == once[k] by {
                lemma_mark_fields_twice(v[k].fields, n);
            }
            assert(once.map_values(|o: InterfaceTypeV| mark_interface(o, n)) =~= once);
        },
        None => {},
    }
}


/// Applying a scalar type extension adds no type, removes none and renames none: the types
/// keep their order and names. An extension of a name that no type has changes nothing,
/// and is no error.
pub proof fn law_scalar_extension_keeps_types(es: Seq<SyntaxElementV>, i: int, types: Seq<ScalarTypeV>)
    ensures
        scalar_extension_view(es, i, types) matches Some(r) ==> r.len() == types.len() && forall|k: int|
            0 <= k < r.len() ==> (#[trigger] r[k]).name == types[k].name,
        (extension_name(es, i) matches Some(n) && forall|k: int|
            0 <= k < types.len() ==> (#[trigger] types[k]).name != n) ==> scalar_extension_view(es, i, types) == Some(types),
{
    match extension_name(es, i) {
        Some(n) => {
            if forall|k: int| 0 <= k < types.len() ==> (#[trigger] types[k]).name != n {
                assert(types.map_values(|t: ScalarTypeV| extend_scalar(es, i, n, t)) =~= types);
            }
        },
        None => {},
    }
}

/// Applying an enum type extension adds no type, removes none and renames none: the types
/// keep their order and names. An extension of a name that no type has changes nothing,
/// and is no error.
pub proof fn law_enum_extension_keeps_types(es: Seq<SyntaxElementV>, i: int, types: Seq<EnumTypeV>)
    ensures
        enum_extension_view(es, i, types) matches Some(r) ==> r.len() == types.len() && forall|k: int|
            0 <= k < r.len() ==> (#[trigger] r[k]).name == types[k].name,
        (extension_name(es, i) matches Some(n) && forall|k: int|
            0 <= k < types.len() ==> (#[trigger] types[k]).name != n) ==> enum_extension_view(es, i, types) == Some(types),
{
    match extension_name(es, i) {
        Some(n) => match values_of(es, i) {
            Some(vals) => {
                if forall|k: int| 0 <= k < types.len() ==> (#[trigger] types[k]).name != n {
                    assert(types.map_values(|t: EnumTypeV| extend_enum(es, i, n, vals, t)) =~= types);
                }
            },
            None => {},
        },
        None => {},
    }
}

/// Applying a union type extension adds no type, removes none and renames none: the types
/// keep their order and names. An extension of a name that no type has changes nothing,
/// and is no error.
pub proof fn law_union_extension_keeps_types(es: Seq<SyntaxElementV>, i: int, types: Seq<UnionTypeV>)
    ensures
        union_extension_view(es, i, types) matches Some(r) ==> r.len() == types.len() && forall|k: int|
            0 <= k < r.len() ==> (#[trigger] r[k]).name == types[k].name,
        (extension_name(es, i) matches Some(n) && forall|k: int|
            0 <= k < types.len() ==> (#[trigger] types[k]).name != n) ==> union_extension_view(es, i, types) == Some(types),
{
    match extension_name(es, i) {
        Some(n) => {
            if forall|k: int| 0 <= k < types.len() ==> (#[trigger] types[k]).name != n {
                assert(types.map_values(|t: UnionTypeV| extend_union(es, i, n, t)) =~= types);
            }
        },
        None => {},
    }
}

/// Applying an object type extension adds no type, removes none and renames none: the types
/// keep their order and names. An extension of a name that no type has changes nothing,
/// and is no error.
pub proof fn law_object_extension_keeps_types(es: Seq<SyntaxElementV>, i: int, types: Seq<ObjectTypeV>)
    ensures
        object_extension_view(es, i, types) matches Some(r) ==> r.len() == types.len() && forall|k: int|
            0 <= k < r.len() ==> (#[trigger] r[k]).name == types[k].name,
        (extension_name(es, i) matches Some(n) && forall|k: int|
            0 <= k < types.len() ==> (#[trigger] types[k]).name != n) ==> object_extension_view(es, i, types) == Some(types),
{
    match extension_name(es, i) {
        Some(n) => match ext_fields(es, i) {
            Some(fs) => {
                if forall|k: int| 0 <= k < types.len() ==> (#[trigger] types[k]).name != n {
                    assert(types.map_values(|t: ObjectTypeV| extend_object(es, i, n, fs, t)) =~= types);
                }
            },
            None => {},
        },
        None => {},
    }
}

/// Applying an interface type extension adds no type, removes none and renames none: the types
/// keep their order and names. An extension of a name that no type has changes nothing,
/// and is no error.
pub proof fn law_interface_extension_keeps_types(es: Seq<SyntaxElementV>, i: int, types: Seq<InterfaceTypeV>)
    ensures
        interface_extension_view(es, i, types) matches Some(r) ==> r.len() == types.len() && forall|k: int|
            0 <= k < r.len() ==> (#[trigger] r[k]).name == types[k].name,
        (extension_name(es, i) matches Some(n) && forall|k: int|
            0 <= k < types.len() ==> (#[trigger] types[k]).name != n) ==> interface_extension_view(es, i, types) == Some(types),
{
    match extension_name(es, i) {
        Some(n) => match ext_fields(es, i) {
            Some(fs) => {
                if forall|k: int| 0 <= k < types.len() ==> (#[trigger] types[k]).name != n {
                    assert(types.map_values(|t: InterfaceTypeV| extend_interface(es, i, n, fs, t)) =~= types);
                }
            },
            None => {},
        },
        None => {},
    }
}

/// Applying an input object type extension adds no type, removes none and renames none: the types
/// keep their order and names. An extension of a name that no type has changes nothing,
/// and is no error.
pub proof fn law_input_object_extension_keeps_types(es: Seq<SyntaxElementV>, i: int, types: Seq<ObjectTypeV>)
    ensures
        input_object_extension_view(es, i, types) matches Some(r) ==> r.len() == types.len() && forall|k: int|
            0 <= k < r.len() ==> (#[trigger] r[k]).name == types[k].name,
        (extension_name(es, i) matches Some(n) && forall|k: int|
            0 <= k < types.len() ==> (#[trigger] types[k]).name != n) ==> input_object_extension_view(es, i, types) == Some(types),
{
    match extension_name(es, i) {
        Some(n) => match input_ext_fields(es, i) {
            Some(fs) => {
                if forall|k: int| 0 <= k < types.len() ==> (#[trigger] types[k]).name != n {
                    assert(types.map_values(|t: ObjectTypeV| extend_input_object(es, i, n, fs, t)) =~= types);
                }
            },
            None => {},
        },
        None => {},
    }
}


/// What the leftmost match from `i` tells of the positions before it.
proof fn lemma_first_match_from(p: Pattern, s: Seq<char>, i: int)
    requires
        0 <= i,
    ensures
        first_match_from(p, s, i) matches Some((a, e)) ==> i <= a && match_at(p, s, a) == Some(e)
            && forall|q: int| i <= q < a ==> (#[trigger] match_at(p, s, q)) is None,
        first_match_from(p, s, i) is None ==> forall|q: int|
            i <= q < s.len() ==> (#[trigger] match_at(p, s, q)) is None,
    decreases s.len() - i,
{
    if i < s.len() && match_at(p, s, i) is None {
        lemma_first_match_from(p, s, i + 1);
    }
}

/// The text left after the whitespace from `i` on is removed holds no whitespace.
proof fn lemma_no_whitespace_left(s: Seq<char>, i: int)
    requires
        0 <= i <= s.len(),
    ensures
        forall|k: int|
            0 <= k < replace_all_from(Pattern::Whitespace, s, i, Seq::empty()).len() ==> !is_ws(
                #[trigger] replace_all_from(Pattern::Whitespace, s, i, Seq::empty())[k],
            ),
    decreases s.len() - i,
{
    lemma_first_match_from(Pattern::Whitespace, s, i);
    let r = replace_all_from(Pattern::Whitespace, s, i, Seq::empty());
    match first_match_from(Pattern::Whitespace, s, i) {
        Some((a, e)) => {
            lemma_run_end(s, a, CharClass::Ws);
            if i <= a < e <= s.len() {
                lemma_no_whitespace_left(s, e);
                let rest = replace_all_from(Pattern::Whitespace, s, e, Seq::empty());
                assert(r == s.subrange(i, a) + Seq::<char>::empty() + rest);
                assert forall|k: int| 0 <= k < r.len() implies !is_ws(#[trigger] r[k]) by {
                    if k < a - i {
                        assert(r[k] == s[i + k]);
                        assert(match_at(Pattern::Whitespace, s, i + k) is None);
                    } else {
                        assert(r[k] == rest[k - (a - i)]);
                    }
                }
            }
        },
        None => {
            assert forall|k: int| 0 <= k < r.len() implies !is_ws(#[trigger] r[k]) by {
                assert(r[k] == s[i + k]);
                assert(match_at(Pattern::Whitespace, s, i + k) is None);
            }
        },
    }
}

/// Removing whitespace leaves no whitespace, and removing it once more changes nothing.
/// The names of types, fields and fragments, and the type a fragment is on, are read so.
pub proof fn law_whitespace_removal(t: Seq<char>)
    ensures
        forall|k: int| 0 <= k < without_ws(t).len() ==> !is_ws(#[trigger] without_ws(t)[k]),
        without_ws(without_ws(t)) == without_ws(t),
{
    lemma_no_whitespace_left(t, 0);
    let u = without_ws(t);
    lemma_first_match_from(Pattern::Whitespace, u, 0);
    if let Some((a, e)) = first_match_from(Pattern::Whitespace, u, 0) {
        assert(!is_ws(u[a]));
        assert(false);
    }
    assert(u.subrange(0, u.len() as int) =~= u);
}


/// No two entries are for the same value.
pub open spec fn distinct_values(s: Seq<TempV>) -> bool {
    forall|a: int, b: int| 0 <= a < b < s.len() ==> (#[trigger] s[a]).value != (#[trigger] s[b]).value
}

/// Two lists of entries are for the same values, in the same order.
pub open spec fn same_values(s: Seq<TempV>, t: Seq<TempV>) -> bool {
    s.len() == t.len() && forall|k: int| 0 <= k < s.len() ==> (#[trigger] s[k]).value == t[k].value
}

pub(crate) proof fn lemma_key_index_from(s: Seq<TempV>, k: Seq<char>, j: int)
    requires
        0 <= j,
    ensures
        key_index_from(s, k, j) matches Some(x) ==> j <= x < s.len() && s[x].value == k,
        key_index_from(s, k, j) is None ==> forall|x: int| j <= x < s.len() ==> (#[trigger] s[x]).value != k,
    decreases s.len() - j,
{
    if j < s.len() && s[j].value != k {
        lemma_key_index_from(s, k, j + 1);
    }
}

proof fn lemma_value_entries_distinct(src: Seq<char>, ms: Seq<(int, int)>, n: int)
    ensures
        distinct_values(value_entries(src, ms, n)),
    decreases n,
{
    if n > 0 && n <= ms.len() {
        lemma_value_entries_distinct(src, ms, n - 1);
        let s = value_entries(src, ms, n - 1);
        let v = src.subrange(ms[n - 1].0, ms[n - 1].1);
        lemma_key_index_from(s, v, 0);
        let t = insert_fresh(s, v);
        assert forall|a: int, b: int| 0 <= a < b < t.len() implies (#[trigger] t[a]).value != (#[trigger] t[b]).value by {
            match key_index(s, v) {
                Some(j) => {
                    assert(s[a].value != s[b].value);
                },
                None => {
                    if b < s.len() {
                        assert(s[a].value != s[b].value);
                    } else {
                        assert(t[b].value == v);
                    }
                },
            }
        }
    }
}

proof fn lemma_same_values_distinct(s: Seq<TempV>, t: Seq<TempV>)
    requires
        same_values(s, t),
        distinct_values(s),
    ensures
        distinct_values(t),
{
    assert forall|a: int, b: int| 0 <= a < b < t.len() implies (#[trigger] t[a]).value != (#[trigger] t[b]).value by {
        assert(s[a].value != s[b].value);
    }
}

proof fn lemma_describe_same(s: Option<Seq<TempV>>, key: Option<Seq<char>>, desc: Seq<char>)
    ensures
        s matches Some(x) ==> (describe(s, key, desc) matches Some(y) ==> same_values(x, y)),
{
    if let (Some(x), Some(k)) = (s, key) {
        lemma_key_index_from(x, k, 0);
    }
}

proof fn lemma_block_phase_same(s0: Seq<TempV>, vwd: Seq<char>, ms: Seq<(int, int)>, n: int)
    ensures
        block_phase(s0, vwd, ms, n) matches Some(y) ==> same_values(s0, y),
    decreases n,
{
    if n > 0 && n <= ms.len() {
        lemma_block_phase_same(s0, vwd, ms, n - 1);
        let prev = block_phase(s0, vwd, ms, n - 1);
        lemma_describe_same(prev, first_match_text(Pattern::FirstWord, vwd.subrange(ms[n - 1].1, vwd.len() as int)), description_text(vwd, ms[n - 1]));
    }
}

proof fn lemma_quoted_phase_same(s0: Option<Seq<TempV>>, vwd: Seq<char>, w: Seq<char>, ms: Seq<(int, int)>, n: int)
    ensures
        s0 matches Some(x) ==> (quoted_phase(s0, vwd, w, ms, n) matches Some(y) ==> same_values(x, y)),
    decreases n,
{
    if n > 0 && n <= ms.len() {
        lemma_quoted_phase_same(s0, vwd, w, ms, n - 1);
        let prev = quoted_phase(s0, vwd, w, ms, n - 1);
        lemma_describe_same(prev, quoted_key(vwd, w, ms[n - 1]), description_text(w, ms[n - 1]));
    }
}

proof fn lemma_lines_phase_same(
    s0: Seq<TempV>,
    b: bool,
    v: Seq<char>,
    ls: Seq<Seq<char>>,
    n: int,
    nwa: Seq<char>,
    start: int,
    entry: (Seq<char>, Seq<char>),
    with_args: bool,
)
    ensures
        lines_phase((Some(s0), b), v, ls, n, nwa, start, entry, with_args).0 matches Some(y) ==> same_values(s0, y),
    decreases n,
{
    if n > 0 && n <= ls.len() {
        lemma_lines_phase_same(s0, b, v, ls, n - 1, nwa, start, entry, with_args);
        let st = lines_phase((Some(s0), b), v, ls, n - 1, nwa, start, entry, with_args);
        if let Some(s) = st.0 {
            let line = ls[n - 1];
            let t = line_without_directives(line, with_args);
            lemma_first_key_in(s, t, 0);
        }
    }
}

pub(crate) proof fn lemma_first_key_in(s: Seq<TempV>, t: Seq<char>, j: int)
    requires
        0 <= j,
    ensures
        first_key_in(s, t, j) matches Some(x) ==> j <= x < s.len(),
    decreases s.len() - j,
{
    if j < s.len() && !crate::text::has_text(t, s[j].value) {
        lemma_first_key_in(s, t, j + 1);
    }
}

proof fn lemma_directive_step_same(s: Option<Seq<TempV>>, v: Seq<char>, m: (int, int), with_args: bool)
    ensures
        s matches Some(x) ==> (directive_step(s, v, m, with_args) matches Some(y) ==> same_values(x, y)),
{
    if let Some(x) = s {
        let nwa = directive_name_with_at(v, m, with_args);
        let entry = directive_entry(v, m, with_args);
        lemma_lines_phase_same(x, false, v, lines(v), lines(v).len() as int, nwa, m.0, entry, with_args);
        let st = lines_phase((Some(x), false), v, lines(v), lines(v).len() as int, nwa, m.0, entry, with_args);
        if let Some(s1) = st.0 {
            if let Some(k) = first_match_text(Pattern::FirstWord, fallback_text(v, m.1, with_args)) {
                lemma_key_index_from(s1, k, 0);
            }
        }
    }
}

proof fn lemma_directives_phase_same(s0: Option<Seq<TempV>>, v: Seq<char>, ms: Seq<(int, int)>, n: int, with_args: bool)
    ensures
        s0 matches Some(x) ==> (directives_phase(s0, v, ms, n, with_args) matches Some(y) ==> same_values(x, y)),
    decreases n,
{
    if n > 0 && n <= ms.len() {
        lemma_directives_phase_same(s0, v, ms, n - 1, with_args);
        let prev = directives_phase(s0, v, ms, n - 1, with_args);
        lemma_directive_step_same(prev, v, ms[n - 1], with_args);
        if prev is None {
            let m = ms[n - 1];
            crate::enum_values::lemma_lines_phase_from_none(
                false,
                v,
                lines(v),
                lines(v).len() as int,
                directive_name_with_at(v, m, with_args),
                m.0,
                directive_entry(v, m, with_args),
                with_args,
            );
        }
    }
}

/// The values read from an enum's block are distinct: a value written twice is one value,
/// in the place where it first appears.
pub proof fn law_enum_values_are_distinct(raw: Seq<char>)
    ensures
        enum_values_view(raw) matches Some(vs) ==> forall|a: int, b: int|
            0 <= a < b < vs.len() ==> (#[trigger] vs[a]).value != (#[trigger] vs[b]).value,
{
    let vwd = without_directives(raw);
    let raw_values = remove_all(Pattern::QuotedDescription, remove_all(Pattern::BlockString, vwd));
    let vms = all_matches(Pattern::FirstWord, raw_values);
    let s1 = value_entries(raw_values, vms, vms.len() as int);
    let bms = all_matches(Pattern::BlockString, vwd);
    let s2 = block_phase(s1, vwd, bms, bms.len() as int);
    let w = remove_all(Pattern::BlockString, vwd);
    let qms = all_matches(Pattern::QuotedDescription, w);
    let s3 = quoted_phase(s2, vwd, w, qms, qms.len() as int);
    let descs = descriptions_read(raw);
    let v = strip_descriptions(raw, descs, descs.len() as int);
    let dms = all_matches(Pattern::DirectiveWithArguments, v);
    let s4 = directives_phase(s3, v, dms, dms.len() as int, true);
    let v2 = remove_all(Pattern::DirectiveWithArguments, v);
    let nms = all_matches(Pattern::DirectiveName, v2);
    let s5 = directives_phase(s4, v2, nms, nms.len() as int, false);
    assert(enum_values_state(raw) == s5);
    lemma_value_entries_distinct(raw_values, vms, vms.len() as int);
    lemma_block_phase_same(s1, vwd, bms, bms.len() as int);
    lemma_quoted_phase_same(s2, vwd, w, qms, qms.len() as int);
    lemma_directives_phase_same(s3, v, dms, dms.len() as int, true);
    lemma_directives_phase_same(s4, v2, nms, nms.len() as int, false);
    if s2 is None {
        crate::enum_values::lemma_state_none(raw, 2);
    } else if s3 is None {
        crate::enum_values::lemma_state_none(raw, 3);
    } else if s4 is None {
        crate::enum_values::lemma_state_none(raw, 4);
    }
    if let Some(y) = s5 {
        let x2 = s2.unwrap();
        let x3 = s3.unwrap();
        let x4 = s4.unwrap();
        lemma_same_values_distinct(s1, x2);
        lemma_same_values_distinct(x2, x3);
        lemma_same_values_distinct(x3, x4);
        lemma_same_values_distinct(x4, y);
        let vs = y.map_values(|t: TempV| enum_value_view(t));
        assert forall|a: int, b: int| 0 <= a < b < vs.len() implies (#[trigger] vs[a]).value != (#[trigger] vs[b]).value by {
            assert(y[a].value != y[b].value);
        }
    }
}


/// A field is marked by the name lists `n`: as an enum when an enum has its type's name,
/// else as a scalar when a scalar has it, else as a union when a union has it.
pub open spec fn field_marked(f: FieldDataV, n: NameLists) -> bool {
    let t = f.field_type;
    &&& n.enums.contains(t) ==> f.is_enum
    &&& (!n.enums.contains(t) && n.scalars.contains(t)) ==> f.is_scalar
    &&& (!n.enums.contains(t) && !n.scalars.contains(t) && n.unions.contains(t)) ==> f.is_union
}

/// Every field of the list is marked by `n`.
pub open spec fn fields_marked(fs: Seq<FieldDataV>, n: NameLists) -> bool {
    forall|k: int| 0 <= k < fs.len() ==> field_marked(#[trigger] fs[k], n)
}

proof fn lemma_mark_fields_marks(fs: Seq<FieldDataV>, n: NameLists)
    ensures
        fields_marked(mark_fields(fs, n), n),
{
    assert forall|k: int| 0 <= k < mark_fields(fs, n).len() implies field_marked(#[trigger] mark_fields(fs, n)[k], n) by {
        assert(mark_fields(fs, n)[k] == mark_field(fs[k], n));
    }
}

/// After processing, every field of every object, input object, interface and operation
/// is marked against the schema's own enums, scalars and unions, which processing leaves as
/// they were.
pub proof fn law_processing_marks_every_field(d: SchemaDataV)
    ensures
        name_lists(processed(d)) == name_lists(d),
        processed(d).object_types matches Some(v) ==> forall|k: int|
            0 <= k < v.len() ==> fields_marked(#[trigger] v[k].fields, name_lists(d)),
        processed(d).input_object_types matches Some(v) ==> forall|k: int|
            0 <= k < v.len() ==> fields_marked(#[trigger] v[k].fields, name_lists(d)),
        processed(d).interface_types matches Some(v) ==> forall|k: int|
            0 <= k < v.len() ==> fields_marked(#[trigger] v[k].fields, name_lists(d)),
        processed(d).operation_types matches Some(v) ==> forall|k: int|
            0 <= k < v.len() ==> fields_marked(#[trigger] v[k].fields, name_lists(d)),
{
    let n = name_lists(d);
    if let Some(v) = d.object_types {
        assert forall|k: int| 0 <= k < v.len() implies fields_marked(#[trigger] processed(d).object_types.unwrap()[k].fields, n) by {
            lemma_mark_fields_marks(v[k].fields, n);
        }
    }
    if let Some(v) = d.input_object_types {
        assert forall|k: int| 0 <= k < v.len() implies fields_marked(#[trigger] processed(d).input_object_types.unwrap()[k].fields, n) by {
            lemma_mark_fields_marks(v[k].fields, n);
        }
    }
    if let Some(v) = d.interface_types {
        assert forall|k: int| 0 <= k < v.len() implies fields_marked(#[trigger] processed(d).interface_types.unwrap()[k].fields, n) by {
            lemma_mark_fields_marks(v[k].fields, n);
        }
    }
    if let Some(v) = d.operation_types {
        assert forall|k: int| 0 <= k < v.len() implies fields_marked(#[trigger] processed(d).operation_types.unwrap()[k].fields, n) by {
            lemma_mark_fields_marks(v[k].fields, n);
        }
    }
}


pub(crate) proof fn lemma_nested_forward(ls: Seq<Seq<char>>, sp: int)
    ensures
        nested_selections(ls, sp).1 >= sp,
    decreases ls.len() - sp, 1int,
{
    if !(sp < 0 || sp + 1 >= ls.len()) {
        lemma_loop_forward(ls, sp + 1, sp, false, Seq::empty());
    }
}

proof fn lemma_loop_forward(ls: Seq<Seq<char>>, idx: int, sp: int, on_next: bool, acc: Seq<SelectionV>)
    ensures
        nested_loop(ls, idx, sp, on_next, acc).1 >= sp,
    decreases ls.len() - idx, 2int,
{
    if 0 <= idx < ls.len() {
        if idx <= sp {
            lemma_loop_forward(ls, idx + 1, sp, on_next, acc);
        } else {
            let line = ls[idx];
            match line_name(line) {
                Some(name) => {
                    if has_char(line, '{') {
                        lemma_nested_forward(ls, idx);
                        let (sub, sp2) = nested_selections(ls, idx);
                        lemma_loop_forward(ls, idx + 1, sp2, on_next, acc.push(SelectionV::Parent(name, sub)));
                    } else if has_char(line, '}') {
                    } else if on_next || is_parent_from(ls, idx + 1) {
                        lemma_nested_forward(ls, idx);
                        let (sub, sp2) = nested_selections(ls, idx);
                        lemma_loop_forward(ls, idx + 1, sp2, false, acc.push(SelectionV::Parent(name, sub)));
                    } else {
                        lemma_loop_forward(ls, idx + 1, sp, on_next, acc.push(SelectionV::Leaf(name)));
                    }
                },
                None => {
                    if has_char(line, '{') {
                        lemma_loop_forward(ls, idx + 1, sp, true, acc);
                    } else if has_char(line, '}') {
                    } else {
                        lemma_loop_forward(ls, idx + 1, sp, on_next, acc);
                    }
                },
            }
        }
    }
}

/// Reading the selections nested under a line leaves the stopping point at that line or
/// after it: a reader that goes on from the stopping point never reads a line twice.
pub proof fn law_recurse_selection_moves_forward(text: Seq<char>, stopping_point: int)
    ensures
        nested_selections(lines(text), stopping_point).1 >= stopping_point,
{
    lemma_nested_forward(lines(text), stopping_point);
}


/// A text holds no whitespace.
pub open spec fn no_ws(t: Seq<char>) -> bool {
    forall|k: int| 0 <= k < t.len() ==> !is_ws(#[trigger] t[k])
}

/// No name in the lists holds whitespace.
pub open spec fn names_clean(l: ListsV) -> bool {
    &&& forall|k: int| 0 <= k < l.operation_types.len() ==> no_ws(#[trigger] l.operation_types[k].name)
    &&& forall|k: int| 0 <= k < l.object_types.len() ==> no_ws(#[trigger] l.object_types[k].name)
    &&& forall|k: int| 0 <= k < l.input_object_types.len() ==> no_ws(#[trigger] l.input_object_types[k].name)
    &&& forall|k: int| 0 <= k < l.scalar_types.len() ==> no_ws(#[trigger] l.scalar_types[k].name)
    &&& forall|k: int| 0 <= k < l.enum_types.len() ==> no_ws(#[trigger] l.enum_types[k].name)
    &&& forall|k: int| 0 <= k < l.interface_types.len() ==> no_ws(#[trigger] l.interface_types[k].name)
    &&& forall|k: int| 0 <= k < l.union_types.len() ==> no_ws(#[trigger] l.union_types[k].name)
    &&& forall|k: int| 0 <= k < l.directives.len() ==> no_ws(#[trigger] l.directives[k].name)
    &&& forall|k: int| 0 <= k < l.fragments.len() ==> no_ws(#[trigger] l.fragments[k].name)
}

proof fn lemma_def_name_clean(es: Seq<SyntaxElementV>, i: int)
    ensures
        def_name(es, i) matches Some(n) ==> no_ws(n),
{
    if let Some(t) = name_token_of(es, i) {
        law_whitespace_removal(t);
    }
}

proof fn lemma_step_keeps_names_clean(l: ListsV, es: Seq<SyntaxElementV>, d: int)
    requires
        names_clean(l),
    ensures
        definition_step(l, es, d) matches Some(l2) ==> names_clean(l2),
{
    reveal(definition_step);
    let k = es[d].kind;
    if k == "OPERATION_DEFINITION"@ || k == "OBJECT_TYPE_DEFINITION"@ || k == "SCALAR_TYPE_DEFINITION"@
        || k == "ENUM_TYPE_DEFINITION"@ || k == "INTERFACE_TYPE_DEFINITION"@
        || k == "INPUT_OBJECT_TYPE_DEFINITION"@ || k == "UNION_TYPE_DEFINITION"@
        || k == "DIRECTIVE_DEFINITION"@ {
        lemma_def_name_clean(es, d);
    } else if k == "FRAGMENT_DEFINITION"@ {
        if let Some(t) = child_text(es, d, KindQuery::Kind("FRAGMENT_NAME")) {
            law_whitespace_removal(without_ws(t));
        }
    } else if k == "OBJECT_TYPE_EXTENSION"@ {
        law_object_extension_keeps_types(es, d, l.object_types);
        if let Some(v) = object_extension_view(es, d, l.object_types) {
            assert forall|j: int| 0 <= j < v.len() implies no_ws(#[trigger] v[j].name) by {
                assert(v[j].name == l.object_types[j].name);
            }
        }
    } else if k == "SCALAR_TYPE_EXTENSION"@ {
        law_scalar_extension_keeps_types(es, d, l.scalar_types);
        if let Some(v) = scalar_extension_view(es, d, l.scalar_types) {
            assert forall|j: int| 0 <= j < v.len() implies no_ws(#[trigger] v[j].name) by {
                assert(v[j].name == l.scalar_types[j].name);
            }
        }
    } else if k == "ENUM_TYPE_EXTENSION"@ {
        law_enum_extension_keeps_types(es, d, l.enum_types);
        if let Some(v) = enum_extension_view(es, d, l.enum_types) {
            assert forall|j: int| 0 <= j < v.len() implies no_ws(#[trigger] v[j].name) by {
                assert(v[j].name == l.enum_types[j].name);
            }
        }
    } else if k == "INTERFACE_TYPE_EXTENSION"@ {
        law_interface_extension_keeps_types(es, d, l.interface_types);
        if let Some(v) = interface_extension_view(es, d, l.interface_types) {
            assert forall|j: int| 0 <= j < v.len() implies no_ws(#[trigger] v[j].name) by {
                assert(v[j].name == l.interface_types[j].name);
            }
        }
    } else if k == "INPUT_OBJECT_TYPE_EXTENSION"@ {
        law_input_object_extension_keeps_types(es, d, l.input_object_types);
        if let Some(v) = input_object_extension_view(es, d, l.input_object_types) {
            assert forall|j: int| 0 <= j < v.len() implies no_ws(#[trigger] v[j].name) by {
                assert(v[j].name == l.input_object_types[j].name);
            }
        }
    } else if k == "UNION_TYPE_EXTENSION"@ {
        law_union_extension_keeps_types(es, d, l.union_types);
        if let Some(v) = union_extension_view(es, d, l.union_types) {
            assert forall|j: int| 0 <= j < v.len() implies no_ws(#[trigger] v[j].name) by {
                assert(v[j].name == l.union_types[j].name);
            }
        }
    }
}

proof fn lemma_definitions_keep_names_clean(es: Seq<SyntaxElementV>, ids: Seq<int>, n: int)
    ensures
        definitions_from(es, ids, n) matches Some(l) ==> names_clean(l),
    decreases n,
{
    if n > 0 && n <= ids.len() {
        lemma_definitions_keep_names_clean(es, ids, n - 1);
        if let Some(l) = definitions_from(es, ids, n - 1) {
            lemma_step_keeps_names_clean(l, es, ids[n - 1]);
        }
    }
}

/// No name read from a schema holds whitespace: not the name of an operation, a type of any
/// kind, a directive or a fragment. Definitions read their names without whitespace,
/// extensions rename no type, and marking fields renames nothing.
pub proof fn law_names_hold_no_whitespace(raw: Seq<char>)
    ensures
        schema_view(raw) matches Some(d) ==> {
            &&& d.operation_types matches Some(v) ==> forall|k: int| 0 <= k < v.len() ==> no_ws(#[trigger] v[k].name)
            &&& d.object_types matches Some(v) ==> forall|k: int| 0 <= k < v.len() ==> no_ws(#[trigger] v[k].name)
            &&& d.input_object_types matches Some(v) ==> forall|k: int| 0 <= k < v.len() ==> no_ws(#[trigger] v[k].name)
            &&& d.scalar_types matches Some(v) ==> forall|k: int| 0 <= k < v.len() ==> no_ws(#[trigger] v[k].name)
            &&& d.enum_types matches Some(v) ==> forall|k: int| 0 <= k < v.len() ==> no_ws(#[trigger] v[k].name)
            &&& d.interface_types matches Some(v) ==> forall|k: int| 0 <= k < v.len() ==> no_ws(#[trigger] v[k].name)
            &&& d.union_types matches Some(v) ==> forall|k: int| 0 <= k < v.len() ==> no_ws(#[trigger] v[k].name)
            &&& d.directives matches Some(v) ==> forall|k: int| 0 <= k < v.len() ==> no_ws(#[trigger] v[k].name)
            &&& d.fragments matches Some(v) ==> forall|k: int| 0 <= k < v.len() ==> no_ws(#[trigger] v[k].name)
        },
{
    let es = graphql_syntax(prepared_text(raw)).elements;
    let ids = document_definitions(es);
    lemma_definitions_keep_names_clean(es, ids, ids.len() as int);
}


/// An optional list is `None` or holds something.
pub open spec fn no_empty<T>(o: Option<Seq<T>>) -> bool {
    o matches Some(v) ==> v.len() > 0
}

/// A list of applied directives is `None` or holds something, and so does the argument
/// list of each directive.
pub open spec fn directives_ok(ds: Option<Seq<DirectiveDataV>>) -> bool {
    &&& no_empty(ds)
    &&& ds matches Some(v) ==> forall|k: int| 0 <= k < v.len() ==> no_empty(#[trigger] v[k].values)
}

/// An argument has no empty list, and its written type gives its nullability and whether
/// it is a list.
pub open spec fn argument_ok(a: FieldArgumentDataV) -> bool {
    &&& directives_ok(a.directives)
    &&& a.is_array == type_is_array(a.argument_complete_type)
    &&& a.is_nullable == type_is_nullable(a.argument_complete_type)
}

/// Every argument of the optional list is `argument_ok`, and the list is not empty.
pub open spec fn arguments_ok(args: Option<Seq<FieldArgumentDataV>>) -> bool {
    &&& no_empty(args)
    &&& args matches Some(v) ==> forall|k: int| 0 <= k < v.len() ==> argument_ok(#[trigger] v[k])
}

/// A field has no empty list, and its written type gives its type, its nullability and
/// whether it is a list.
pub open spec fn field_ok(f: FieldDataV) -> bool {
    &&& directives_ok(f.directives)
    &&& arguments_ok(f.arguments)
    &&& f.field_type == bare_type(f.field_complete_type)
    &&& f.is_array == type_is_array(f.field_complete_type)
    &&& f.is_nullable == type_is_nullable(f.field_complete_type)
}

/// No kind flag of the argument is set.
pub open spec fn argument_unmarked(a: FieldArgumentDataV) -> bool {
    !a.is_enum && !a.is_scalar && !a.is_union
}

/// No kind flag of the field or of its arguments is set.
pub open spec fn field_unmarked(f: FieldDataV) -> bool {
    &&& !f.is_enum && !f.is_scalar && !f.is_union
    &&& f.arguments matches Some(v) ==> forall|k: int| 0 <= k < v.len() ==> argument_unmarked(#[trigger] v[k])
}

/// Every field of the list is `field_ok`.
pub open spec fn fields_ok(fs: Seq<FieldDataV>) -> bool {
    forall|k: int| 0 <= k < fs.len() ==> field_ok(#[trigger] fs[k])
}

/// Every field of the list is unmarked.
pub open spec fn fields_unmarked(fs: Seq<FieldDataV>) -> bool {
    forall|k: int| 0 <= k < fs.len() ==> field_unmarked(#[trigger] fs[k])
}

proof fn lemma_directives_in_ok(raw: Seq<char>)
    ensures
        forall|k: int| 0 <= k < directives_in(raw).len() ==> no_empty(#[trigger] directives_in(raw)[k].values),
{
    let rest = remove_all(Pattern::DirectiveWithArguments, raw);
    let a = all_matches(Pattern::DirectiveWithArguments, raw).map_values(
        |m: (int, int)| directive_with_arguments(raw, m),
    );
    let b = all_matches(Pattern::DirectiveName, rest).map_values(
        |m: (int, int)| directive_without_arguments(rest, m),
    );
    assert(directives_in(raw) == a + b);
    assert forall|k: int| 0 <= k < directives_in(raw).len() implies no_empty(#[trigger] directives_in(raw)[k].values) by {
        if k < a.len() {
            assert(directives_in(raw)[k] == a[k]);
        } else {
            assert(directives_in(raw)[k] == b[k - a.len()]);
        }
    }
}

proof fn lemma_directives_of_ok(es: Seq<SyntaxElementV>, i: int)
    ensures
        directives_ok(directives_of(es, i)),
{
    if let Some(d) = first_child_node(es, i, KindQuery::Kind("DIRECTIVES")) {
        lemma_directives_in_ok(es[d].text);
    }
}

proof fn lemma_arguments_prefix_ok(es: Seq<SyntaxElementV>, ivds: Seq<int>, n: int, word_type: bool)
    ensures
        arguments_prefix(es, ivds, n, word_type) matches Some(v) ==> forall|k: int|
            0 <= k < v.len() ==> argument_ok(#[trigger] v[k]) && argument_unmarked(v[k]),
    decreases n,
{
    if n > 0 {
        lemma_arguments_prefix_ok(es, ivds, n - 1, word_type);
        lemma_directives_of_ok(es, ivds[n - 1]);
    }
}

proof fn lemma_arguments_of_ok(es: Seq<SyntaxElementV>, i: int, word_type: bool)
    ensures
        arguments_of(es, i, word_type) matches Some(v) ==> forall|k: int|
            0 <= k < v.len() ==> argument_ok(#[trigger] v[k]) && argument_unmarked(v[k]),
{
    if let Some(a) = first_child_node(es, i, KindQuery::Kind("ARGUMENTS_DEFINITION")) {
        let ivds = child_nodes(es, a, KindQuery::Kind("INPUT_VALUE_DEFINITION"));
        lemma_arguments_prefix_ok(es, ivds, ivds.len() as int, word_type);
    }
}

proof fn lemma_field_view_ok(es: Seq<SyntaxElementV>, def: FieldDefs)
    ensures
        field_view(es, def) matches Some(f) ==> field_ok(f) && field_unmarked(f),
{
    match def {
        FieldDefs::FieldDef(i) => {
            lemma_directives_of_ok(es, i as int);
            lemma_arguments_of_ok(es, i as int, true);
        },
        FieldDefs::InputValueDef(i) => {
            lemma_directives_of_ok(es, i as int);
        },
        FieldDefs::VariableDef(i) => {
            lemma_directives_of_ok(es, i as int);
        },
    }
}

proof fn lemma_fields_from_ok(es: Seq<SyntaxElementV>, ids: Seq<int>, n: int, kind: FieldKind)
    ensures
        fields_from(es, ids, n, kind) matches Some(v) ==> fields_ok(v) && fields_unmarked(v),
    decreases n,
{
    if n > 0 && n <= ids.len() {
        lemma_fields_from_ok(es, ids, n - 1, kind);
        lemma_field_view_ok(es, field_def_at(kind, ids[n - 1]));
    }
}

proof fn lemma_fields_under_ok(es: Seq<SyntaxElementV>, list: int, item: &'static str, kind: FieldKind)
    ensures
        fields_under(es, list, item, kind) matches Some(v) ==> fields_ok(v) && fields_unmarked(v),
{
    let ids = child_nodes(es, list, KindQuery::Kind(item));
    lemma_fields_from_ok(es, ids, ids.len() as int, kind);
}


/// An object or input object type has no empty list and well-read fields.
pub open spec fn object_ok(o: ObjectTypeV) -> bool {
    fields_ok(o.fields) && directives_ok(o.directives) && no_empty(o.implements)
}

/// An interface type has no empty list and well-read fields.
pub open spec fn interface_ok(o: InterfaceTypeV) -> bool {
    fields_ok(o.fields) && directives_ok(o.directives) && no_empty(o.implements)
}

/// An operation has no empty list and well-read fields.
pub open spec fn operation_ok(o: OperationTypeV) -> bool {
    fields_ok(o.fields) && directives_ok(o.directives)
}

/// An enum type has no empty list, nor has any of its values.
pub open spec fn enum_ok(e: EnumTypeV) -> bool {
    &&& directives_ok(e.directives)
    &&& forall|k: int| 0 <= k < e.values.len() ==> directives_ok(#[trigger] e.values[k].directives)
}

/// A union type has no empty list.
pub open spec fn union_ok(u: UnionTypeV) -> bool {
    directives_ok(u.directives) && no_empty(u.member_types)
}

/// The lists read so far: every element without an empty list and with well-read fields,
/// and no field marked yet.
pub open spec fn lists_ok(l: ListsV) -> bool {
    &&& forall|k: int| 0 <= k < l.operation_types.len() ==> operation_ok(#[trigger] l.operation_types[k]) && fields_unmarked(l.operation_types[k].fields)
    &&& forall|k: int| 0 <= k < l.object_types.len() ==> object_ok(#[trigger] l.object_types[k]) && fields_unmarked(l.object_types[k].fields)
    &&& forall|k: int| 0 <= k < l.input_object_types.len() ==> object_ok(#[trigger] l.input_object_types[k]) && fields_unmarked(l.input_object_types[k].fields)
    &&& forall|k: int| 0 <= k < l.interface_types.len() ==> interface_ok(#[trigger] l.interface_types[k]) && fields_unmarked(l.interface_types[k].fields)
    &&& forall|k: int| 0 <= k < l.scalar_types.len() ==> directives_ok(#[trigger] l.scalar_types[k].directives)
    &&& forall|k: int| 0 <= k < l.enum_types.len() ==> enum_ok(#[trigger] l.enum_types[k])
    &&& forall|k: int| 0 <= k < l.union_types.len() ==> union_ok(#[trigger] l.union_types[k])
    &&& forall|k: int| 0 <= k < l.directives.len() ==> arguments_ok(#[trigger] l.directives[k].arguments)
    &&& forall|k: int| 0 <= k < l.fragments.len() ==> directives_ok(#[trigger] l.fragments[k].directives)
    &&& forall|k: int| 0 <= k < l.schemas.len() ==> directives_ok(#[trigger] l.schemas[k].directives)
}

proof fn lemma_add_directives_ok(ds: Option<Seq<DirectiveDataV>>, added: Option<Seq<DirectiveDataV>>)
    requires
        directives_ok(ds),
        directives_ok(added),
    ensures
        directives_ok(add_directives(ds, added)),
{
    if let (Some(d), Some(a)) = (ds, added) {
        if a.len() != 0 {
            let r = d + a;
            assert forall|k: int| 0 <= k < r.len() implies no_empty(#[trigger] r[k].values) by {
                if k < d.len() {
                    assert(r[k] == d[k]);
                } else {
                    assert(r[k] == a[k - d.len()]);
                }
            }
        }
    }
}

proof fn lemma_fields_append(a: Seq<FieldDataV>, b: Seq<FieldDataV>)
    requires
        fields_ok(a) && fields_unmarked(a),
        fields_ok(b) && fields_unmarked(b),
    ensures
        fields_ok(a + b) && fields_unmarked(a + b),
{
    assert forall|k: int| 0 <= k < (a + b).len() implies field_ok(#[trigger] (a + b)[k]) && field_unmarked((a + b)[k]) by {
        if k < a.len() {
            assert((a + b)[k] == a[k]);
        } else {
            assert((a + b)[k] == b[k - a.len()]);
        }
    }
}

proof fn lemma_values_of_ok(es: Seq<SyntaxElementV>, i: int)
    ensures
        values_of(es, i) matches Some(v) ==> forall|k: int| 0 <= k < v.len() ==> directives_ok(#[trigger] v[k].directives),
{
}

proof fn lemma_values_append(a: Seq<EnumValueDataV>, b: Seq<EnumValueDataV>)
    requires
        forall|k: int| 0 <= k < a.len() ==> directives_ok(#[trigger] a[k].directives),
        forall|k: int| 0 <= k < b.len() ==> directives_ok(#[trigger] b[k].directives),
    ensures
        forall|k: int| 0 <= k < (a + b).len() ==> directives_ok(#[trigger] (a + b)[k].directives),
{
    assert forall|k: int| 0 <= k < (a + b).len() implies directives_ok(#[trigger] (a + b)[k].directives) by {
        if k < a.len() {
            assert((a + b)[k] == a[k]);
        } else {
            assert((a + b)[k] == b[k - a.len()]);
        }
    }
}


proof fn lemma_object_view_ok(es: Seq<SyntaxElementV>, i: int)
    ensures
        object_type_view(es, i) matches Some(o) ==> object_ok(o) && fields_unmarked(o.fields),
{
    lemma_directives_of_ok(es, i);
    if let Some(fd) = first_child_node(es, i, KindQuery::Kind("FIELDS_DEFINITION")) {
        lemma_fields_under_ok(es, fd, "FIELD_DEFINITION", FieldKind::Field);
    }
}

proof fn lemma_interface_view_ok(es: Seq<SyntaxElementV>, i: int)
    ensures
        interface_type_view(es, i) matches Some(o) ==> interface_ok(o) && fields_unmarked(o.fields),
{
    lemma_directives_of_ok(es, i);
    if let Some(fd) = first_child_node(es, i, KindQuery::Kind("FIELDS_DEFINITION")) {
        lemma_fields_under_ok(es, fd, "FIELD_DEFINITION", FieldKind::Field);
    }
}

proof fn lemma_input_view_ok(es: Seq<SyntaxElementV>, i: int)
    ensures
        input_object_type_view(es, i) matches Some(o) ==> object_ok(o) && fields_unmarked(o.fields),
{
    lemma_directives_of_ok(es, i);
    if let Some(fd) = first_child_node(es, i, KindQuery::Kind("INPUT_FIELDS_DEFINITION")) {
        lemma_fields_under_ok(es, fd, "INPUT_VALUE_DEFINITION", FieldKind::InputValue);
    }
}

proof fn lemma_operation_view_ok(es: Seq<SyntaxElementV>, i: int)
    ensures
        operation_view(es, i) matches Some(o) ==> operation_ok(o) && fields_unmarked(o.fields),
{
    lemma_directives_of_ok(es, i);
    if let Some(vd) = first_child_node(es, i, KindQuery::Kind("VARIABLE_DEFINITIONS")) {
        lemma_fields_under_ok(es, vd, "VARIABLE_DEFINITION", FieldKind::Variable);
    }
}

proof fn lemma_object_ext_ok(es: Seq<SyntaxElementV>, i: int, types: Seq<ObjectTypeV>)
    requires
        forall|k: int| 0 <= k < types.len() ==> object_ok(#[trigger] types[k]) && fields_unmarked(types[k].fields),
    ensures
        object_extension_view(es, i, types) matches Some(v) ==> forall|k: int|
            0 <= k < v.len() ==> object_ok(#[trigger] v[k]) && fields_unmarked(v[k].fields),
{
    lemma_directives_of_ok(es, i);
    if let Some(fd) = first_child_node(es, i, KindQuery::Kind("FIELDS_DEFINITION")) {
        lemma_fields_under_ok(es, fd, "FIELD_DEFINITION", FieldKind::Field);
    }
    if let (Some(n), Some(fs)) = (extension_name(es, i), ext_fields(es, i)) {
        assert forall|k: int| 0 <= k < types.len() implies object_ok(#[trigger] extend_object(es, i, n, fs, types[k])) && fields_unmarked(extend_object(es, i, n, fs, types[k]).fields) by {
            let t = types[k];
            if t.name == n {
                lemma_add_directives_ok(t.directives, directives_of(es, i));
                lemma_fields_append(t.fields, fs);
            }
        }
    }
}

proof fn lemma_interface_ext_ok(es: Seq<SyntaxElementV>, i: int, types: Seq<InterfaceTypeV>)
    requires
        forall|k: int| 0 <= k < types.len() ==> interface_ok(#[trigger] types[k]) && fields_unmarked(types[k].fields),
    ensures
        interface_extension_view(es, i, types) matches Some(v) ==> forall|k: int|
            0 <= k < v.len() ==> interface_ok(#[trigger] v[k]) && fields_unmarked(v[k].fields),
{
    lemma_directives_of_ok(es, i);
    if let Some(fd) = first_child_node(es, i, KindQuery::Kind("FIELDS_DEFINITION")) {
        lemma_fields_under_ok(es, fd, "FIELD_DEFINITION", FieldKind::Field);
    }
    if let (Some(n), Some(fs)) = (extension_name(es, i), ext_fields(es, i)) {
        assert forall|k: int| 0 <= k < types.len() implies interface_ok(#[trigger] extend_interface(es, i, n, fs, types[k])) && fields_unmarked(extend_interface(es, i, n, fs, types[k]).fields) by {
            let t = types[k];
            if t.name == n {
                lemma_add_directives_ok(t.directives, directives_of(es, i));
                lemma_fields_append(t.fields, fs);
            }
        }
    }
}

proof fn lemma_input_ext_ok(es: Seq<SyntaxElementV>, i: int, types: Seq<ObjectTypeV>)
    requires
        forall|k: int| 0 <= k < types.len() ==> object_ok(#[trigger] types[k]) && fields_unmarked(types[k].fields),
    ensures
        input_object_extension_view(es, i, types) matches Some(v) ==> forall|k: int|
            0 <= k < v.len() ==> object_ok(#[trigger] v[k]) && fields_unmarked(v[k].fields),
{
    lemma_directives_of_ok(es, i);
    if let Some(fd) = first_child_node(es, i, KindQuery::Kind("INPUT_FIELDS_DEFINITION")) {
        lemma_fields_under_ok(es, fd, "INPUT_VALUE_DEFINITION", FieldKind::InputValue);
    }
    if let (Some(n), Some(fs)) = (extension_name(es, i), input_ext_fields(es, i)) {
        assert forall|k: int| 0 <= k < types.len() implies object_ok(#[trigger] extend_input_object(es, i, n, fs, types[k])) && fields_unmarked(extend_input_object(es, i, n, fs, types[k]).fields) by {
            let t = types[k];
            if t.name == n {
                lemma_add_directives_ok(t.directives, directives_of(es, i));
                lemma_fields_append(t.fields, fs);
            }
        }
    }
}

proof fn lemma_scalar_ext_ok(es: Seq<SyntaxElementV>, i: int, types: Seq<ScalarTypeV>)
    requires
        forall|k: int| 0 <= k < types.len() ==> directives_ok(#[trigger] types[k].directives),
    ensures
        scalar_extension_view(es, i, types) matches Some(v) ==> forall|k: int|
            0 <= k < v.len() ==> directives_ok(#[trigger] v[k].directives),
{
    lemma_directives_of_ok(es, i);
    if let Some(n) = extension_name(es, i) {
        assert forall|k: int| 0 <= k < types.len() implies directives_ok(#[trigger] extend_scalar(es, i, n, types[k]).directives) by {
            lemma_add_directives_ok(types[k].directives, directives_of(es, i));
        }
    }
}

proof fn lemma_enum_ext_ok(es: Seq<SyntaxElementV>, i: int, types: Seq<EnumTypeV>)
    requires
        forall|k: int| 0 <= k < types.len() ==> enum_ok(#[trigger] types[k]),
    ensures
        enum_extension_view(es, i, types) matches Some(v) ==> forall|k: int| 0 <= k < v.len() ==> enum_ok(#[trigger] v[k]),
{
    lemma_directives_of_ok(es, i);
    lemma_values_of_ok(es, i);
    if let (Some(n), Some(vals)) = (extension_name(es, i), values_of(es, i)) {
        assert forall|k: int| 0 <= k < types.len() implies enum_ok(#[trigger] extend_enum(es, i, n, vals, types[k])) by {
            let t = types[k];
            if t.name == n {
                lemma_add_directives_ok(t.directives, directives_of(es, i));
                lemma_values_append(t.values, vals);
            }
        }
    }
}

proof fn lemma_union_ext_ok(es: Seq<SyntaxElementV>, i: int, types: Seq<UnionTypeV>)
    requires
        forall|k: int| 0 <= k < types.len() ==> union_ok(#[trigger] types[k]),
    ensures
        union_extension_view(es, i, types) matches Some(v) ==> forall|k: int| 0 <= k < v.len() ==> union_ok(#[trigger] v[k]),
{
    lemma_directives_of_ok(es, i);
    if let Some(n) = extension_name(es, i) {
        if union_extension_view(es, i, types) is Some {
            assert forall|k: int| 0 <= k < types.len() implies union_ok(#[trigger] extend_union(es, i, n, types[k])) by {
                let t = types[k];
                if t.name == n {
                    lemma_add_directives_ok(t.directives, directives_of(es, i));
                }
            }
        }
    }
}


proof fn lemma_step_keeps_lists_ok(l: ListsV, es: Seq<SyntaxElementV>, d: int)
    requires
        lists_ok(l),
    ensures
        definition_step(l, es, d) matches Some(l2) ==> lists_ok(l2),
{
    reveal(definition_step);
    let k = es[d].kind;
    lemma_directives_of_ok(es, d);
    if k == "OPERATION_DEFINITION"@ {
        lemma_operation_view_ok(es, d);
        if let Some(o) = operation_view(es, d) {
            let v = l.operation_types.push(o);
            assert forall|j: int| 0 <= j < v.len() implies operation_ok(#[trigger] v[j]) && fields_unmarked(v[j].fields) by {
                if j < l.operation_types.len() {
                    assert(v[j] == l.operation_types[j]);
                }
            }
        }
    } else if k == "OBJECT_TYPE_DEFINITION"@ {
        lemma_object_view_ok(es, d);
        if let Some(o) = object_type_view(es, d) {
            let v = l.object_types.push(o);
            assert forall|j: int| 0 <= j < v.len() implies object_ok(#[trigger] v[j]) && fields_unmarked(v[j].fields) by {
                if j < l.object_types.len() {
                    assert(v[j] == l.object_types[j]);
                }
            }
        }
    } else if k == "SCALAR_TYPE_DEFINITION"@ {
        if let Some(o) = scalar_type_view(es, d) {
            let v = l.scalar_types.push(o);
            assert forall|j: int| 0 <= j < v.len() implies directives_ok(#[trigger] v[j].directives) by {
                if j < l.scalar_types.len() {
                    assert(v[j] == l.scalar_types[j]);
                }
            }
        }
    } else if k == "ENUM_TYPE_DEFINITION"@ {
        lemma_values_of_ok(es, d);
        if let Some(o) = enum_type_view(es, d) {
            let v = l.enum_types.push(o);
            assert forall|j: int| 0 <= j < v.len() implies enum_ok(#[trigger] v[j]) by {
                if j < l.enum_types.len() {
                    assert(v[j] == l.enum_types[j]);
                }
            }
        }
    } else if k == "INTERFACE_TYPE_DEFINITION"@ {
        lemma_interface_view_ok(es, d);
        if let Some(o) = interface_type_view(es, d) {
            let v = l.interface_types.push(o);
            assert forall|j: int| 0 <= j < v.len() implies interface_ok(#[trigger] v[j]) && fields_unmarked(v[j].fields) by {
                if j < l.interface_types.len() {
                    assert(v[j] == l.interface_types[j]);
                }
            }
        }
    } else if k == "INPUT_OBJECT_TYPE_DEFINITION"@ {
        lemma_input_view_ok(es, d);
        if let Some(o) = input_object_type_view(es, d) {
            let v = l.input_object_types.push(o);
            assert forall|j: int| 0 <= j < v.len() implies object_ok(#[trigger] v[j]) && fields_unmarked(v[j].fields) by {
                if j < l.input_object_types.len() {
                    assert(v[j] == l.input_object_types[j]);
                }
            }
        }
    } else if k == "UNION_TYPE_DEFINITION"@ {
        if let Some(o) = union_type_view(es, d) {
            let v = l.union_types.push(o);
            assert forall|j: int| 0 <= j < v.len() implies union_ok(#[trigger] v[j]) by {
                if j < l.union_types.len() {
                    assert(v[j] == l.union_types[j]);
                }
            }
        }
    } else if k == "DIRECTIVE_DEFINITION"@ {
        lemma_arguments_of_ok(es, d, false);
        if let Some(o) = directive_view(es, d) {
            let v = l.directives.push(o);
            assert forall|j: int| 0 <= j < v.len() implies arguments_ok(#[trigger] v[j].arguments) by {
                if j < l.directives.len() {
                    assert(v[j] == l.directives[j]);
                }
            }
        }
    } else if k == "FRAGMENT_DEFINITION"@ {
        if let Some(o) = fragment_view(es, d) {
            let v = l.fragments.push(o);
            assert forall|j: int| 0 <= j < v.len() implies directives_ok(#[trigger] v[j].directives) by {
                if j < l.fragments.len() {
                    assert(v[j] == l.fragments[j]);
                }
            }
        }
    } else if k == "SCHEMA_DEFINITION"@ {
        if let Some(o) = schema_def_view(es, d) {
            let v = l.schemas.push(o);
            assert forall|j: int| 0 <= j < v.len() implies directives_ok(#[trigger] v[j].directives) by {
                if j < l.schemas.len() {
                    assert(v[j] == l.schemas[j]);
                }
            }
        }
    } else if k == "OBJECT_TYPE_EXTENSION"@ {
        lemma_object_ext_ok(es, d, l.object_types);
    } else if k == "SCALAR_TYPE_EXTENSION"@ {
        lemma_scalar_ext_ok(es, d, l.scalar_types);
    } else if k == "ENUM_TYPE_EXTENSION"@ {
        lemma_enum_ext_ok(es, d, l.enum_types);
    } else if k == "INTERFACE_TYPE_EXTENSION"@ {
        lemma_interface_ext_ok(es, d, l.interface_types);
    } else if k == "INPUT_OBJECT_TYPE_EXTENSION"@ {
        lemma_input_ext_ok(es, d, l.input_object_types);
    } else if k == "UNION_TYPE_EXTENSION"@ {
        lemma_union_ext_ok(es, d, l.union_types);
    }
}

proof fn lemma_definitions_keep_lists_ok(es: Seq<SyntaxElementV>, ids: Seq<int>, n: int)
    ensures
        definitions_from(es, ids, n) matches Some(l) ==> lists_ok(l),
    decreases n,
{
    if n > 0 && n <= ids.len() {
        lemma_definitions_keep_lists_ok(es, ids, n - 1);
        if let Some(l) = definitions_from(es, ids, n - 1) {
            lemma_step_keeps_lists_ok(l, es, ids[n - 1]);
        }
    } else {
        assert(lists_ok(empty_lists()));
    }
}


/// The kind flags of an argument are exactly what its type's name is among `n`: an enum,
/// else a scalar, else a union.
pub open spec fn argument_flags_exact(a: FieldArgumentDataV, n: NameLists) -> bool {
    let t = a.argument_type;
    &&& a.is_enum == n.enums.contains(t)
    &&& a.is_scalar == (!n.enums.contains(t) && n.scalars.contains(t))
    &&& a.is_union == (!n.enums.contains(t) && !n.scalars.contains(t) && n.unions.contains(t))
}

/// The kind flags of a field, and of each of its arguments, are exactly what their types'
/// names are among `n`.
pub open spec fn field_flags_exact(f: FieldDataV, n: NameLists) -> bool {
    let t = f.field_type;
    &&& f.is_enum == n.enums.contains(t)
    &&& f.is_scalar == (!n.enums.contains(t) && n.scalars.contains(t))
    &&& f.is_union == (!n.enums.contains(t) && !n.scalars.contains(t) && n.unions.contains(t))
    &&& f.arguments matches Some(v) ==> forall|k: int| 0 <= k < v.len() ==> argument_flags_exact(#[trigger] v[k], n)
}

/// Every field of the list is well read and has exact flags.
pub open spec fn fields_final(fs: Seq<FieldDataV>, n: NameLists) -> bool {
    forall|k: int| 0 <= k < fs.len() ==> field_ok(#[trigger] fs[k]) && field_flags_exact(fs[k], n)
}

proof fn lemma_mark_fields_final(fs: Seq<FieldDataV>, n: NameLists)
    requires
        fields_ok(fs),
        fields_unmarked(fs),
    ensures
        fields_final(mark_fields(fs, n), n),
{
    assert forall|k: int| 0 <= k < mark_fields(fs, n).len() implies field_ok(#[trigger] mark_fields(fs, n)[k]) && field_flags_exact(mark_fields(fs, n)[k], n) by {
        let f = fs[k];
        assert(mark_fields(fs, n)[k] == mark_field(f, n));
        assert(field_ok(f) && field_unmarked(f));
        if let Some(args) = f.arguments {
            let m = args.map_values(|a: FieldArgumentDataV| mark_argument(a, n));
            assert forall|j: int| 0 <= j < m.len() implies argument_ok(#[trigger] m[j]) && argument_flags_exact(m[j], n) by {
                assert(m[j] == mark_argument(args[j], n));
                assert(argument_ok(args[j]) && argument_unmarked(args[j]));
            }
        }
    }
}

/// The lists read and their fields marked: every field well read with exact flags.
pub open spec fn data_final(d: SchemaDataV) -> bool {
    let n = name_lists(d);
    &&& d.operation_types matches Some(v) ==> forall|k: int| 0 <= k < v.len() ==> operation_ok(#[trigger] v[k]) && fields_final(v[k].fields, n)
    &&& d.object_types matches Some(v) ==> forall|k: int| 0 <= k < v.len() ==> object_ok(#[trigger] v[k]) && fields_final(v[k].fields, n)
    &&& d.input_object_types matches Some(v) ==> forall|k: int| 0 <= k < v.len() ==> object_ok(#[trigger] v[k]) && fields_final(v[k].fields, n)
    &&& d.interface_types matches Some(v) ==> forall|k: int| 0 <= k < v.len() ==> interface_ok(#[trigger] v[k]) && fields_final(v[k].fields, n)
    &&& d.scalar_types matches Some(v) ==> forall|k: int| 0 <= k < v.len() ==> directives_ok(#[trigger] v[k].directives)
    &&& d.enum_types matches Some(v) ==> forall|k: int| 0 <= k < v.len() ==> enum_ok(#[trigger] v[k])
    &&& d.union_types matches Some(v) ==> forall|k: int| 0 <= k < v.len() ==> union_ok(#[trigger] v[k])
    &&& d.directives matches Some(v) ==> forall|k: int| 0 <= k < v.len() ==> arguments_ok(#[trigger] v[k].arguments)
    &&& d.fragments matches Some(v) ==> forall|k: int| 0 <= k < v.len() ==> directives_ok(#[trigger] v[k].directives)
    &&& d.schemas matches Some(v) ==> forall|k: int| 0 <= k < v.len() ==> directives_ok(#[trigger] v[k].directives)
    &&& no_empty(d.operation_types) && no_empty(d.object_types) && no_empty(d.input_object_types)
    &&& no_empty(d.scalar_types) && no_empty(d.enum_types) && no_empty(d.interface_types)
    &&& no_empty(d.union_types) && no_empty(d.directives) && no_empty(d.fragments) && no_empty(d.schemas)
}

proof fn lemma_processed_final(l: ListsV)
    requires
        lists_ok(l),
    ensures
        data_final(processed(lists_data(l))),
{
    let d0 = lists_data(l);
    let d = processed(d0);
    let n = name_lists(d0);
    assert(name_lists(d) == n);
    assert forall|k: int| 0 <= k < l.operation_types.len() implies #[trigger] fields_final(mark_operation(l.operation_types[k], n).fields, n) by {
        lemma_mark_fields_final(l.operation_types[k].fields, n);
    }
    assert forall|k: int| 0 <= k < l.object_types.len() implies #[trigger] fields_final(mark_object(l.object_types[k], n).fields, n) by {
        lemma_mark_fields_final(l.object_types[k].fields, n);
    }
    assert forall|k: int| 0 <= k < l.input_object_types.len() implies #[trigger] fields_final(mark_object(l.input_object_types[k], n).fields, n) by {
        lemma_mark_fields_final(l.input_object_types[k].fields, n);
    }
    assert forall|k: int| 0 <= k < l.interface_types.len() implies #[trigger] fields_final(mark_interface(l.interface_types[k], n).fields, n) by {
        lemma_mark_fields_final(l.interface_types[k].fields, n);
    }
}

/// Reading a schema and marking its fields: the result is `data_final`.
proof fn lemma_schema_final(raw: Seq<char>)
    ensures
        schema_view(raw) matches Some(d) ==> data_final(d),
{
    let t = prepared_text(raw);
    let es = graphql_syntax(t).elements;
    let ids = document_definitions(es);
    lemma_definitions_keep_lists_ok(es, ids, ids.len() as int);
    if let Some(l) = definitions_from(es, ids, ids.len() as int) {
        lemma_processed_final(l);
    }
}


/// The lists inside a field are `None` or hold something: its directives (and each one's
/// arguments), its arguments, and each argument's directives.
pub open spec fn field_lists_nonempty(f: FieldDataV) -> bool {
    &&& directives_ok(f.directives)
    &&& no_empty(f.arguments)
    &&& f.arguments matches Some(v) ==> forall|k: int| 0 <= k < v.len() ==> directives_ok(#[trigger] v[k].directives)
}

/// Every field of the list has no empty list.
pub open spec fn fields_nonempty(fs: Seq<FieldDataV>) -> bool {
    forall|k: int| 0 <= k < fs.len() ==> field_lists_nonempty(#[trigger] fs[k])
}

/// No optional list anywhere in the schema data is `Some` and empty (selection sets, which
/// are not optional lists, aside).
pub open spec fn no_empty_anywhere(d: SchemaDataV) -> bool {
    &&& no_empty(d.operation_types) && no_empty(d.object_types) && no_empty(d.input_object_types)
    &&& no_empty(d.scalar_types) && no_empty(d.enum_types) && no_empty(d.interface_types)
    &&& no_empty(d.union_types) && no_empty(d.directives) && no_empty(d.fragments) && no_empty(d.schemas)
    &&& d.operation_types matches Some(v) ==> forall|k: int| 0 <= k < v.len() ==> fields_nonempty(#[trigger] v[k].fields) && directives_ok(v[k].directives)
    &&& d.object_types matches Some(v) ==> forall|k: int| 0 <= k < v.len() ==> fields_nonempty(#[trigger] v[k].fields) && directives_ok(v[k].directives) && no_empty(v[k].implements)
    &&& d.input_object_types matches Some(v) ==> forall|k: int| 0 <= k < v.len() ==> fields_nonempty(#[trigger] v[k].fields) && directives_ok(v[k].directives) && no_empty(v[k].implements)
    &&& d.interface_types matches Some(v) ==> forall|k: int| 0 <= k < v.len() ==> fields_nonempty(#[trigger] v[k].fields) && directives_ok(v[k].directives) && no_empty(v[k].implements)
    &&& d.scalar_types matches Some(v) ==> forall|k: int| 0 <= k < v.len() ==> directives_ok(#[trigger] v[k].directives)
    &&& d.enum_types matches Some(v) ==> forall|k: int| 0 <= k < v.len() ==> enum_ok(#[trigger] v[k])
    &&& d.union_types matches Some(v) ==> forall|k: int| 0 <= k < v.len() ==> union_ok(#[trigger] v[k])
    &&& d.directives matches Some(v) ==> forall|k: int| 0 <= k < v.len() ==> arguments_nonempty(#[trigger] v[k].arguments)
    &&& d.fragments matches Some(v) ==> forall|k: int| 0 <= k < v.len() ==> directives_ok(#[trigger] v[k].directives)
    &&& d.schemas matches Some(v) ==> forall|k: int| 0 <= k < v.len() ==> directives_ok(#[trigger] v[k].directives)
}

/// An optional argument list is `None` or holds something, and so does each argument's
/// list of directives.
pub open spec fn arguments_nonempty(args: Option<Seq<FieldArgumentDataV>>) -> bool {
    &&& no_empty(args)
    &&& args matches Some(v) ==> forall|k: int| 0 <= k < v.len() ==> directives_ok(#[trigger] v[k].directives)
}

/// Every field of the list has exact flags against `n`.
pub open spec fn fields_flags_exact(fs: Seq<FieldDataV>, n: NameLists) -> bool {
    forall|k: int| 0 <= k < fs.len() ==> field_flags_exact(#[trigger] fs[k], n)
}

/// The written type of a field gives its type (the written type without `[`, `]`, `!`),
/// whether it is a list and whether it may be null; the written type of each of its
/// arguments gives whether that is a list and whether it may be null.
pub open spec fn field_type_determined(f: FieldDataV) -> bool {
    &&& f.field_type == bare_type(f.field_complete_type)
    &&& f.is_array == type_is_array(f.field_complete_type)
    &&& f.is_nullable == type_is_nullable(f.field_complete_type)
    &&& f.arguments matches Some(v) ==> forall|k: int| 0 <= k < v.len() ==> (#[trigger] v[k]).is_array == type_is_array(v[k].argument_complete_type)
        && v[k].is_nullable == type_is_nullable(v[k].argument_complete_type)
}

/// Every field of the list has its type determined by its written type.
pub open spec fn fields_type_determined(fs: Seq<FieldDataV>) -> bool {
    forall|k: int| 0 <= k < fs.len() ==> field_type_determined(#[trigger] fs[k])
}

/// No optional list in the data read from a schema is empty, at any depth: a list with
/// nothing in it is `None` (nested selection lists aside).
pub proof fn law_no_empty_list_in_result(raw: Seq<char>)
    ensures
        schema_view(raw) matches Some(d) ==> no_empty_anywhere(d),
{
    lemma_schema_final(raw);
    if let Some(d) = schema_view(raw) {
        let n = name_lists(d);
        if let Some(v) = d.operation_types {
            assert forall|k: int| 0 <= k < v.len() implies fields_nonempty(#[trigger] v[k].fields) by {
                assert forall|j: int| 0 <= j < v[k].fields.len() implies field_lists_nonempty(#[trigger] v[k].fields[j]) by {
                    assert(field_ok(v[k].fields[j]));
                }
            }
        }
        if let Some(v) = d.object_types {
            assert forall|k: int| 0 <= k < v.len() implies fields_nonempty(#[trigger] v[k].fields) by {
                assert forall|j: int| 0 <= j < v[k].fields.len() implies field_lists_nonempty(#[trigger] v[k].fields[j]) by {
                    assert(field_ok(v[k].fields[j]));
                }
            }
        }
        if let Some(v) = d.input_object_types {
            assert forall|k: int| 0 <= k < v.len() implies fields_nonempty(#[trigger] v[k].fields) by {
                assert forall|j: int| 0 <= j < v[k].fields.len() implies field_lists_nonempty(#[trigger] v[k].fields[j]) by {
                    assert(field_ok(v[k].fields[j]));
                }
            }
        }
        if let Some(v) = d.interface_types {
            assert forall|k: int| 0 <= k < v.len() implies fields_nonempty(#[trigger] v[k].fields) by {
                assert forall|j: int| 0 <= j < v[k].fields.len() implies field_lists_nonempty(#[trigger] v[k].fields[j]) by {
                    assert(field_ok(v[k].fields[j]));
                }
            }
        }
        if let Some(v) = d.directives {
            assert forall|k: int| 0 <= k < v.len() implies arguments_nonempty(#[trigger] v[k].arguments) by {
                assert(arguments_ok(v[k].arguments));
            }
        }
    }
}

/// After reading, the kind flags of every field and argument of the operations, objects,
/// input objects and interfaces are exactly what the names of the schema's own enums,
/// scalars and unions say of their types: an enum first, then a scalar, then a union.
pub proof fn law_flags_are_exact(raw: Seq<char>)
    ensures
        schema_view(raw) matches Some(d) ==> {
            let n = name_lists(d);
            &&& d.operation_types matches Some(v) ==> forall|k: int| 0 <= k < v.len() ==> fields_flags_exact(#[trigger] v[k].fields, n)
            &&& d.object_types matches Some(v) ==> forall|k: int| 0 <= k < v.len() ==> fields_flags_exact(#[trigger] v[k].fields, n)
            &&& d.input_object_types matches Some(v) ==> forall|k: int| 0 <= k < v.len() ==> fields_flags_exact(#[trigger] v[k].fields, n)
            &&& d.interface_types matches Some(v) ==> forall|k: int| 0 <= k < v.len() ==> fields_flags_exact(#[trigger] v[k].fields, n)
        },
{
    lemma_schema_final(raw);
}

/// For every field read from a schema, the written type gives the field's type, whether it
/// is a list and whether it may be null; for each argument of such a field it gives
/// whether the argument is a list and whether it may be null.
pub proof fn law_written_type_determines_field(raw: Seq<char>)
    ensures
        schema_view(raw) matches Some(d) ==> {
            &&& d.operation_types matches Some(v) ==> forall|k: int| 0 <= k < v.len() ==> fields_type_determined(#[trigger] v[k].fields)
            &&& d.object_types matches Some(v) ==> forall|k: int| 0 <= k < v.len() ==> fields_type_determined(#[trigger] v[k].fields)
            &&& d.input_object_types matches Some(v) ==> forall|k: int| 0 <= k < v.len() ==> fields_type_determined(#[trigger] v[k].fields)
            &&& d.interface_types matches Some(v) ==> forall|k: int| 0 <= k < v.len() ==> fields_type_determined(#[trigger] v[k].fields)
        },
{
    lemma_schema_final(raw);
    if let Some(d) = schema_view(raw) {
        if let Some(v) = d.operation_types {
            assert forall|k: int| 0 <= k < v.len() implies fields_type_determined(#[trigger] v[k].fields) by {
                assert forall|j: int| 0 <= j < v[k].fields.len() implies field_type_determined(#[trigger] v[k].fields[j]) by {
                    assert(field_ok(v[k].fields[j]));
                }
            }
        }
        if let Some(v) = d.object_types {
            assert forall|k: int| 0 <= k < v.len() implies fields_type_determined(#[trigger] v[k].fields) by {
                assert forall|j: int| 0 <= j < v[k].fields.len() implies field_type_determined(#[trigger] v[k].fields[j]) by {
                    assert(field_ok(v[k].fields[j]));
                }
            }
        }
        if let Some(v) = d.input_object_types {
            assert forall|k: int| 0 <= k < v.len() implies fields_type_determined(#[trigger] v[k].fields) by {
                assert forall|j: int| 0 <= j < v[k].fields.len() implies field_type_determined(#[trigger] v[k].fields[j]) by {
                    assert(field_ok(v[k].fields[j]));
                }
            }
        }
        if let Some(v) = d.interface_types {
            assert forall|k: int| 0 <= k < v.len() implies fields_type_determined(#[trigger] v[k].fields) by {
                assert forall|j: int| 0 <= j < v[k].fields.len() implies field_type_determined(#[trigger] v[k].fields[j]) by {
                    assert(field_ok(v[k].fields[j]));
                }
            }
        }
    }
}


/// The leftmost match from `i` is at `a` when no match starts between `i` and `a`.
proof fn lemma_first_match_is(p: Pattern, s: Seq<char>, i: int, a: int, e: int)
    requires
        0 <= i <= a < s.len(),
        forall|q: int| i <= q < a ==> (#[trigger] match_at(p, s, q)) is None,
        match_at(p, s, a) == Some(e),
    ensures
        first_match_from(p, s, i) == Some((a, e)),
    decreases a - i,
{
    if i < a {
        lemma_first_match_is(p, s, i + 1, a, e);
    }
}

/// No match from `i` on when none starts anywhere from `i`.
proof fn lemma_no_match_from(p: Pattern, s: Seq<char>, i: int)
    requires
        0 <= i,
        forall|q: int| i <= q < s.len() ==> (#[trigger] match_at(p, s, q)) is None,
    ensures
        first_match_from(p, s, i) is None,
    decreases s.len() - i,
{
    if i < s.len() {
        lemma_no_match_from(p, s, i + 1);
    }
}

/// Text without `#` holds no comment, so removing comments leaves it as it is.
proof fn lemma_no_comment(s: Seq<char>)
    requires
        forall|k: int| 0 <= k < s.len() ==> s[k] != '#',
    ensures
        remove_all(Pattern::Comment, s) == s,
{
    assert forall|q: int| 0 <= q < s.len() implies (#[trigger] match_at(Pattern::Comment, s, q)) is None by {
        if at_line_start(s, q) && is_ws(s[q]) {
            lemma_run_end(s, q, CharClass::Ws);
        }
    }
    lemma_no_match_from(Pattern::Comment, s, 0);
    assert(s.subrange(0, s.len() as int) =~= s);
}

proof fn lemma_trailing_comment_removed(s: Seq<char>, c: Seq<char>)
    requires
        forall|k: int| 0 <= k < s.len() ==> s[k] != '#',
        s.len() > 0 ==> !is_ws(s[s.len() - 1]),
        forall|k: int| 0 <= k < c.len() ==> c[k] != '\n',
    ensures
        remove_all(Pattern::Comment, s + seq![' ', '#', ' '] + c) == s,
{
    let t = s + seq![' ', '#', ' '] + c;
    let n = s.len() as int;
    assert(t[n] == ' ' && t[n + 1] == '#');
    assert forall|k: int| 0 <= k < n implies t[k] == s[k] by {}
    assert forall|q: int| 0 <= q < n implies comment_at(t, q) is None by {
        assert(t[q + 1] != '#');
        if at_line_start(t, q) && is_ws(t[q]) {
            lemma_run_end(t, q, CharClass::Ws);
            let r = run_end(t, q, CharClass::Ws);
            if r >= n {
                assert(is_ws(t[n - 1]));
                assert(t[n - 1] == s[n - 1]);
            }
        }
    }
    assert forall|q: int| 0 <= q < n implies (#[trigger] match_at(Pattern::Comment, t, q)) is None by {
        assert(comment_at(t, q) is None);
    }
    lemma_run_end(t, n + 2, CharClass::NotNewline);
    assert forall|k: int| n + 2 <= k < t.len() implies in_class(CharClass::NotNewline, #[trigger] t[k]) by {
        if k > n + 2 {
            assert(t[k] == c[k - n - 3]);
        }
    }
    assert(line_end(t, n + 2) == t.len());
    assert(comment_at(t, n) == Some(t.len() as int));
    lemma_first_match_is(Pattern::Comment, t, 0, n, t.len() as int);
    assert(first_match_from(Pattern::Comment, t, t.len() as int) is None);
    assert(t.subrange(0, n) =~= s);
    assert(replace_all_from(Pattern::Comment, t, t.len() as int, Seq::empty()) =~= Seq::<char>::empty());
    assert(remove_all(Pattern::Comment, t) =~= s);
}

/// A comment written at the end of the text, after a space, is ignored: the text is read
/// as it is without the comment. (The text before it holds no `#` and does not end with
/// whitespace; the comment holds no line break.)
pub proof fn law_trailing_comment_is_ignored(s: Seq<char>, c: Seq<char>)
    requires
        forall|k: int| 0 <= k < s.len() ==> s[k] != '#',
        s.len() > 0 ==> !is_ws(s[s.len() - 1]),
        forall|k: int| 0 <= k < c.len() ==> c[k] != '\n',
    ensures
        schema_view(s + seq![' ', '#', ' '] + c) == schema_view(s),
{
    lemma_trailing_comment_removed(s, c);
    lemma_no_comment(s);
    assert(prepared_text(s + seq![' ', '#', ' '] + c) == prepared_text(s));
}


/// The text with each `\n` written as `\r\n`.
pub open spec fn with_crlf(s: Seq<char>) -> Seq<char>
    decreases s.len(),
{
    if s.len() == 0 {
        Seq::empty()
    } else {
        (if s[0] == '\n' { seq!['\r', '\n'] } else { seq![s[0]] }) + with_crlf(s.drop_first())
    }
}

proof fn lemma_with_crlf_chars(s: Seq<char>)
    requires
        forall|k: int| 0 <= k < s.len() ==> s[k] != '#',
    ensures
        forall|k: int| 0 <= k < with_crlf(s).len() ==> with_crlf(s)[k] != '#',
    decreases s.len(),
{
    if s.len() > 0 {
        let t = s.drop_first();
        lemma_with_crlf_chars(t);
        let h: Seq<char> = if s[0] == '\n' { seq!['\r', '\n'] } else { seq![s[0]] };
        assert forall|k: int| 0 <= k < with_crlf(s).len() implies with_crlf(s)[k] != '#' by {
            if k >= h.len() {
                assert(with_crlf(s)[k] == with_crlf(t)[k - h.len()]);
            }
        }
    }
}

proof fn lemma_crlf_end_shift(h: Seq<char>, w: Seq<char>, j: int)
    requires
        0 <= j,
    ensures
        crlf_end(h + w, h.len() + j) == h.len() + crlf_end(w, j),
    decreases w.len() - j,
{
    let x = h + w;
    let i = h.len() + j;
    if j + 1 < w.len() && w[j] == '\r' && w[j + 1] == '\n' {
        assert(x[i] == w[j] && x[i + 1] == w[j + 1]);
        lemma_crlf_end_shift(h, w, j + 2);
    } else if i + 1 < x.len() {
        assert(x[i] == w[j] && x[i + 1] == w[j + 1]);
    }
}

proof fn lemma_first_crlf_shift(h: Seq<char>, w: Seq<char>, j: int)
    requires
        0 <= j,
    ensures
        first_match_from(Pattern::CarriageReturnNewLine, h + w, h.len() + j) == (match first_match_from(
            Pattern::CarriageReturnNewLine,
            w,
            j,
        ) {
            Some((a, e)) => Some((h.len() + a, h.len() + e)),
            None => None,
        }),
    decreases w.len() - j,
{
    let x = h + w;
    let i = h.len() + j;
    if j < w.len() {
        assert(x[i] == w[j]);
        if i + 1 < x.len() {
            assert(x[i + 1] == w[j + 1]);
        }
        lemma_crlf_end_shift(h, w, j);
        lemma_first_crlf_shift(h, w, j + 1);
    }
}

proof fn lemma_replace_crlf_shift(h: Seq<char>, w: Seq<char>, j: int, rep: Seq<char>)
    requires
        0 <= j <= w.len(),
    ensures
        replace_all_from(Pattern::CarriageReturnNewLine, h + w, h.len() + j, rep) == replace_all_from(
            Pattern::CarriageReturnNewLine,
            w,
            j,
            rep,
        ),
    decreases w.len() - j,
{
    let x = h + w;
    lemma_first_crlf_shift(h, w, j);
    match first_match_from(Pattern::CarriageReturnNewLine, w, j) {
        Some((a, e)) => {
            if j <= a < e <= w.len() {
                lemma_replace_crlf_shift(h, w, e, rep);
                assert(x.subrange(h.len() + j, h.len() + a) =~= w.subrange(j, a));
            }
        },
        None => {
            assert(x.subrange(h.len() + j, x.len() as int) =~= w.subrange(j, w.len() as int));
        },
    }
}

/// Writing each line break of a text without `\r` and without empty lines as `\r\n`, then
/// making each `\r\n` a `\n`, gives the text back.
proof fn lemma_crlf_round_trip(s: Seq<char>)
    requires
        forall|k: int| 0 <= k < s.len() ==> s[k] != '\r',
        forall|k: int| 0 <= k < s.len() - 1 ==> !(#[trigger] s[k] == '\n' && s[k + 1] == '\n'),
    ensures
        replace_all(Pattern::CarriageReturnNewLine, with_crlf(s), seq!['\n']) == s,
    decreases s.len(),
{
    let u = with_crlf(s);
    if s.len() == 0 {
        assert(u.subrange(0, 0) =~= Seq::<char>::empty());
    } else {
        let t = s.drop_first();
        lemma_crlf_round_trip(t);
        let w = with_crlf(t);
        if s[0] == '\n' {
            let h = seq!['\r', '\n'];
            assert(u == h + w);
            if t.len() > 0 {
                assert(t[0] != '\n' && t[0] != '\r');
                assert(w[0] == t[0]);
            }
            lemma_crlf_end_shift(h, w, 0);
            assert(crlf_end(u, 2) == 2);
            assert(match_at(Pattern::CarriageReturnNewLine, u, 0) == Some(2int));
            lemma_replace_crlf_shift(h, w, 0, seq!['\n']);
            assert(u.subrange(0, 0) =~= Seq::<char>::empty());
            assert(seq!['\n'] + t =~= s);
        } else {
            let h = seq![s[0]];
            assert(u == h + w);
            assert(match_at(Pattern::CarriageReturnNewLine, u, 0) is None);
            lemma_first_crlf_shift(h, w, 0);
            lemma_replace_crlf_shift(h, w, 0, seq!['\n']);
            match first_match_from(Pattern::CarriageReturnNewLine, w, 0) {
                Some((a, e)) => {
                    assert(u.subrange(0, 1 + a) =~= h + w.subrange(0, a));
                },
                None => {
                    assert(u.subrange(0, u.len() as int) =~= h + w.subrange(0, w.len() as int));
                },
            }
            assert(h + t =~= s);
        }
    }
}

/// A text without `\r` holds no `\r\n`, so making each `\r\n` a `\n` leaves it as it is.
proof fn lemma_no_crlf(s: Seq<char>)
    requires
        forall|k: int| 0 <= k < s.len() ==> s[k] != '\r',
    ensures
        replace_all(Pattern::CarriageReturnNewLine, s, seq!['\n']) == s,
{
    assert forall|q: int| 0 <= q < s.len() implies (#[trigger] match_at(Pattern::CarriageReturnNewLine, s, q)) is None by {}
    lemma_no_match_from(Pattern::CarriageReturnNewLine, s, 0);
    assert(s.subrange(0, s.len() as int) =~= s);
}

/// `\r\n` line breaks are read as `\n`: a text written with `\r\n` in place of each `\n`
/// reads as the text itself. (The text holds no `\r`, no empty line and no `#`.)
pub proof fn law_crlf_reads_as_lf(s: Seq<char>)
    requires
        forall|k: int| 0 <= k < s.len() ==> s[k] != '\r' && s[k] != '#',
        forall|k: int| 0 <= k < s.len() - 1 ==> !(#[trigger] s[k] == '\n' && s[k + 1] == '\n'),
    ensures
        schema_view(with_crlf(s)) == schema_view(s),
{
    lemma_with_crlf_chars(s);
    lemma_no_comment(with_crlf(s));
    lemma_no_comment(s);
    lemma_crlf_round_trip(s);
    lemma_no_crlf(s);
    assert(prepared_text(with_crlf(s)) == prepared_text(s));
}

} // verus!
