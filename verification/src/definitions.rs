//! The definitions of a schema, read from its syntax tree: types, their extensions,
//! directives, fragments, operations and schema definitions.
use vstd::prelude::*;
use crate::syntax::{
    SyntaxElementData,
    SyntaxElementV,
    KindQuery,
    elements_view,
    child_nodes,
    first_child_node,
    first_child_token,
    first_child_node_exec,
    first_child_token_exec,
    children_exec,
    indices_match,
};
use crate::fields::{
    without_ws,
    without_ws_exec,
    description_of,
    directives_of,
    child_text,
    name_token_of,
    read_description,
    read_directives,
    read_child_text,
    read_name_token,
    nonempty,
    FieldDefs,
    field_view,
    read_field,
    arguments_of,
    read_arguments,
};
use crate::selection::{selection_set_view, selections_view, parse_selection_set};
use crate::types::{Directive, DirectiveV, Fragment, FragmentV, Selection, SelectionV, OperationType, OperationTypeV, Schema, SchemaV, SchemaOperationType, SchemaOperationTypeV, InterfaceType, InterfaceTypeV, ObjectType, ObjectTypeV, FieldData, FieldDataV, UnionType, UnionTypeV, Config, DirectiveData, DirectiveDataV, ScalarType, ScalarTypeV, EnumType, EnumTypeV, EnumValueData, EnumValueDataV};
use crate::enum_values::{enum_values_view, parse_enum_values};
use crate::text::{strings_equal, chars_of, string_of};
use crate::patterns::{Pattern, all_matches, find_all_matches, slice_chars, first_match_text, find_first_match_text, remove_all, remove_all_matches};

verus! {

/// The name of a definition: the text of the first token of its `NAME` child, without
/// whitespace; `None` where there is no such token.
pub open spec fn def_name(es: Seq<SyntaxElementV>, i: int) -> Option<Seq<char>> {
    match name_token_of(es, i) {
        Some(n) => Some(without_ws(n)),
        None => None,
    }
}

/// The name that an extension extends: the text of its `NAME` child without whitespace;
/// `None` where there is no such child.
pub open spec fn extension_name(es: Seq<SyntaxElementV>, i: int) -> Option<Seq<char>> {
    match child_text(es, i, KindQuery::Kind("NAME")) {
        Some(t) => Some(without_ws(t)),
        None => None,
    }
}

/// The directives of a type after an extension adds `added` to them.
pub open spec fn add_directives(
    ds: Option<Seq<DirectiveDataV>>,
    added: Option<Seq<DirectiveDataV>>,
) -> Option<Seq<DirectiveDataV>> {
    match added {
        None => ds,
        Some(a) => if a.len() == 0 {
            ds
        } else {
            match ds {
                Some(d) => Some(d + a),
                None => Some(a),
            }
        },
    }
}

/// Executable `def_name`.
pub fn read_def_name(es: &Vec<SyntaxElementData>, i: usize) -> (r: Option<String>)
    requires
        i < es@.len(),
    ensures
        r.deep_view() == def_name(elements_view(es), i as int),
{
    match read_name_token(es, i) {
        Some(n) => Some(without_ws_exec(n)),
        None => None,
    }
}

/// Executable `extension_name`.
pub fn read_extension_name(es: &Vec<SyntaxElementData>, i: usize) -> (r: Option<String>)
    requires
        i < es@.len(),
    ensures
        r.deep_view() == extension_name(elements_view(es), i as int),
{
    match read_child_text(es, i, KindQuery::Kind("NAME")) {
        Some(t) => Some(without_ws_exec(t)),
        None => None,
    }
}

/// Executable `add_directives`.
pub fn add_directives_exec(ds: &mut Option<Vec<DirectiveData>>, added: Option<Vec<DirectiveData>>)
    ensures
        final(ds).deep_view() == add_directives(old(ds).deep_view(), added.deep_view()),
{
    match added {
        None => {},
        Some(mut a) => {
            if a.len() == 0 {
                return;
            }
            let ghost ga = a.deep_view();
            match ds {
                Some(d) => {
                    let ghost gd = d.deep_view();
                    d.append(&mut a);
                    assert(d.deep_view() =~= gd + ga);
                },
                None => {
                    *ds = Some(a);
                },
            }
        },
    }
}

/// The scalar type read from a scalar type definition; `None` where it has no name.
pub open spec fn scalar_type_view(es: Seq<SyntaxElementV>, i: int) -> Option<ScalarTypeV> {
    match def_name(es, i) {
        Some(name) => Some(
            ScalarTypeV { name, directives: directives_of(es, i), description: description_of(es, i) },
        ),
        None => None,
    }
}

/// A scalar type after the extension `i` named `n` is applied to it.
pub open spec fn extend_scalar(es: Seq<SyntaxElementV>, i: int, n: Seq<char>, t: ScalarTypeV) -> ScalarTypeV {
    if t.name == n {
        ScalarTypeV { directives: add_directives(t.directives, directives_of(es, i)), ..t }
    } else {
        t
    }
}

/// The scalar types after the scalar type extension `i`: its directives are added to each
/// type of the name it extends; `None` where it has no name.
pub open spec fn scalar_extension_view(es: Seq<SyntaxElementV>, i: int, types: Seq<ScalarTypeV>) -> Option<Seq<ScalarTypeV>> {
    match extension_name(es, i) {
        Some(n) => Some(types.map_values(|t: ScalarTypeV| extend_scalar(es, i, n, t))),
        None => None,
    }
}

/// Reads the scalar type definition at element `i`; `None` where it has no name.
pub fn read_scalar_type_def(es: &Vec<SyntaxElementData>, i: usize, config: &Config) -> (r: Option<ScalarType>)
    requires
        i < es@.len(),
    ensures
        r.deep_view() == scalar_type_view(elements_view(es), i as int),
{
    let name = match read_def_name(es, i) {
        Some(n) => n,
        None => {
            return None;
        },
    };
    let description = read_description(es, i);
    let directives = read_directives(es, i, config);
    Some(ScalarType { name, directives, description })
}

/// Applies the scalar type extension at element `i` to `scalar_types`; `false`, with
/// nothing promised of `scalar_types`, where the extension has no name.
pub fn apply_scalar_type_extension(
    es: &Vec<SyntaxElementData>,
    i: usize,
    scalar_types: &mut Vec<ScalarType>,
    config: &Config,
) -> (ok: bool)
    requires
        i < es@.len(),
    ensures
        ok == scalar_extension_view(elements_view(es), i as int, old(scalar_types).deep_view()) is Some,
        ok ==> Some(final(scalar_types).deep_view()) == scalar_extension_view(
            elements_view(es),
            i as int,
            old(scalar_types).deep_view(),
        ),
{
    let ghost g = elements_view(es);
    let n = match read_extension_name(es, i) {
        Some(n) => n,
        None => {
            return false;
        },
    };
    let ghost g0 = scalar_types.deep_view();
    let mut k: usize = 0;
    while k < scalar_types.len()
        invariant
            i < es@.len(),
            g == elements_view(es),
            g0 == old(scalar_types).deep_view(),
            scalar_types@.len() == g0.len(),
            k <= scalar_types@.len(),
            forall|j: int| 0 <= j < k ==> (#[trigger] scalar_types@[j]).deep_view() == extend_scalar(g, i as int, n@, g0[j]),
            forall|j: int| k <= j < scalar_types@.len() ==> (#[trigger] scalar_types@[j]).deep_view() == g0[j],
        decreases scalar_types.len() - k,
    {
        if strings_equal(&scalar_types[k].name, &n) {
            let added = read_directives(es, i, config);
            let t = &mut scalar_types[k];
            add_directives_exec(&mut t.directives, added);
        }
        k = k + 1;
    }
    assert(scalar_types.deep_view() =~= g0.map_values(|t: ScalarTypeV| extend_scalar(g, i as int, n@, t)));
    true
}


/// The enum values of a definition or extension: those of its `ENUM_VALUES_DEFINITION`
/// child, none where it has none; `None` where reading them panics.
pub open spec fn values_of(es: Seq<SyntaxElementV>, i: int) -> Option<Seq<EnumValueDataV>> {
    match first_child_node(es, i, KindQuery::Kind("ENUM_VALUES_DEFINITION")) {
        Some(v) => enum_values_view(es[v].text),
        None => Some(Seq::empty()),
    }
}

/// The enum type read from an enum type definition; `None` where it has no name or its
/// values cannot be read.
pub open spec fn enum_type_view(es: Seq<SyntaxElementV>, i: int) -> Option<EnumTypeV> {
    match (def_name(es, i), values_of(es, i)) {
        (Some(name), Some(values)) => Some(
            EnumTypeV {
                name,
                values,
                directives: directives_of(es, i),
                description: description_of(es, i),
            },
        ),
        _ => None,
    }
}

/// An enum type after the extension `i` named `n`, with values `vals`, is applied to it.
pub open spec fn extend_enum(es: Seq<SyntaxElementV>, i: int, n: Seq<char>, vals: Seq<EnumValueDataV>, t: EnumTypeV) -> EnumTypeV {
    if t.name == n {
        EnumTypeV { directives: add_directives(t.directives, directives_of(es, i)), values: t.values + vals, ..t }
    } else {
        t
    }
}

/// The enum types after the enum type extension `i`: its directives and values are added
/// to each type of the name it extends; `None` where it has no name, or where a type has
/// that name and the values cannot be read.
pub open spec fn enum_extension_view(es: Seq<SyntaxElementV>, i: int, types: Seq<EnumTypeV>) -> Option<Seq<EnumTypeV>> {
    match extension_name(es, i) {
        Some(n) => if exists|k: int| 0 <= k < types.len() && (#[trigger] types[k]).name == n {
            match values_of(es, i) {
                Some(vals) => Some(types.map_values(|t: EnumTypeV| extend_enum(es, i, n, vals, t))),
                None => None,
            }
        } else {
            Some(types)
        },
        None => None,
    }
}

/// Executable `values_of`.
fn read_values(es: &Vec<SyntaxElementData>, i: usize, config: &Config) -> (r: Option<Vec<EnumValueData>>)
    requires
        i < es@.len(),
    ensures
        r.deep_view() == values_of(elements_view(es), i as int),
{
    match first_child_node_exec(es, i, KindQuery::Kind("ENUM_VALUES_DEFINITION")) {
        Some(v) => {
            assert(elements_view(es)[v as int] == es@[v as int].deep_view());
            parse_enum_values(es[v].text.as_str(), config)
        },
        None => {
            let none: Vec<EnumValueData> = Vec::new();
            assert(none.deep_view() =~= Seq::<EnumValueDataV>::empty());
            Some(none)
        },
    }
}

/// Reads the enum type definition at element `i`; `None` where it has no name or its
/// values cannot be read.
pub fn read_enum_type_def(es: &Vec<SyntaxElementData>, i: usize, config: &Config) -> (r: Option<EnumType>)
    requires
        i < es@.len(),
    ensures
        r.deep_view() == enum_type_view(elements_view(es), i as int),
{
    let name = match read_def_name(es, i) {
        Some(n) => n,
        None => {
            return None;
        },
    };
    let description = read_description(es, i);
    let directives = read_directives(es, i, config);
    let values = match read_values(es, i, config) {
        Some(v) => v,
        None => {
            return None;
        },
    };
    Some(EnumType { name, values, directives, description })
}

/// Applies the enum type extension at element `i` to `enum_types`; `false`, with nothing
/// promised of `enum_types`, where `enum_extension_view` is `None`.
pub fn apply_enum_type_extension(
    es: &Vec<SyntaxElementData>,
    i: usize,
    enum_types: &mut Vec<EnumType>,
    config: &Config,
) -> (ok: bool)
    requires
        i < es@.len(),
    ensures
        ok == enum_extension_view(elements_view(es), i as int, old(enum_types).deep_view()) is Some,
        ok ==> Some(final(enum_types).deep_view()) == enum_extension_view(
            elements_view(es),
            i as int,
            old(enum_types).deep_view(),
        ),
{
    let ghost g = elements_view(es);
    let n = match read_extension_name(es, i) {
        Some(n) => n,
        None => {
            return false;
        },
    };
    let ghost g0 = enum_types.deep_view();
    let ghost gv = values_of(g, i as int);
    let mut matched = false;
    let mut k: usize = 0;
    while k < enum_types.len()
        invariant
            i < es@.len(),
            g == elements_view(es),
            g0 == old(enum_types).deep_view(),
            gv == values_of(g, i as int),
            extension_name(g, i as int) == Some(n@),
            enum_types@.len() == g0.len(),
            k <= enum_types@.len(),
            matched <==> exists|j: int| 0 <= j < k && (#[trigger] g0[j]).name == n@,
            matched ==> gv is Some,
            forall|j: int| 0 <= j < k ==> (#[trigger] enum_types@[j]).deep_view() == extend_enum(g, i as int, n@, gv.unwrap(), g0[j]),
            forall|j: int| k <= j < enum_types@.len() ==> (#[trigger] enum_types@[j]).deep_view() == g0[j],
        decreases enum_types.len() - k,
    {
        assert(enum_types@[k as int].deep_view() == g0[k as int]);
        if strings_equal(&enum_types[k].name, &n) {
            assert(g0[k as int].name == n@);
            let vals = match read_values(es, i, config) {
                Some(v) => v,
                None => {
                    return false;
                },
            };
            matched = true;
            let added = read_directives(es, i, config);
            let t = &mut enum_types[k];
            add_directives_exec(&mut t.directives, added);
            let ghost before = t.values.deep_view();
            let mut vals = vals;
            let ghost gvals = vals.deep_view();
            t.values.append(&mut vals);
            assert(t.values.deep_view() =~= before + gvals);
        }
        k = k + 1;
    }
    if matched {
        assert(enum_types.deep_view() =~= g0.map_values(|t: EnumTypeV| extend_enum(g, i as int, n@, gv.unwrap(), t)));
    } else {
        assert forall|j: int| 0 <= j < g0.len() implies #[trigger] extend_enum(g, i as int, n@, gv.unwrap(), g0[j]) == g0[j] by {
        }
        assert(enum_types.deep_view() =~= g0);
    }
    true
}


/// The texts of the matches of `p` in `t`, in order.
pub open spec fn match_texts(p: Pattern, t: Seq<char>) -> Seq<Seq<char>> {
    all_matches(p, t).map_values(|m: (int, int)| t.subrange(m.0, m.1))
}

/// Executable `match_texts`.
pub fn find_match_texts(p: Pattern, t: &[char]) -> (r: Vec<String>)
    ensures
        r.deep_view() == match_texts(p, t@),
{
    let ms = find_all_matches(p, t);
    let ghost gm = all_matches(p, t@);
    let mut out: Vec<String> = Vec::new();
    let mut k: usize = 0;
    while k < ms.len()
        invariant
            k <= ms@.len(),
            gm == all_matches(p, t@),
            ms@.len() == gm.len(),
            forall|j: int| 0 <= j < ms@.len() ==> (#[trigger] ms@[j]).0 as int == gm[j].0 && ms@[j].1 as int == gm[j].1,
            forall|j: int| 0 <= j < ms@.len() ==> (#[trigger] ms@[j]).0 < ms@[j].1 <= t@.len(),
            out@.len() == k,
            forall|j: int| 0 <= j < k ==> (#[trigger] out@[j])@ == t@.subrange(gm[j].0, gm[j].1),
        decreases ms.len() - k,
    {
        let (a, e) = ms[k];
        out.push(string_of(slice_chars(t, a, e).as_slice()));
        k = k + 1;
    }
    assert(out.deep_view() =~= match_texts(p, t@));
    out
}

/// The member types written in the `UNION_MEMBER_TYPES` child of element `i`: the words of
/// its text; none where there is no such child.
pub open spec fn members_of(es: Seq<SyntaxElementV>, i: int) -> Seq<Seq<char>> {
    match first_child_node(es, i, KindQuery::Kind("UNION_MEMBER_TYPES")) {
        Some(m) => match_texts(Pattern::Words, es[m].text),
        None => Seq::empty(),
    }
}

/// The union type read from a union type definition; `None` where it has no name.
pub open spec fn union_type_view(es: Seq<SyntaxElementV>, i: int) -> Option<UnionTypeV> {
    match def_name(es, i) {
        Some(name) => Some(
            UnionTypeV {
                name,
                description: description_of(es, i),
                directives: directives_of(es, i),
                member_types: nonempty(members_of(es, i)),
            },
        ),
        None => None,
    }
}

/// A union type after the extension `i` named `n` is applied to it: the extension's
/// directives added, and its members put before those of the type.
pub open spec fn extend_union(es: Seq<SyntaxElementV>, i: int, n: Seq<char>, t: UnionTypeV) -> UnionTypeV {
    if t.name == n {
        UnionTypeV {
            directives: add_directives(t.directives, directives_of(es, i)),
            member_types: Some(members_of(es, i) + t.member_types.unwrap()),
            ..t
        }
    } else {
        t
    }
}

/// The union types after the union type extension `i`; `None` where it has no name, or
/// where a type of the name it extends has no member types.
pub open spec fn union_extension_view(es: Seq<SyntaxElementV>, i: int, types: Seq<UnionTypeV>) -> Option<Seq<UnionTypeV>> {
    match extension_name(es, i) {
        Some(n) => if exists|k: int| 0 <= k < types.len() && (#[trigger] types[k]).name == n && types[k].member_types is None {
            None
        } else {
            Some(types.map_values(|t: UnionTypeV| extend_union(es, i, n, t)))
        },
        None => None,
    }
}

/// Executable `members_of`.
fn read_members(es: &Vec<SyntaxElementData>, i: usize) -> (r: Vec<String>)
    requires
        i < es@.len(),
    ensures
        r.deep_view() == members_of(elements_view(es), i as int),
{
    match first_child_node_exec(es, i, KindQuery::Kind("UNION_MEMBER_TYPES")) {
        Some(m) => {
            assert(elements_view(es)[m as int] == es@[m as int].deep_view());
            let cs = chars_of(es[m].text.as_str());
            find_match_texts(Pattern::Words, cs.as_slice())
        },
        None => {
            let none: Vec<String> = Vec::new();
            assert(none.deep_view() =~= Seq::<Seq<char>>::empty());
            none
        },
    }
}

/// Reads the union type definition at element `i`; `None` where it has no name.
pub fn read_union_type_def(es: &Vec<SyntaxElementData>, i: usize, config: &Config) -> (r: Option<UnionType>)
    requires
        i < es@.len(),
    ensures
        r.deep_view() == union_type_view(elements_view(es), i as int),
{
    let name = match read_def_name(es, i) {
        Some(n) => n,
        None => {
            return None;
        },
    };
    let description = read_description(es, i);
    let directives = read_directives(es, i, config);
    let members = read_members(es, i);
    let member_types = if members.len() != 0 {
        Some(members)
    } else {
        None
    };
    Some(UnionType { name, description, directives, member_types })
}

/// Applies the union type extension at element `i` to `union_types`; `false`, with nothing
/// promised of `union_types`, where `union_extension_view` is `None`.
pub fn apply_union_type_extension(
    es: &Vec<SyntaxElementData>,
    i: usize,
    union_types: &mut Vec<UnionType>,
    config: &Config,
) -> (ok: bool)
    requires
        i < es@.len(),
    ensures
        ok == union_extension_view(elements_view(es), i as int, old(union_types).deep_view()) is Some,
        ok ==> Some(final(union_types).deep_view()) == union_extension_view(
            elements_view(es),
            i as int,
            old(union_types).deep_view(),
        ),
{
    let ghost g = elements_view(es);
    let n = match read_extension_name(es, i) {
        Some(n) => n,
        None => {
            return false;
        },
    };
    let ghost g0 = union_types.deep_view();
    let mut k: usize = 0;
    while k < union_types.len()
        invariant
            i < es@.len(),
            g == elements_view(es),
            g0 == old(union_types).deep_view(),
            extension_name(g, i as int) == Some(n@),
            union_types@.len() == g0.len(),
            k <= union_types@.len(),
            forall|j: int| 0 <= j < k ==> !((#[trigger] g0[j]).name == n@ && g0[j].member_types is None),
            forall|j: int| 0 <= j < k ==> (#[trigger] union_types@[j]).deep_view() == extend_union(g, i as int, n@, g0[j]),
            forall|j: int| k <= j < union_types@.len() ==> (#[trigger] union_types@[j]).deep_view() == g0[j],
        decreases union_types.len() - k,
    {
        assert(union_types@[k as int].deep_view() == g0[k as int]);
        if strings_equal(&union_types[k].name, &n) {
            if union_types[k].member_types.is_none() {
                assert(g0[k as int].name == n@ && g0[k as int].member_types is None);
                return false;
            }
            let added = read_directives(es, i, config);
            let mut members = read_members(es, i);
            let t = &mut union_types[k];
            add_directives_exec(&mut t.directives, added);
            let old_members = t.member_types.take().unwrap();
            let ghost gm = members.deep_view();
            let ghost go = old_members.deep_view();
            let mut old_members = old_members;
            members.append(&mut old_members);
            assert(members.deep_view() =~= gm + go);
            t.member_types = Some(members);
        }
        k = k + 1;
    }
    assert(union_types.deep_view() =~= g0.map_values(|t: UnionTypeV| extend_union(g, i as int, n@, t)));
    true
}


/// The three kinds of field list a definition holds.
#[derive(Clone, Copy, PartialEq, Eq, Debug)]
pub enum FieldKind {
    Field,
    InputValue,
    Variable,
}

/// The field definition of kind `kind` at element `j`.
pub open spec fn field_def_at(kind: FieldKind, j: int) -> FieldDefs {
    match kind {
        FieldKind::Field => FieldDefs::FieldDef(j as usize),
        FieldKind::InputValue => FieldDefs::InputValueDef(j as usize),
        FieldKind::Variable => FieldDefs::VariableDef(j as usize),
    }
}

/// The fields read from the first `n` definitions `ids`; `None` where one cannot be read.
pub open spec fn fields_from(es: Seq<SyntaxElementV>, ids: Seq<int>, n: int, kind: FieldKind) -> Option<Seq<FieldDataV>>
    decreases n,
{
    if n <= 0 || n > ids.len() {
        Some(Seq::empty())
    } else {
        match (fields_from(es, ids, n - 1, kind), field_view(es, field_def_at(kind, ids[n - 1]))) {
            (Some(fs), Some(f)) => Some(fs.push(f)),
            _ => None,
        }
    }
}

/// The fields read from the children of kind `item` of the list node `list`.
pub open spec fn fields_under(es: Seq<SyntaxElementV>, list: int, item: &'static str, kind: FieldKind) -> Option<Seq<FieldDataV>> {
    let ids = child_nodes(es, list, KindQuery::Kind(item));
    fields_from(es, ids, ids.len() as int, kind)
}

proof fn lemma_fields_from_none(es: Seq<SyntaxElementV>, ids: Seq<int>, n: int, m: int, kind: FieldKind)
    requires
        0 <= n <= m <= ids.len(),
        fields_from(es, ids, n, kind) is None,
    ensures
        fields_from(es, ids, m, kind) is None,
    decreases m - n,
{
    if n < m {
        lemma_fields_from_none(es, ids, n, m - 1, kind);
    }
}

/// Executable `fields_under`.
pub fn read_fields_under(
    es: &Vec<SyntaxElementData>,
    list: usize,
    item: &'static str,
    kind: FieldKind,
    config: &Config,
) -> (r: Option<Vec<FieldData>>)
    requires
        list < es@.len(),
    ensures
        r.deep_view() == fields_under(elements_view(es), list as int, item, kind),
{
    let ghost g = elements_view(es);
    let ids = children_exec(es, list, KindQuery::Kind(item), true);
    let ghost gi = child_nodes(g, list as int, KindQuery::Kind(item));
    let mut out: Vec<FieldData> = Vec::new();
    let mut k: usize = 0;
    while k < ids.len()
        invariant
            k <= ids@.len(),
            g == elements_view(es),
            indices_match(ids@, gi),
            gi == child_nodes(g, list as int, KindQuery::Kind(item)),
            fields_from(g, gi, k as int, kind) == Some(out.deep_view()),
        decreases ids.len() - k,
    {
        let j = ids[k];
        assert(gi[k as int] == j as int);
        let def = match kind {
            FieldKind::Field => FieldDefs::FieldDef(j),
            FieldKind::InputValue => FieldDefs::InputValueDef(j),
            FieldKind::Variable => FieldDefs::VariableDef(j),
        };
        assert(def == field_def_at(kind, gi[k as int]));
        match read_field(es, def, config) {
            Some(f) => {
                let ghost before = out.deep_view();
                out.push(f);
                assert(out.deep_view() =~= before.push(f.deep_view()));
            },
            None => {
                proof {
                    lemma_fields_from_none(g, gi, k + 1, gi.len() as int, kind);
                }
                return None;
            },
        }
        k = k + 1;
    }
    Some(out)
}

/// The interfaces named in the first `n` named types `ids`: the first word of the text of
/// each one's `NAME` child; `None` where one has none.
pub open spec fn implements_from(es: Seq<SyntaxElementV>, ids: Seq<int>, n: int) -> Option<Seq<Seq<char>>>
    decreases n,
{
    if n <= 0 || n > ids.len() {
        Some(Seq::empty())
    } else {
        match implements_from(es, ids, n - 1) {
            Some(names) => match child_text(es, ids[n - 1], KindQuery::Kind("NAME")) {
                Some(t) => match first_match_text(Pattern::Words, t) {
                    Some(w) => Some(names.push(w)),
                    None => None,
                },
                None => None,
            },
            None => None,
        }
    }
}

/// The interfaces that definition `i` implements; `None` where one cannot be read.
pub open spec fn implements_of(es: Seq<SyntaxElementV>, i: int) -> Option<Seq<Seq<char>>> {
    match first_child_node(es, i, KindQuery::Kind("IMPLEMENTS_INTERFACES")) {
        Some(ii) => {
            let ids = child_nodes(es, ii, KindQuery::Kind("NAMED_TYPE"));
            implements_from(es, ids, ids.len() as int)
        },
        None => Some(Seq::empty()),
    }
}

proof fn lemma_implements_from_none(es: Seq<SyntaxElementV>, ids: Seq<int>, n: int, m: int)
    requires
        0 <= n <= m <= ids.len(),
        implements_from(es, ids, n) is None,
    ensures
        implements_from(es, ids, m) is None,
    decreases m - n,
{
    if n < m {
        lemma_implements_from_none(es, ids, n, m - 1);
    }
}

/// Executable `implements_of`.
fn read_implements(es: &Vec<SyntaxElementData>, i: usize) -> (r: Option<Vec<String>>)
    requires
        i < es@.len(),
    ensures
        r.deep_view() == implements_of(elements_view(es), i as int),
{
    let ghost g = elements_view(es);
    let ii = match first_child_node_exec(es, i, KindQuery::Kind("IMPLEMENTS_INTERFACES")) {
        Some(ii) => ii,
        None => {
            let none: Vec<String> = Vec::new();
            assert(none.deep_view() =~= Seq::<Seq<char>>::empty());
            return Some(none);
        },
    };
    let ids = children_exec(es, ii, KindQuery::Kind("NAMED_TYPE"), true);
    let ghost gi = child_nodes(g, ii as int, KindQuery::Kind("NAMED_TYPE"));
    let mut out: Vec<String> = Vec::new();
    let mut k: usize = 0;
    while k < ids.len()
        invariant
            k <= ids@.len(),
            g == elements_view(es),
            indices_match(ids@, gi),
            forall|m: int| 0 <= m < ids@.len() ==> #[trigger] ids@[m] < es@.len(),
            gi == child_nodes(g, ii as int, KindQuery::Kind("NAMED_TYPE")),
            first_child_node(g, i as int, KindQuery::Kind("IMPLEMENTS_INTERFACES")) == Some(ii as int),
            implements_from(g, gi, k as int) == Some(out.deep_view()),
        decreases ids.len() - k,
    {
        let j = ids[k];
        assert(gi[k as int] == j as int);
        let word = match read_child_text(es, j, KindQuery::Kind("NAME")) {
            Some(t) => {
                let cs = chars_of(t.as_str());
                find_first_match_text(Pattern::Words, cs.as_slice())
            },
            None => None,
        };
        match word {
            Some(w) => {
                let ghost before = out.deep_view();
                out.push(string_of(w.as_slice()));
                assert(out.deep_view() =~= before.push(w@));
            },
            None => {
                proof {
                    lemma_implements_from_none(g, gi, k + 1, gi.len() as int);
                }
                return None;
            },
        }
        k = k + 1;
    }
    Some(out)
}

/// The object type read from an object type definition; `None` where it has no name, no
/// `type` keyword or no field list, or where a field or an interface cannot be read.
pub open spec fn object_type_view(es: Seq<SyntaxElementV>, i: int) -> Option<ObjectTypeV> {
    match (def_name(es, i), first_child_token(es, i, "type_KW"), first_child_node(es, i, KindQuery::Kind("FIELDS_DEFINITION")), implements_of(es, i)) {
        (Some(name), Some(tk), Some(fd), Some(imps)) => match fields_under(es, fd, "FIELD_DEFINITION", FieldKind::Field) {
            Some(fields) => Some(
                ObjectTypeV {
                    name,
                    fields,
                    object_type: es[tk].text,
                    directives: directives_of(es, i),
                    description: description_of(es, i),
                    implements: nonempty(imps),
                },
            ),
            None => None,
        },
        _ => None,
    }
}

/// The implemented interfaces after an extension adds the text `added` to them.
pub open spec fn add_implements(imps: Option<Seq<Seq<char>>>, added: Option<Seq<char>>) -> Option<Seq<Seq<char>>> {
    match added {
        None => imps,
        Some(a) => match imps {
            Some(v) => Some(v.push(a)),
            None => Some(seq![a]),
        },
    }
}

/// The fields that an object or interface extension adds; `None` where it has no field
/// list or a field cannot be read.
pub open spec fn ext_fields(es: Seq<SyntaxElementV>, i: int) -> Option<Seq<FieldDataV>> {
    match first_child_node(es, i, KindQuery::Kind("FIELDS_DEFINITION")) {
        Some(fd) => fields_under(es, fd, "FIELD_DEFINITION", FieldKind::Field),
        None => None,
    }
}

/// An object type after the extension `i` named `n`, with fields `fs`, is applied to it:
/// directives and fields added, and the whole text of its implemented interfaces added to
/// those of the type.
pub open spec fn extend_object(es: Seq<SyntaxElementV>, i: int, n: Seq<char>, fs: Seq<FieldDataV>, t: ObjectTypeV) -> ObjectTypeV {
    if t.name == n {
        ObjectTypeV {
            directives: add_directives(t.directives, directives_of(es, i)),
            fields: t.fields + fs,
            implements: add_implements(t.implements, child_text(es, i, KindQuery::Kind("IMPLEMENTS_INTERFACES"))),
            ..t
        }
    } else {
        t
    }
}

/// The object types after the object type extension `i`; `None` where it has no name, or
/// where a type has that name and the extension's fields cannot be read.
pub open spec fn object_extension_view(es: Seq<SyntaxElementV>, i: int, types: Seq<ObjectTypeV>) -> Option<Seq<ObjectTypeV>> {
    match extension_name(es, i) {
        Some(n) => if exists|k: int| 0 <= k < types.len() && (#[trigger] types[k]).name == n {
            match ext_fields(es, i) {
                Some(fs) => Some(types.map_values(|t: ObjectTypeV| extend_object(es, i, n, fs, t))),
                None => None,
            }
        } else {
            Some(types)
        },
        None => None,
    }
}

/// Executable `ext_fields`.
fn read_ext_fields(es: &Vec<SyntaxElementData>, i: usize, config: &Config) -> (r: Option<Vec<FieldData>>)
    requires
        i < es@.len(),
    ensures
        r.deep_view() == ext_fields(elements_view(es), i as int),
{
    match first_child_node_exec(es, i, KindQuery::Kind("FIELDS_DEFINITION")) {
        Some(fd) => read_fields_under(es, fd, "FIELD_DEFINITION", FieldKind::Field, config),
        None => None,
    }
}

/// Executable `add_implements`.
fn add_implements_exec(imps: &mut Option<Vec<String>>, added: Option<String>)
    ensures
        final(imps).deep_view() == add_implements(old(imps).deep_view(), added.deep_view()),
{
    match added {
        None => {},
        Some(a) => match imps {
            Some(v) => {
                let ghost gv = v.deep_view();
                v.push(a);
                assert(v.deep_view() =~= gv.push(a@));
            },
            None => {
                let v = vec![a];
                assert(v.deep_view() =~= seq![a@]);
                *imps = Some(v);
            },
        },
    }
}

/// Executable optional `child_text`, as an owned text.
fn read_child_text_owned(es: &Vec<SyntaxElementData>, i: usize, q: KindQuery) -> (r: Option<String>)
    requires
        i < es@.len(),
    ensures
        r.deep_view() == child_text(elements_view(es), i as int, q),
{
    match read_child_text(es, i, q) {
        Some(t) => Some(t.clone()),
        None => None,
    }
}

/// Appends the fields `fs` to `fields`.
fn append_fields(fields: &mut Vec<FieldData>, fs: Vec<FieldData>)
    ensures
        final(fields).deep_view() == old(fields).deep_view() + fs.deep_view(),
{
    let ghost gf = fields.deep_view();
    let ghost gs = fs.deep_view();
    let mut fs = fs;
    fields.append(&mut fs);
    assert(fields.deep_view() =~= gf + gs);
}

/// Reads the object type definition at element `i`; `None` where `object_type_view` is.
pub fn read_object_type_def(es: &Vec<SyntaxElementData>, i: usize, config: &Config) -> (r: Option<ObjectType>)
    requires
        i < es@.len(),
    ensures
        r.deep_view() == object_type_view(elements_view(es), i as int),
{
    let ghost g = elements_view(es);
    let name = match read_def_name(es, i) {
        Some(n) => n,
        None => {
            return None;
        },
    };
    let tk = match first_child_token_exec(es, i, "type_KW") {
        Some(tk) => tk,
        None => {
            return None;
        },
    };
    assert(g[tk as int] == es@[tk as int].deep_view());
    let object_type = es[tk].text.clone();
    let description = read_description(es, i);
    let directives = read_directives(es, i, config);
    let fd = match first_child_node_exec(es, i, KindQuery::Kind("FIELDS_DEFINITION")) {
        Some(fd) => fd,
        None => {
            return None;
        },
    };
    let fields = match read_fields_under(es, fd, "FIELD_DEFINITION", FieldKind::Field, config) {
        Some(f) => f,
        None => {
            return None;
        },
    };
    let imps = match read_implements(es, i) {
        Some(v) => v,
        None => {
            return None;
        },
    };
    let implements = if imps.len() > 0 {
        Some(imps)
    } else {
        None
    };
    Some(ObjectType { name, fields, object_type, directives, description, implements })
}

/// Applies the object type extension at element `i` to `object_types`; `false`, with
/// nothing promised of `object_types`, where `object_extension_view` is `None`.
pub fn apply_object_type_extension(
    es: &Vec<SyntaxElementData>,
    i: usize,
    object_types: &mut Vec<ObjectType>,
    config: &Config,
) -> (ok: bool)
    requires
        i < es@.len(),
    ensures
        ok == object_extension_view(elements_view(es), i as int, old(object_types).deep_view()) is Some,
        ok ==> Some(final(object_types).deep_view()) == object_extension_view(
            elements_view(es),
            i as int,
            old(object_types).deep_view(),
        ),
{
    let ghost g = elements_view(es);
    let n = match read_extension_name(es, i) {
        Some(n) => n,
        None => {
            return false;
        },
    };
    let ghost g0 = object_types.deep_view();
    let ghost gf = ext_fields(g, i as int);
    let mut matched = false;
    let mut k: usize = 0;
    while k < object_types.len()
        invariant
            i < es@.len(),
            g == elements_view(es),
            g0 == old(object_types).deep_view(),
            gf == ext_fields(g, i as int),
            extension_name(g, i as int) == Some(n@),
            object_types@.len() == g0.len(),
            k <= object_types@.len(),
            matched <==> exists|j: int| 0 <= j < k && (#[trigger] g0[j]).name == n@,
            matched ==> gf is Some,
            forall|j: int| 0 <= j < k ==> (#[trigger] object_types@[j]).deep_view() == extend_object(g, i as int, n@, gf.unwrap(), g0[j]),
            forall|j: int| k <= j < object_types@.len() ==> (#[trigger] object_types@[j]).deep_view() == g0[j],
        decreases object_types.len() - k,
    {
        assert(object_types@[k as int].deep_view() == g0[k as int]);
        if strings_equal(&object_types[k].name, &n) {
            assert(g0[k as int].name == n@);
            let fs = match read_ext_fields(es, i, config) {
                Some(v) => v,
                None => {
                    return false;
                },
            };
            matched = true;
            let added = read_directives(es, i, config);
            let imp = read_child_text_owned(es, i, KindQuery::Kind("IMPLEMENTS_INTERFACES"));
            let t = &mut object_types[k];
            add_directives_exec(&mut t.directives, added);
            append_fields(&mut t.fields, fs);
            add_implements_exec(&mut t.implements, imp);
        }
        k = k + 1;
    }
    if matched {
        assert(object_types.deep_view() =~= g0.map_values(|t: ObjectTypeV| extend_object(g, i as int, n@, gf.unwrap(), t)));
    } else {
        assert(object_types.deep_view() =~= g0);
    }
    true
}


/// The interface type read from an interface type definition; `None` where it has no name
/// or no field list, or where a field or an interface cannot be read.
pub open spec fn interface_type_view(es: Seq<SyntaxElementV>, i: int) -> Option<InterfaceTypeV> {
    match (def_name(es, i), first_child_node(es, i, KindQuery::Kind("FIELDS_DEFINITION")), implements_of(es, i)) {
        (Some(name), Some(fd), Some(imps)) => match fields_under(es, fd, "FIELD_DEFINITION", FieldKind::Field) {
            Some(fields) => Some(
                InterfaceTypeV {
                    name,
                    fields,
                    directives: directives_of(es, i),
                    description: description_of(es, i),
                    implements: nonempty(imps),
                },
            ),
            None => None,
        },
        _ => None,
    }
}

/// An interface type after the extension `i` named `n`, with fields `fs`, is applied to it.
pub open spec fn extend_interface(es: Seq<SyntaxElementV>, i: int, n: Seq<char>, fs: Seq<FieldDataV>, t: InterfaceTypeV) -> InterfaceTypeV {
    if t.name == n {
        InterfaceTypeV {
            directives: add_directives(t.directives, directives_of(es, i)),
            fields: t.fields + fs,
            implements: add_implements(t.implements, child_text(es, i, KindQuery::Kind("IMPLEMENTS_INTERFACES"))),
            ..t
        }
    } else {
        t
    }
}

/// The interface types after the interface type extension `i`; `None` where it has no
/// name, or where a type has that name and the extension's fields cannot be read.
pub open spec fn interface_extension_view(es: Seq<SyntaxElementV>, i: int, types: Seq<InterfaceTypeV>) -> Option<Seq<InterfaceTypeV>> {
    match extension_name(es, i) {
        Some(n) => if exists|k: int| 0 <= k < types.len() && (#[trigger] types[k]).name == n {
            match ext_fields(es, i) {
                Some(fs) => Some(types.map_values(|t: InterfaceTypeV| extend_interface(es, i, n, fs, t))),
                None => None,
            }
        } else {
            Some(types)
        },
        None => None,
    }
}

/// Reads the interface type definition at element `i`; `None` where
/// `interface_type_view` is.
pub fn read_interface_type_def(es: &Vec<SyntaxElementData>, i: usize, config: &Config) -> (r: Option<InterfaceType>)
    requires
        i < es@.len(),
    ensures
        r.deep_view() == interface_type_view(elements_view(es), i as int),
{
    let name = match read_def_name(es, i) {
        Some(n) => n,
        None => {
            return None;
        },
    };
    let description = read_description(es, i);
    let directives = read_directives(es, i, config);
    let fd = match first_child_node_exec(es, i, KindQuery::Kind("FIELDS_DEFINITION")) {
        Some(fd) => fd,
        None => {
            return None;
        },
    };
    let fields = match read_fields_under(es, fd, "FIELD_DEFINITION", FieldKind::Field, config) {
        Some(f) => f,
        None => {
            return None;
        },
    };
    let imps = match read_implements(es, i) {
        Some(v) => v,
        None => {
            return None;
        },
    };
    let implements = if imps.len() > 0 {
        Some(imps)
    } else {
        None
    };
    Some(InterfaceType { name, fields, directives, description, implements })
}

/// Applies the interface type extension at element `i` to `interface_types`; `false`,
/// with nothing promised of `interface_types`, where `interface_extension_view` is `None`.
pub fn apply_interface_type_extension(
    es: &Vec<SyntaxElementData>,
    i: usize,
    interface_types: &mut Vec<InterfaceType>,
    config: &Config,
) -> (ok: bool)
    requires
        i < es@.len(),
    ensures
        ok == interface_extension_view(elements_view(es), i as int, old(interface_types).deep_view()) is Some,
        ok ==> Some(final(interface_types).deep_view()) == interface_extension_view(
            elements_view(es),
            i as int,
            old(interface_types).deep_view(),
        ),
{
    let ghost g = elements_view(es);
    let n = match read_extension_name(es, i) {
        Some(n) => n,
        None => {
            return false;
        },
    };
    let ghost g0 = interface_types.deep_view();
    let ghost gf = ext_fields(g, i as int);
    let mut matched = false;
    let mut k: usize = 0;
    while k < interface_types.len()
        invariant
            i < es@.len(),
            g == elements_view(es),
            g0 == old(interface_types).deep_view(),
            gf == ext_fields(g, i as int),
            extension_name(g, i as int) == Some(n@),
            interface_types@.len() == g0.len(),
            k <= interface_types@.len(),
            matched <==> exists|j: int| 0 <= j < k && (#[trigger] g0[j]).name == n@,
            matched ==> gf is Some,
            forall|j: int| 0 <= j < k ==> (#[trigger] interface_types@[j]).deep_view() == extend_interface(g, i as int, n@, gf.unwrap(), g0[j]),
            forall|j: int| k <= j < interface_types@.len() ==> (#[trigger] interface_types@[j]).deep_view() == g0[j],
        decreases interface_types.len() - k,
    {
        assert(interface_types@[k as int].deep_view() == g0[k as int]);
        if strings_equal(&interface_types[k].name, &n) {
            assert(g0[k as int].name == n@);
            let fs = match read_ext_fields(es, i, config) {
                Some(v) => v,
                None => {
                    return false;
                },
            };
            matched = true;
            let added = read_directives(es, i, config);
            let imp = read_child_text_owned(es, i, KindQuery::Kind("IMPLEMENTS_INTERFACES"));
            let t = &mut interface_types[k];
            add_directives_exec(&mut t.directives, added);
            append_fields(&mut t.fields, fs);
            add_implements_exec(&mut t.implements, imp);
        }
        k = k + 1;
    }
    if matched {
        assert(interface_types.deep_view() =~= g0.map_values(|t: InterfaceTypeV| extend_interface(g, i as int, n@, gf.unwrap(), t)));
    } else {
        assert(interface_types.deep_view() =~= g0);
    }
    true
}

/// The input object type read from an input object type definition, as an object type of
/// kind `input`; `None` where it has no name or no input field list, or where a field
/// cannot be read.
pub open spec fn input_object_type_view(es: Seq<SyntaxElementV>, i: int) -> Option<ObjectTypeV> {
    match (def_name(es, i), first_child_node(es, i, KindQuery::Kind("INPUT_FIELDS_DEFINITION"))) {
        (Some(name), Some(fd)) => match fields_under(es, fd, "INPUT_VALUE_DEFINITION", FieldKind::InputValue) {
            Some(fields) => Some(
                ObjectTypeV {
                    name,
                    fields,
                    object_type: "input"@,
                    directives: directives_of(es, i),
                    description: description_of(es, i),
                    implements: None,
                },
            ),
            None => None,
        },
        _ => None,
    }
}

/// The fields that an input object extension adds: none where it has no input field list;
/// `None` where a field cannot be read.
pub open spec fn input_ext_fields(es: Seq<SyntaxElementV>, i: int) -> Option<Seq<FieldDataV>> {
    match first_child_node(es, i, KindQuery::Kind("INPUT_FIELDS_DEFINITION")) {
        Some(fd) => fields_under(es, fd, "INPUT_VALUE_DEFINITION", FieldKind::InputValue),
        None => Some(Seq::empty()),
    }
}

/// An input object type after the extension `i` named `n`, with fields `fs`, is applied.
pub open spec fn extend_input_object(es: Seq<SyntaxElementV>, i: int, n: Seq<char>, fs: Seq<FieldDataV>, t: ObjectTypeV) -> ObjectTypeV {
    if t.name == n {
        ObjectTypeV { directives: add_directives(t.directives, directives_of(es, i)), fields: t.fields + fs, ..t }
    } else {
        t
    }
}

/// The input object types after the input object type extension `i`; `None` where it has
/// no name, or where a type has that name and the extension's fields cannot be read.
pub open spec fn input_object_extension_view(es: Seq<SyntaxElementV>, i: int, types: Seq<ObjectTypeV>) -> Option<Seq<ObjectTypeV>> {
    match extension_name(es, i) {
        Some(n) => if exists|k: int| 0 <= k < types.len() && (#[trigger] types[k]).name == n {
            match input_ext_fields(es, i) {
                Some(fs) => Some(types.map_values(|t: ObjectTypeV| extend_input_object(es, i, n, fs, t))),
                None => None,
            }
        } else {
            Some(types)
        },
        None => None,
    }
}

/// Executable `input_ext_fields`.
fn read_input_ext_fields(es: &Vec<SyntaxElementData>, i: usize, config: &Config) -> (r: Option<Vec<FieldData>>)
    requires
        i < es@.len(),
    ensures
        r.deep_view() == input_ext_fields(elements_view(es), i as int),
{
    match first_child_node_exec(es, i, KindQuery::Kind("INPUT_FIELDS_DEFINITION")) {
        Some(fd) => read_fields_under(es, fd, "INPUT_VALUE_DEFINITION", FieldKind::InputValue, config),
        None => {
            let none: Vec<FieldData> = Vec::new();
            assert(none.deep_view() =~= Seq::<FieldDataV>::empty());
            Some(none)
        },
    }
}

/// Reads the input object type definition at element `i`; `None` where
/// `input_object_type_view` is.
pub fn read_input_object_type_def(es: &Vec<SyntaxElementData>, i: usize, config: &Config) -> (r: Option<ObjectType>)
    requires
        i < es@.len(),
    ensures
        r.deep_view() == input_object_type_view(elements_view(es), i as int),
{
    let name = match read_def_name(es, i) {
        Some(n) => n,
        None => {
            return None;
        },
    };
    let description = read_description(es, i);
    let directives = read_directives(es, i, config);
    let fd = match first_child_node_exec(es, i, KindQuery::Kind("INPUT_FIELDS_DEFINITION")) {
        Some(fd) => fd,
        None => {
            return None;
        },
    };
    let fields = match read_fields_under(es, fd, "INPUT_VALUE_DEFINITION", FieldKind::InputValue, config) {
        Some(f) => f,
        None => {
            return None;
        },
    };
    let object_type = String::from_str("input");
    proof {
        reveal_strlit("input");
    }
    Some(ObjectType { name, fields, object_type, directives, description, implements: None })
}

/// Applies the input object type extension at element `i` to `input_object_types`;
/// `false`, with nothing promised of `input_object_types`, where
/// `input_object_extension_view` is `None`.
pub fn apply_input_object_type_extension(
    es: &Vec<SyntaxElementData>,
    i: usize,
    input_object_types: &mut Vec<ObjectType>,
    config: &Config,
) -> (ok: bool)
    requires
        i < es@.len(),
    ensures
        ok == input_object_extension_view(elements_view(es), i as int, old(input_object_types).deep_view()) is Some,
        ok ==> Some(final(input_object_types).deep_view()) == input_object_extension_view(
            elements_view(es),
            i as int,
            old(input_object_types).deep_view(),
        ),
{
    let ghost g = elements_view(es);
    let n = match read_extension_name(es, i) {
        Some(n) => n,
        None => {
            return false;
        },
    };
    let ghost g0 = input_object_types.deep_view();
    let ghost gf = input_ext_fields(g, i as int);
    let mut matched = false;
    let mut k: usize = 0;
    while k < input_object_types.len()
        invariant
            i < es@.len(),
            g == elements_view(es),
            g0 == old(input_object_types).deep_view(),
            gf == input_ext_fields(g, i as int),
            extension_name(g, i as int) == Some(n@),
            input_object_types@.len() == g0.len(),
            k <= input_object_types@.len(),
            matched <==> exists|j: int| 0 <= j < k && (#[trigger] g0[j]).name == n@,
            matched ==> gf is Some,
            forall|j: int| 0 <= j < k ==> (#[trigger] input_object_types@[j]).deep_view() == extend_input_object(g, i as int, n@, gf.unwrap(), g0[j]),
            forall|j: int| k <= j < input_object_types@.len() ==> (#[trigger] input_object_types@[j]).deep_view() == g0[j],
        decreases input_object_types.len() - k,
    {
        assert(input_object_types@[k as int].deep_view() == g0[k as int]);
        if strings_equal(&input_object_types[k].name, &n) {
            assert(g0[k as int].name == n@);
            let fs = match read_input_ext_fields(es, i, config) {
                Some(v) => v,
                None => {
                    return false;
                },
            };
            matched = true;
            let added = read_directives(es, i, config);
            let t = &mut input_object_types[k];
            add_directives_exec(&mut t.directives, added);
            append_fields(&mut t.fields, fs);
        }
        k = k + 1;
    }
    if matched {
        assert(input_object_types.deep_view() =~= g0.map_values(|t: ObjectTypeV| extend_input_object(g, i as int, n@, gf.unwrap(), t)));
    } else {
        assert(input_object_types.deep_view() =~= g0);
    }
    true
}


/// The locations of a directive definition: the text of each `DIRECTIVE_LOCATION` child
/// of its `DIRECTIVE_LOCATIONS` node `dl`, without whitespace.
pub open spec fn locations_of(es: Seq<SyntaxElementV>, dl: int) -> Seq<Seq<char>> {
    child_nodes(es, dl, KindQuery::Kind("DIRECTIVE_LOCATION")).map_values(|j: int| without_ws(es[j].text))
}

/// The directive read from a directive definition; `None` where it has no name or no
/// locations, or where an argument cannot be read.
pub open spec fn directive_view(es: Seq<SyntaxElementV>, i: int) -> Option<DirectiveV> {
    match (def_name(es, i), arguments_of(es, i, false), first_child_node(es, i, KindQuery::Kind("DIRECTIVE_LOCATIONS"))) {
        (Some(name), Some(args), Some(dl)) => Some(
            DirectiveV {
                name,
                repeatable: first_child_token(es, i, "repeatable_KW") is Some,
                description: description_of(es, i),
                arguments: nonempty(args),
                locations: locations_of(es, dl),
            },
        ),
        _ => None,
    }
}

/// Reads the directive definition at element `i`; `None` where `directive_view` is.
pub fn read_directive_def(es: &Vec<SyntaxElementData>, i: usize, config: &Config) -> (r: Option<Directive>)
    requires
        i < es@.len(),
    ensures
        r.deep_view() == directive_view(elements_view(es), i as int),
{
    let ghost g = elements_view(es);
    let name = match read_def_name(es, i) {
        Some(n) => n,
        None => {
            return None;
        },
    };
    let description = read_description(es, i);
    let args = match read_arguments(es, i, false, config) {
        Some(a) => a,
        None => {
            return None;
        },
    };
    let dl = match first_child_node_exec(es, i, KindQuery::Kind("DIRECTIVE_LOCATIONS")) {
        Some(dl) => dl,
        None => {
            return None;
        },
    };
    let ids = children_exec(es, dl, KindQuery::Kind("DIRECTIVE_LOCATION"), true);
    let ghost gi = child_nodes(g, dl as int, KindQuery::Kind("DIRECTIVE_LOCATION"));
    let mut locations: Vec<String> = Vec::new();
    let mut k: usize = 0;
    while k < ids.len()
        invariant
            k <= ids@.len(),
            g == elements_view(es),
            indices_match(ids@, gi),
            forall|m: int| 0 <= m < ids@.len() ==> #[trigger] ids@[m] < es@.len(),
            locations@.len() == k,
            forall|m: int| 0 <= m < k ==> (#[trigger] locations@[m])@ == without_ws(g[gi[m]].text),
        decreases ids.len() - k,
    {
        let j = ids[k];
        assert(gi[k as int] == j as int);
        assert(g[j as int] == es@[j as int].deep_view());
        locations.push(without_ws_exec(&es[j].text));
        k = k + 1;
    }
    assert(locations.deep_view() =~= locations_of(g, dl as int));
    let repeatable = first_child_token_exec(es, i, "repeatable_KW").is_some();
    let arguments = if args.len() != 0 {
        Some(args)
    } else {
        None
    };
    Some(Directive { name, repeatable, description, arguments, locations })
}

/// The selection sets of a fragment: the selections read from the text of its
/// `SELECTION_SET` child, if it has one.
pub open spec fn fragment_selection_sets(es: Seq<SyntaxElementV>, i: int) -> Seq<Seq<SelectionV>> {
    match child_text(es, i, KindQuery::Kind("SELECTION_SET")) {
        Some(ss) => seq![selection_set_view(ss)],
        None => Seq::empty(),
    }
}

/// The fragment read from a fragment definition: its name without whitespace, its
/// directives, selections, and the type after `on`; `None` where it has no name or no type
/// condition.
pub open spec fn fragment_view(es: Seq<SyntaxElementV>, i: int) -> Option<FragmentV> {
    match (child_text(es, i, KindQuery::Kind("FRAGMENT_NAME")), child_text(es, i, KindQuery::Kind("TYPE_CONDITION"))) {
        (Some(fname), Some(tc)) => Some(
            FragmentV {
                name: without_ws(without_ws(fname)),
                directives: directives_of(es, i),
                selection_sets: fragment_selection_sets(es, i),
                on: without_ws(remove_all(Pattern::OnWord, tc)),
            },
        ),
        _ => None,
    }
}

/// Reads the fragment definition at element `i`; `None` where `fragment_view` is.
pub fn read_fragment_def(es: &Vec<SyntaxElementData>, i: usize, config: &Config) -> (r: Option<Fragment>)
    requires
        i < es@.len(),
    ensures
        r.deep_view() == fragment_view(elements_view(es), i as int),
{
    let fname = match read_child_text(es, i, KindQuery::Kind("FRAGMENT_NAME")) {
        Some(t) => t,
        None => {
            return None;
        },
    };
    let once = without_ws_exec(fname);
    let name = without_ws_exec(&once);
    let directives = read_directives(es, i, config);
    let mut selection_sets: Vec<Vec<Selection>> = Vec::new();
    match read_child_text(es, i, KindQuery::Kind("SELECTION_SET")) {
        Some(ss) => {
            let sel = parse_selection_set(ss.as_str(), config);
            assert(sel.deep_view() =~= selections_view(sel@));
            selection_sets.push(sel);
        },
        None => {},
    }
    assert(selection_sets.deep_view() =~= fragment_selection_sets(elements_view(es), i as int));
    let tc = match read_child_text(es, i, KindQuery::Kind("TYPE_CONDITION")) {
        Some(t) => t,
        None => {
            return None;
        },
    };
    let cs = chars_of(tc.as_str());
    let without_on = remove_all_matches(Pattern::OnWord, cs.as_slice());
    let on_ws = remove_all_matches(Pattern::Whitespace, without_on.as_slice());
    let on = string_of(on_ws.as_slice());
    Some(Fragment { name, directives, selection_sets, on })
}

/// The selections directly under the `SELECTION_SET` node `s`, each by its whole text.
pub open spec fn selections_of(es: Seq<SyntaxElementV>, s: int) -> Seq<SelectionV> {
    child_nodes(es, s, KindQuery::AnySelection).map_values(|j: int| SelectionV::Leaf(es[j].text))
}

/// The selection sets of an operation.
pub open spec fn operation_selection_sets(es: Seq<SyntaxElementV>, i: int) -> Seq<Seq<SelectionV>> {
    match first_child_node(es, i, KindQuery::Kind("SELECTION_SET")) {
        Some(s) => seq![selections_of(es, s)],
        None => Seq::empty(),
    }
}

/// The operation read from an operation definition: its name, the text of its operation
/// type, its variables as fields, its directives and its selections; `None` where it has
/// no name, no operation type or no variable list, or a variable cannot be read.
pub open spec fn operation_view(es: Seq<SyntaxElementV>, i: int) -> Option<OperationTypeV> {
    match (def_name(es, i), child_text(es, i, KindQuery::Kind("OPERATION_TYPE")), first_child_node(es, i, KindQuery::Kind("VARIABLE_DEFINITIONS"))) {
        (Some(name), Some(ot), Some(vd)) => match fields_under(es, vd, "VARIABLE_DEFINITION", FieldKind::Variable) {
            Some(fields) => Some(
                OperationTypeV {
                    name,
                    fields,
                    operation_type: ot,
                    directives: directives_of(es, i),
                    selection_sets: operation_selection_sets(es, i),
                },
            ),
            None => None,
        },
        _ => None,
    }
}

/// Reads the operation definition at element `i`; `None` where `operation_view` is.
pub fn read_operation_def(es: &Vec<SyntaxElementData>, i: usize, config: &Config) -> (r: Option<OperationType>)
    requires
        i < es@.len(),
    ensures
        r.deep_view() == operation_view(elements_view(es), i as int),
{
    let ghost g = elements_view(es);
    let name = match read_def_name(es, i) {
        Some(n) => n,
        None => {
            return None;
        },
    };
    let operation_type = match read_child_text_owned(es, i, KindQuery::Kind("OPERATION_TYPE")) {
        Some(t) => t,
        None => {
            return None;
        },
    };
    let directives = read_directives(es, i, config);
    let mut selection_sets: Vec<Vec<Selection>> = Vec::new();
    match first_child_node_exec(es, i, KindQuery::Kind("SELECTION_SET")) {
        Some(s) => {
            let ids = children_exec(es, s, KindQuery::AnySelection, true);
            let ghost gi = child_nodes(g, s as int, KindQuery::AnySelection);
            let mut sels: Vec<Selection> = Vec::new();
            let mut k: usize = 0;
            while k < ids.len()
                invariant
                    k <= ids@.len(),
                    g == elements_view(es),
                    indices_match(ids@, gi),
                    forall|m: int| 0 <= m < ids@.len() ==> #[trigger] ids@[m] < es@.len(),
                    sels@.len() == k,
                    forall|m: int| 0 <= m < k ==> (#[trigger] sels@[m]).deep_view() == SelectionV::Leaf(g[gi[m]].text),
                decreases ids.len() - k,
            {
                let j = ids[k];
                assert(gi[k as int] == j as int);
                assert(g[j as int] == es@[j as int].deep_view());
                let sel = Selection { name: es[j].text.clone(), selections: None };
                assert(sel.deep_view() == SelectionV::Leaf(g[j as int].text));
                sels.push(sel);
                k = k + 1;
            }
            assert(sels.deep_view() =~= selections_of(g, s as int));
            selection_sets.push(sels);
        },
        None => {},
    }
    assert(selection_sets.deep_view() =~= operation_selection_sets(g, i as int));
    let vd = match first_child_node_exec(es, i, KindQuery::Kind("VARIABLE_DEFINITIONS")) {
        Some(vd) => vd,
        None => {
            return None;
        },
    };
    let fields = match read_fields_under(es, vd, "VARIABLE_DEFINITION", FieldKind::Variable, config) {
        Some(f) => f,
        None => {
            return None;
        },
    };
    Some(OperationType { name, fields, operation_type, directives, selection_sets })
}

/// The root operations of the first `n` root operation type definitions `ids`: the whole
/// text of each, and the text of the `NAME` of its named type; `None` where one has none.
pub open spec fn root_operations_from(es: Seq<SyntaxElementV>, ids: Seq<int>, n: int) -> Option<Seq<SchemaOperationTypeV>>
    decreases n,
{
    if n <= 0 || n > ids.len() {
        Some(Seq::empty())
    } else {
        match root_operations_from(es, ids, n - 1) {
            Some(ops) => match first_child_node(es, ids[n - 1], KindQuery::Kind("NAMED_TYPE")) {
                Some(nt) => match child_text(es, nt, KindQuery::Kind("NAME")) {
                    Some(t) => Some(ops.push(SchemaOperationTypeV { name: es[ids[n - 1]].text, operation_type: t })),
                    None => None,
                },
                None => None,
            },
            None => None,
        }
    }
}

/// The schema read from a schema definition; `None` where a root operation has no named
/// type.
pub open spec fn schema_def_view(es: Seq<SyntaxElementV>, i: int) -> Option<SchemaV> {
    let ids = child_nodes(es, i, KindQuery::Kind("ROOT_OPERATION_TYPE_DEFINITION"));
    match root_operations_from(es, ids, ids.len() as int) {
        Some(ops) => Some(
            SchemaV { directives: directives_of(es, i), description: description_of(es, i), root_operations: ops },
        ),
        None => None,
    }
}

proof fn lemma_root_operations_none(es: Seq<SyntaxElementV>, ids: Seq<int>, n: int, m: int)
    requires
        0 <= n <= m <= ids.len(),
        root_operations_from(es, ids, n) is None,
    ensures
        root_operations_from(es, ids, m) is None,
    decreases m - n,
{
    if n < m {
        lemma_root_operations_none(es, ids, n, m - 1);
    }
}

/// Reads the schema definition at element `i`; `None` where `schema_def_view` is.
pub fn read_schema_def(es: &Vec<SyntaxElementData>, i: usize, config: &Config) -> (r: Option<Schema>)
    requires
        i < es@.len(),
    ensures
        r.deep_view() == schema_def_view(elements_view(es), i as int),
{
    let ghost g = elements_view(es);
    let description = read_description(es, i);
    let directives = read_directives(es, i, config);
    let ids = children_exec(es, i, KindQuery::Kind("ROOT_OPERATION_TYPE_DEFINITION"), true);
    let ghost gi = child_nodes(g, i as int, KindQuery::Kind("ROOT_OPERATION_TYPE_DEFINITION"));
    let mut ops: Vec<SchemaOperationType> = Vec::new();
    let mut k: usize = 0;
    while k < ids.len()
        invariant
            k <= ids@.len(),
            g == elements_view(es),
            indices_match(ids@, gi),
            forall|m: int| 0 <= m < ids@.len() ==> #[trigger] ids@[m] < es@.len(),
            gi == child_nodes(g, i as int, KindQuery::Kind("ROOT_OPERATION_TYPE_DEFINITION")),
            root_operations_from(g, gi, k as int) == Some(ops.deep_view()),
        decreases ids.len() - k,
    {
        let j = ids[k];
        assert(gi[k as int] == j as int);
        assert(g[j as int] == es@[j as int].deep_view());
        let t = match first_child_node_exec(es, j, KindQuery::Kind("NAMED_TYPE")) {
            Some(nt) => read_child_text_owned(es, nt, KindQuery::Kind("NAME")),
            None => None,
        };
        match t {
            Some(t) => {
                let ghost before = ops.deep_view();
                let op = SchemaOperationType { name: es[j].text.clone(), operation_type: t };
                ops.push(op);
                assert(ops.deep_view() =~= before.push(op.deep_view()));
            },
            None => {
                proof {
                    lemma_root_operations_none(g, gi, k + 1, gi.len() as int);
                }
                return None;
            },
        }
        k = k + 1;
    }
    Some(Schema { directives, description, root_operations: ops })
}


/// Reads an object type definition at element `object_type_def` of `es`, for one that `object_type_view` can read.
pub fn parse_object_type_def(es: &Vec<SyntaxElementData>, object_type_def: usize, config: &Config) -> (r: ObjectType)
    requires
        object_type_def < es@.len(),
        object_type_view(elements_view(es), object_type_def as int) is Some,
    ensures
        Some(r.deep_view()) == object_type_view(elements_view(es), object_type_def as int),
{
    read_object_type_def(es, object_type_def, config).unwrap()
}

/// Reads an input object type definition at element `input_object_type_def` of `es`, for one that `input_object_type_view` can read.
pub fn parse_input_object_type_def(es: &Vec<SyntaxElementData>, input_object_type_def: usize, config: &Config) -> (r: ObjectType)
    requires
        input_object_type_def < es@.len(),
        input_object_type_view(elements_view(es), input_object_type_def as int) is Some,
    ensures
        Some(r.deep_view()) == input_object_type_view(elements_view(es), input_object_type_def as int),
{
    read_input_object_type_def(es, input_object_type_def, config).unwrap()
}

/// Reads an interface type definition at element `interface_type_def` of `es`, for one that `interface_type_view` can read.
pub fn parse_interface_type_def(es: &Vec<SyntaxElementData>, interface_type_def: usize, config: &Config) -> (r: InterfaceType)
    requires
        interface_type_def < es@.len(),
        interface_type_view(elements_view(es), interface_type_def as int) is Some,
    ensures
        Some(r.deep_view()) == interface_type_view(elements_view(es), interface_type_def as int),
{
    read_interface_type_def(es, interface_type_def, config).unwrap()
}

/// Reads a scalar type definition at element `scalar_type_def` of `es`, for one that `scalar_type_view` can read.
pub fn parse_scalar_type_def(es: &Vec<SyntaxElementData>, scalar_type_def: usize, config: &Config) -> (r: ScalarType)
    requires
        scalar_type_def < es@.len(),
        scalar_type_view(elements_view(es), scalar_type_def as int) is Some,
    ensures
        Some(r.deep_view()) == scalar_type_view(elements_view(es), scalar_type_def as int),
{
    read_scalar_type_def(es, scalar_type_def, config).unwrap()
}

/// Reads an enum type definition at element `enum_type_def` of `es`, for one that `enum_type_view` can read.
pub fn parse_enum_type_def(es: &Vec<SyntaxElementData>, enum_type_def: usize, config: &Config) -> (r: EnumType)
    requires
        enum_type_def < es@.len(),
        enum_type_view(elements_view(es), enum_type_def as int) is Some,
    ensures
        Some(r.deep_view()) == enum_type_view(elements_view(es), enum_type_def as int),
{
    read_enum_type_def(es, enum_type_def, config).unwrap()
}

/// Reads a union type definition at element `union_type_def` of `es`, for one that `union_type_view` can read.
pub fn parse_union_type_def(es: &Vec<SyntaxElementData>, union_type_def: usize, config: &Config) -> (r: UnionType)
    requires
        union_type_def < es@.len(),
        union_type_view(elements_view(es), union_type_def as int) is Some,
    ensures
        Some(r.deep_view()) == union_type_view(elements_view(es), union_type_def as int),
{
    read_union_type_def(es, union_type_def, config).unwrap()
}

/// Reads a directive definition at element `directive_def` of `es`, for one that `directive_view` can read.
pub fn parse_directive_def(es: &Vec<SyntaxElementData>, directive_def: usize, config: &Config) -> (r: Directive)
    requires
        directive_def < es@.len(),
        directive_view(elements_view(es), directive_def as int) is Some,
    ensures
        Some(r.deep_view()) == directive_view(elements_view(es), directive_def as int),
{
    read_directive_def(es, directive_def, config).unwrap()
}

/// Reads a fragment definition at element `fragment_def` of `es`, for one that `fragment_view` can read.
pub fn parse_fragment_def(es: &Vec<SyntaxElementData>, fragment_def: usize, config: &Config) -> (r: Fragment)
    requires
        fragment_def < es@.len(),
        fragment_view(elements_view(es), fragment_def as int) is Some,
    ensures
        Some(r.deep_view()) == fragment_view(elements_view(es), fragment_def as int),
{
    read_fragment_def(es, fragment_def, config).unwrap()
}

/// Reads an operation definition at element `operation_def` of `es`, for one that `operation_view` can read.
pub fn parse_operation_def(es: &Vec<SyntaxElementData>, operation_def: usize, config: &Config) -> (r: OperationType)
    requires
        operation_def < es@.len(),
        operation_view(elements_view(es), operation_def as int) is Some,
    ensures
        Some(r.deep_view()) == operation_view(elements_view(es), operation_def as int),
{
    read_operation_def(es, operation_def, config).unwrap()
}

/// Reads a schema definition at element `schema_def` of `es`, for one that `schema_def_view` can read.
pub fn parse_schema_def(es: &Vec<SyntaxElementData>, schema_def: usize, config: &Config) -> (r: Schema)
    requires
        schema_def < es@.len(),
        schema_def_view(elements_view(es), schema_def as int) is Some,
    ensures
        Some(r.deep_view()) == schema_def_view(elements_view(es), schema_def as int),
{
    read_schema_def(es, schema_def, config).unwrap()
}

/// Applies an object type extension at element `object_type_extension` of `es` to the types of the name it extends; a name
/// that no type has changes nothing. For an extension that `object_extension_view` can apply.
pub fn parse_object_type_extension(es: &Vec<SyntaxElementData>, object_type_extension: usize, object_types: &mut Vec<ObjectType>, config: &Config)
    requires
        object_type_extension < es@.len(),
        object_extension_view(elements_view(es), object_type_extension as int, old(object_types).deep_view()) is Some,
    ensures
        Some(final(object_types).deep_view()) == object_extension_view(elements_view(es), object_type_extension as int, old(object_types).deep_view()),
{
    let _ = apply_object_type_extension(es, object_type_extension, object_types, config);
}

/// Applies an input object type extension at element `input_object_type_extension` of `es` to the types of the name it extends; a name
/// that no type has changes nothing. For an extension that `input_object_extension_view` can apply.
pub fn parse_input_object_type_extension(es: &Vec<SyntaxElementData>, input_object_type_extension: usize, input_object_types: &mut Vec<ObjectType>, config: &Config)
    requires
        input_object_type_extension < es@.len(),
        input_object_extension_view(elements_view(es), input_object_type_extension as int, old(input_object_types).deep_view()) is Some,
    ensures
        Some(final(input_object_types).deep_view()) == input_object_extension_view(elements_view(es), input_object_type_extension as int, old(input_object_types).deep_view()),
{
    let _ = apply_input_object_type_extension(es, input_object_type_extension, input_object_types, config);
}

/// Applies an interface type extension at element `interface_type_extension` of `es` to the types of the name it extends; a name
/// that no type has changes nothing. For an extension that `interface_extension_view` can apply.
pub fn parse_interface_type_extension(es: &Vec<SyntaxElementData>, interface_type_extension: usize, interface_types: &mut Vec<InterfaceType>, config: &Config)
    requires
        interface_type_extension < es@.len(),
        interface_extension_view(elements_view(es), interface_type_extension as int, old(interface_types).deep_view()) is Some,
    ensures
        Some(final(interface_types).deep_view()) == interface_extension_view(elements_view(es), interface_type_extension as int, old(interface_types).deep_view()),
{
    let _ = apply_interface_type_extension(es, interface_type_extension, interface_types, config);
}

/// Applies a scalar type extension at element `scalar_type_extension` of `es` to the types of the name it extends; a name
/// that no type has changes nothing. For an extension that `scalar_extension_view` can apply.
pub fn parse_scalar_type_extension(es: &Vec<SyntaxElementData>, scalar_type_extension: usize, scalar_types: &mut Vec<ScalarType>, config: &Config)
    requires
        scalar_type_extension < es@.len(),
        scalar_extension_view(elements_view(es), scalar_type_extension as int, old(scalar_types).deep_view()) is Some,
    ensures
        Some(final(scalar_types).deep_view()) == scalar_extension_view(elements_view(es), scalar_type_extension as int, old(scalar_types).deep_view()),
{
    let _ = apply_scalar_type_extension(es, scalar_type_extension, scalar_types, config);
}

/// Applies an enum type extension at element `enum_type_extension` of `es` to the types of the name it extends; a name
/// that no type has changes nothing. For an extension that `enum_extension_view` can apply.
pub fn parse_enum_type_extension(es: &Vec<SyntaxElementData>, enum_type_extension: usize, enum_types: &mut Vec<EnumType>, config: &Config)
    requires
        enum_type_extension < es@.len(),
        enum_extension_view(elements_view(es), enum_type_extension as int, old(enum_types).deep_view()) is Some,
    ensures
        Some(final(enum_types).deep_view()) == enum_extension_view(elements_view(es), enum_type_extension as int, old(enum_types).deep_view()),
{
    let _ = apply_enum_type_extension(es, enum_type_extension, enum_types, config);
}

/// Applies a union type extension at element `union_type_extension` of `es` to the types of the name it extends; a name
/// that no type has changes nothing. For an extension that `union_extension_view` can apply.
pub fn parse_union_type_extension(es: &Vec<SyntaxElementData>, union_type_extension: usize, union_types: &mut Vec<UnionType>, config: &Config)
    requires
        union_type_extension < es@.len(),
        union_extension_view(elements_view(es), union_type_extension as int, old(union_types).deep_view()) is Some,
    ensures
        Some(final(union_types).deep_view()) == union_extension_view(elements_view(es), union_type_extension as int, old(union_types).deep_view()),
{
    let _ = apply_union_type_extension(es, union_type_extension, union_types, config);
}

/// A schema extension changes no schema: an extension has no name that would tell which
/// schema it extends.
pub fn parse_schema_extension(es: &Vec<SyntaxElementData>, schema_extension: usize, schemas: &mut Vec<Schema>, config: &Config)
    ensures
        final(schemas)@ == old(schemas)@,
{
}

} // verus!
