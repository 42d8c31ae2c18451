//! Marking the fields and arguments whose type is an enum, a scalar or a union of the schema.
use vstd::prelude::*;
use rayon::iter::{IndexedParallelIterator, IntoParallelIterator, ParallelIterator};
use crate::types::{
    Config,
    FieldArgumentData,
    FieldArgumentDataV,
    FieldData,
    FieldDataV,
    ObjectType,
    ObjectTypeV,
    InterfaceType,
    InterfaceTypeV,
    OperationType,
    OperationTypeV,
    SchemaData,
    SchemaDataV,
    EnumType,
    ScalarType,
    UnionType,
};

verus! {

/// The names of a schema's enum types.
pub open spec fn enum_names(d: SchemaDataV) -> Seq<Seq<char>> {
    match d.enum_types {
        Some(v) => v.map_values(|e: crate::types::EnumTypeV| e.name),
        None => Seq::empty(),
    }
}

/// The names of a schema's scalar types.
pub open spec fn scalar_names(d: SchemaDataV) -> Seq<Seq<char>> {
    match d.scalar_types {
        Some(v) => v.map_values(|e: crate::types::ScalarTypeV| e.name),
        None => Seq::empty(),
    }
}

/// The names of a schema's union types.
pub open spec fn union_names(d: SchemaDataV) -> Seq<Seq<char>> {
    match d.union_types {
        Some(v) => v.map_values(|e: crate::types::UnionTypeV| e.name),
        None => Seq::empty(),
    }
}

/// The name lists a type is looked up in: enums, scalars, unions.
pub struct NameLists {
    pub enums: Seq<Seq<char>>,
    pub scalars: Seq<Seq<char>>,
    pub unions: Seq<Seq<char>>,
}

/// The name lists of a schema.
pub open spec fn name_lists(d: SchemaDataV) -> NameLists {
    NameLists { enums: enum_names(d), scalars: scalar_names(d), unions: union_names(d) }
}

/// An argument marked by its type: as an enum when an enum has that name, else as a scalar
/// when a scalar has it, else as a union when a union has it; other flags stay.
pub open spec fn mark_argument(a: FieldArgumentDataV, n: NameLists) -> FieldArgumentDataV {
    let t = a.argument_type;
    FieldArgumentDataV {
        argument_index: a.argument_index,
        name: a.name,
        argument_type: a.argument_type,
        argument_complete_type: a.argument_complete_type,
        directives: a.directives,
        description: a.description,
        default_value: a.default_value,
        is_nullable: a.is_nullable,
        is_array: a.is_array,
        is_enum: a.is_enum || n.enums.contains(t),
        is_scalar: a.is_scalar || (!n.enums.contains(t) && n.scalars.contains(t)),
        is_union: a.is_union || (!n.enums.contains(t) && !n.scalars.contains(t) && n.unions.contains(t)),
    }
}

/// A field marked by its type as `mark_argument` marks an argument, and its arguments
/// marked too.
pub open spec fn mark_field(f: FieldDataV, n: NameLists) -> FieldDataV {
    let t = f.field_type;
    FieldDataV {
        name: f.name,
        field_type: f.field_type,
        field_complete_type: f.field_complete_type,
        directives: f.directives,
        description: f.description,
        arguments: match f.arguments {
            Some(args) => Some(args.map_values(|a: FieldArgumentDataV| mark_argument(a, n))),
            None => None,
        },
        default_value: f.default_value,
        is_nullable: f.is_nullable,
        is_array: f.is_array,
        is_enum: f.is_enum || n.enums.contains(t),
        is_scalar: f.is_scalar || (!n.enums.contains(t) && n.scalars.contains(t)),
        is_union: f.is_union || (!n.enums.contains(t) && !n.scalars.contains(t) && n.unions.contains(t)),
    }
}

/// The fields of a list marked.
pub open spec fn mark_fields(fs: Seq<FieldDataV>, n: NameLists) -> Seq<FieldDataV> {
    fs.map_values(|f: FieldDataV| mark_field(f, n))
}

/// An object type with its fields marked.
pub open spec fn mark_object(o: ObjectTypeV, n: NameLists) -> ObjectTypeV {
    ObjectTypeV {
        name: o.name,
        fields: mark_fields(o.fields, n),
        object_type: o.object_type,
        directives: o.directives,
        description: o.description,
        implements: o.implements,
    }
}

/// An interface type with its fields marked.
pub open spec fn mark_interface(o: InterfaceTypeV, n: NameLists) -> InterfaceTypeV {
    InterfaceTypeV {
        name: o.name,
        fields: mark_fields(o.fields, n),
        directives: o.directives,
        description: o.description,
        implements: o.implements,
    }
}

/// An operation with its fields marked.
pub open spec fn mark_operation(o: OperationTypeV, n: NameLists) -> OperationTypeV {
    OperationTypeV {
        name: o.name,
        fields: mark_fields(o.fields, n),
        operation_type: o.operation_type,
        directives: o.directives,
        selection_sets: o.selection_sets,
    }
}

/// The schema data with the fields of its input objects, interfaces, objects and operations
/// marked against its own enums, scalars and unions; everything else as it was.
pub open spec fn processed(d: SchemaDataV) -> SchemaDataV {
    let n = name_lists(d);
    SchemaDataV {
        operation_types: match d.operation_types {
            Some(v) => Some(v.map_values(|o: OperationTypeV| mark_operation(o, n))),
            None => None,
        },
        object_types: match d.object_types {
            Some(v) => Some(v.map_values(|o: ObjectTypeV| mark_object(o, n))),
            None => None,
        },
        input_object_types: match d.input_object_types {
            Some(v) => Some(v.map_values(|o: ObjectTypeV| mark_object(o, n))),
            None => None,
        },
        scalar_types: d.scalar_types,
        enum_types: d.enum_types,
        interface_types: match d.interface_types {
            Some(v) => Some(v.map_values(|o: InterfaceTypeV| mark_interface(o, n))),
            None => None,
        },
        union_types: d.union_types,
        directives: d.directives,
        fragments: d.fragments,
        schemas: d.schemas,
    }
}

/// Exec name lists.
pub struct Names {
    pub enums: Vec<String>,
    pub scalars: Vec<String>,
    pub unions: Vec<String>,
}

/// The lists that `Names` holds.
pub open spec fn names_view(n: &Names) -> NameLists {
    NameLists { enums: n.enums.deep_view(), scalars: n.scalars.deep_view(), unions: n.unions.deep_view() }
}

fn list_contains(names: &Vec<String>, t: &String) -> (r: bool)
    ensures
        r == names.deep_view().contains(t@),
{
    let mut k: usize = 0;
    while k < names.len()
        invariant
            k <= names@.len(),
            forall|j: int| 0 <= j < k ==> names.deep_view()[j] != t@,
        decreases names.len() - k,
    {
        if names[k] == *t {
            assert(names.deep_view()[k as int] == t@);
            return true;
        }
        k = k + 1;
    }
    proof {
        if names.deep_view().contains(t@) {
            let j = choose|j: int| 0 <= j < names.deep_view().len() && names.deep_view()[j] == t@;
            assert(names.deep_view()[j] != t@);
        }
    }
    false
}

fn mark_argument_exec(a: &mut FieldArgumentData, n: &Names)
    ensures
        final(a).deep_view() == mark_argument(old(a).deep_view(), names_view(n)),
{
    if list_contains(&n.enums, &a.argument_type) {
        a.is_enum = true;
    } else if list_contains(&n.scalars, &a.argument_type) {
        a.is_scalar = true;
    } else if list_contains(&n.unions, &a.argument_type) {
        a.is_union = true;
    }
}

fn mark_arguments_exec(args: &mut Vec<FieldArgumentData>, n: &Names)
    ensures
        final(args).deep_view() == old(args).deep_view().map_values(|a: FieldArgumentDataV| mark_argument(a, names_view(n))),
{
    let ghost before = args.deep_view();
    let len = args.len();
    let mut k: usize = 0;
    while k < len
        invariant
            k <= len,
            len == args@.len(),
            before.len() == len,
            forall|j: int| 0 <= j < k ==> args.deep_view()[j] == mark_argument(before[j], names_view(n)),
            forall|j: int| k <= j < len ==> args.deep_view()[j] == before[j],
        decreases len - k,
    {
        let ghost pre = args@;
        let ghost pre_dv = args.deep_view();
        assert(pre[k as int].deep_view() == before[k as int]);
        mark_argument_exec(&mut args[k], n);
        assert(args@[k as int].deep_view() == mark_argument(before[k as int], names_view(n)));
        assert(args@ == pre.update(k as int, args@[k as int]));
        assert(forall|j: int| 0 <= j < len && j != k ==> args@[j] == pre[j]);
        assert forall|j: int| 0 <= j < k + 1 implies args.deep_view()[j] == mark_argument(before[j], names_view(n)) by {
            if j < k {
                assert(pre_dv[j] == mark_argument(before[j], names_view(n)));
                assert(pre_dv[j] == pre[j].deep_view());
                assert(args@[j] == pre[j]);
            }
        }
        k = k + 1;
    }
    assert(args.deep_view() =~= before.map_values(|a: FieldArgumentDataV| mark_argument(a, names_view(n))));
}

fn mark_field_exec(f: &mut FieldData, n: &Names)
    ensures
        final(f).deep_view() == mark_field(old(f).deep_view(), names_view(n)),
{
    if list_contains(&n.enums, &f.field_type) {
        f.is_enum = true;
    } else if list_contains(&n.scalars, &f.field_type) {
        f.is_scalar = true;
    } else if list_contains(&n.unions, &f.field_type) {
        f.is_union = true;
    }
    match &mut f.arguments {
        Some(args) => {
            mark_arguments_exec(args, n);
        },
        None => {},
    }
}

/// Marks the fields of a list.
pub fn mark_fields_exec(fields: &mut Vec<FieldData>, n: &Names)
    ensures
        final(fields).deep_view() == mark_fields(old(fields).deep_view(), names_view(n)),
{
    let ghost before = fields.deep_view();
    let len = fields.len();
    let mut k: usize = 0;
    while k < len
        invariant
            k <= len,
            len == fields@.len(),
            before.len() == len,
            forall|j: int| 0 <= j < k ==> fields.deep_view()[j] == mark_field(before[j], names_view(n)),
            forall|j: int| k <= j < len ==> fields.deep_view()[j] == before[j],
        decreases len - k,
    {
        let ghost pre = fields@;
        let ghost pre_dv = fields.deep_view();
        assert(pre[k as int].deep_view() == before[k as int]);
        mark_field_exec(&mut fields[k], n);
        assert(fields@[k as int].deep_view() == mark_field(before[k as int], names_view(n)));
        assert(fields@ == pre.update(k as int, fields@[k as int]));
        assert(forall|j: int| 0 <= j < len && j != k ==> fields@[j] == pre[j]);
        assert forall|j: int| 0 <= j < k + 1 implies fields.deep_view()[j] == mark_field(before[j], names_view(n)) by {
            if j < k {
                assert(pre_dv[j] == mark_field(before[j], names_view(n)));
                assert(pre_dv[j] == pre[j].deep_view());
                assert(fields@[j] == pre[j]);
            }
        }
        k = k + 1;
    }
    assert(fields.deep_view() =~= mark_fields(before, names_view(n)));
}


/// An object type with its fields marked.
pub fn mark_object_exec(o: ObjectType, n: &Names) -> (r: ObjectType)
    ensures
        r.deep_view() == mark_object(o.deep_view(), names_view(n)),
{
    let mut o = o;
    mark_fields_exec(&mut o.fields, n);
    o
}

/// An interface type with its fields marked.
pub fn mark_interface_exec(o: InterfaceType, n: &Names) -> (r: InterfaceType)
    ensures
        r.deep_view() == mark_interface(o.deep_view(), names_view(n)),
{
    let mut o = o;
    mark_fields_exec(&mut o.fields, n);
    o
}

/// An operation with its fields marked.
pub fn mark_operation_exec(o: OperationType, n: &Names) -> (r: OperationType)
    ensures
        r.deep_view() == mark_operation(o.deep_view(), names_view(n)),
{
    let mut o = o;
    mark_fields_exec(&mut o.fields, n);
    o
}

fn enum_names_exec(v: &Option<Vec<EnumType>>) -> (r: Vec<String>)
    ensures
        r.deep_view() == match v.deep_view() { Some(s) => s.map_values(|e: crate::types::EnumTypeV| e.name), None => Seq::empty() },
{
    let mut r: Vec<String> = Vec::new();
    match v {
        Some(v) => {
            let mut k: usize = 0;
            while k < v.len()
                invariant
                    k <= v@.len(),
                    r.deep_view() =~= v.deep_view().take(k as int).map_values(|e: crate::types::EnumTypeV| e.name),
                decreases v.len() - k,
            {
                let nm = v[k].name.clone();
                assert(nm@ == v.deep_view()[k as int].name);
                let ghost prev = r.deep_view();
                r.push(nm);
                assert(r.deep_view() =~= prev.push(nm@));
                assert(v.deep_view().take(k + 1) =~= v.deep_view().take(k as int).push(v.deep_view()[k as int]));
                k = k + 1;
                assert(r.deep_view() =~= v.deep_view().take(k as int).map_values(|e: crate::types::EnumTypeV| e.name));
            }
            assert(v.deep_view().take(v@.len() as int) =~= v.deep_view());
        },
        None => {},
    }
    assert(r.deep_view() =~= match v.deep_view() { Some(s) => s.map_values(|e: crate::types::EnumTypeV| e.name), None => Seq::empty() });
    r
}

fn scalar_names_exec(v: &Option<Vec<ScalarType>>) -> (r: Vec<String>)
    ensures
        r.deep_view() == match v.deep_view() { Some(s) => s.map_values(|e: crate::types::ScalarTypeV| e.name), None => Seq::empty() },
{
    let mut r: Vec<String> = Vec::new();
    match v {
        Some(v) => {
            let mut k: usize = 0;
            while k < v.len()
                invariant
                    k <= v@.len(),
                    r.deep_view() =~= v.deep_view().take(k as int).map_values(|e: crate::types::ScalarTypeV| e.name),
                decreases v.len() - k,
            {
                let nm = v[k].name.clone();
                assert(nm@ == v.deep_view()[k as int].name);
                let ghost prev = r.deep_view();
                r.push(nm);
                assert(r.deep_view() =~= prev.push(nm@));
                assert(v.deep_view().take(k + 1) =~= v.deep_view().take(k as int).push(v.deep_view()[k as int]));
                k = k + 1;
                assert(r.deep_view() =~= v.deep_view().take(k as int).map_values(|e: crate::types::ScalarTypeV| e.name));
            }
            assert(v.deep_view().take(v@.len() as int) =~= v.deep_view());
        },
        None => {},
    }
    assert(r.deep_view() =~= match v.deep_view() { Some(s) => s.map_values(|e: crate::types::ScalarTypeV| e.name), None => Seq::empty() });
    r
}

fn union_names_exec(v: &Option<Vec<UnionType>>) -> (r: Vec<String>)
    ensures
        r.deep_view() == match v.deep_view() { Some(s) => s.map_values(|e: crate::types::UnionTypeV| e.name), None => Seq::empty() },
{
    let mut r: Vec<String> = Vec::new();
    match v {
        Some(v) => {
            let mut k: usize = 0;
            while k < v.len()
                invariant
                    k <= v@.len(),
                    r.deep_view() =~= v.deep_view().take(k as int).map_values(|e: crate::types::UnionTypeV| e.name),
                decreases v.len() - k,
            {
                let nm = v[k].name.clone();
                assert(nm@ == v.deep_view()[k as int].name);
                let ghost prev = r.deep_view();
                r.push(nm);
                assert(r.deep_view() =~= prev.push(nm@));
                assert(v.deep_view().take(k + 1) =~= v.deep_view().take(k as int).push(v.deep_view()[k as int]));
                k = k + 1;
                assert(r.deep_view() =~= v.deep_view().take(k as int).map_values(|e: crate::types::UnionTypeV| e.name));
            }
            assert(v.deep_view().take(v@.len() as int) =~= v.deep_view());
        },
        None => {},
    }
    assert(r.deep_view() =~= match v.deep_view() { Some(s) => s.map_values(|e: crate::types::UnionTypeV| e.name), None => Seq::empty() });
    r
}

/// The name lists of a schema's data.
fn names_of(d: &SchemaData) -> (r: Names)
    ensures
        names_view(&r) == name_lists(d.deep_view()),
{
    Names { enums: enum_names_exec(&d.enum_types), scalars: scalar_names_exec(&d.scalar_types), unions: union_names_exec(&d.union_types) }
}

fn mark_object_list(v: &mut Vec<ObjectType>, n: &Names)
    ensures
        final(v).deep_view() == old(v).deep_view().map_values(|o: ObjectTypeV| mark_object(o, names_view(n))),
{
    let ghost before = v.deep_view();
    let len = v.len();
    let mut k: usize = 0;
    while k < len
        invariant
            k <= len,
            len == v@.len(),
            before.len() == len,
            forall|j: int| 0 <= j < k ==> v.deep_view()[j] == mark_object(before[j], names_view(n)),
            forall|j: int| k <= j < len ==> v.deep_view()[j] == before[j],
        decreases len - k,
    {
        let ghost pre = v@;
        let ghost pre_dv = v.deep_view();
        assert(pre[k as int].deep_view() == before[k as int]);
        mark_fields_exec(&mut v[k].fields, n);
        assert(v@[k as int].deep_view() == mark_object(before[k as int], names_view(n)));
        assert(forall|j: int| 0 <= j < len && j != k ==> v@[j] == pre[j]);
        assert forall|j: int| 0 <= j < k + 1 implies v.deep_view()[j] == mark_object(before[j], names_view(n)) by {
            if j < k {
                assert(pre_dv[j] == mark_object(before[j], names_view(n)));
                assert(pre_dv[j] == pre[j].deep_view());
                assert(v@[j] == pre[j]);
            }
        }
        k = k + 1;
    }
    assert(v.deep_view() =~= before.map_values(|o: ObjectTypeV| mark_object(o, names_view(n))));
}

fn mark_interface_list(v: &mut Vec<InterfaceType>, n: &Names)
    ensures
        final(v).deep_view() == old(v).deep_view().map_values(|o: InterfaceTypeV| mark_interface(o, names_view(n))),
{
    let ghost before = v.deep_view();
    let len = v.len();
    let mut k: usize = 0;
    while k < len
        invariant
            k <= len,
            len == v@.len(),
            before.len() == len,
            forall|j: int| 0 <= j < k ==> v.deep_view()[j] == mark_interface(before[j], names_view(n)),
            forall|j: int| k <= j < len ==> v.deep_view()[j] == before[j],
        decreases len - k,
    {
        let ghost pre = v@;
        let ghost pre_dv = v.deep_view();
        assert(pre[k as int].deep_view() == before[k as int]);
        mark_fields_exec(&mut v[k].fields, n);
        assert(v@[k as int].deep_view() == mark_interface(before[k as int], names_view(n)));
        assert(forall|j: int| 0 <= j < len && j != k ==> v@[j] == pre[j]);
        assert forall|j: int| 0 <= j < k + 1 implies v.deep_view()[j] == mark_interface(before[j], names_view(n)) by {
            if j < k {
                assert(pre_dv[j] == mark_interface(before[j], names_view(n)));
                assert(pre_dv[j] == pre[j].deep_view());
                assert(v@[j] == pre[j]);
            }
        }
        k = k + 1;
    }
    assert(v.deep_view() =~= before.map_values(|o: InterfaceTypeV| mark_interface(o, names_view(n))));
}

fn mark_operation_list(v: &mut Vec<OperationType>, n: &Names)
    ensures
        final(v).deep_view() == old(v).deep_view().map_values(|o: OperationTypeV| mark_operation(o, names_view(n))),
{
    let ghost before = v.deep_view();
    let len = v.len();
    let mut k: usize = 0;
    while k < len
        invariant
            k <= len,
            len == v@.len(),
            before.len() == len,
            forall|j: int| 0 <= j < k ==> v.deep_view()[j] == mark_operation(before[j], names_view(n)),
            forall|j: int| k <= j < len ==> v.deep_view()[j] == before[j],
        decreases len - k,
    {
        let ghost pre = v@;
        let ghost pre_dv = v.deep_view();
        assert(pre[k as int].deep_view() == before[k as int]);
        mark_fields_exec(&mut v[k].fields, n);
        assert(v@[k as int].deep_view() == mark_operation(before[k as int], names_view(n)));
        assert(forall|j: int| 0 <= j < len && j != k ==> v@[j] == pre[j]);
        assert forall|j: int| 0 <= j < k + 1 implies v.deep_view()[j] == mark_operation(before[j], names_view(n)) by {
            if j < k {
                assert(pre_dv[j] == mark_operation(before[j], names_view(n)));
                assert(pre_dv[j] == pre[j].deep_view());
                assert(v@[j] == pre[j]);
            }
        }
        k = k + 1;
    }
    assert(v.deep_view() =~= before.map_values(|o: OperationTypeV| mark_operation(o, names_view(n))));
}


/// Maps `f` over the items of `v` with `rayon`'s parallel iterators, keeping their order
/// (`into_par_iter`, `map`, `collect_into_vec`). The contract says that the result has one
/// item for each item of `v`, in order, and that `f` gave it for that item.
#[verifier::external_body]
fn par_map<T: Send, U: Send, F: Fn(T) -> U + Sync + Send>(v: Vec<T>, f: F) -> (r: Vec<U>)
    requires
        forall|x: T| f.requires((x,)),
    ensures
        r@.len() == v@.len(),
        forall|i: int| 0 <= i < v@.len() ==> f.ensures((v@[i],), #[trigger] r@[i]),
{
    let mut out = Vec::new();
    v.into_par_iter().map(f).collect_into_vec(&mut out);
    out
}

/// Marks every field and argument of the input objects, interfaces, objects and operations
/// whose type is the name of one of the schema's enums, scalars or unions (in that order of
/// precedence).
pub fn process_fields(schema_data: &mut SchemaData, _config: &Config)
    ensures
        final(schema_data).deep_view() == processed(old(schema_data).deep_view()),
{
    let n = names_of(schema_data);
    match &mut schema_data.input_object_types {
        Some(v) => mark_object_list(v, &n),
        None => {},
    }
    match &mut schema_data.interface_types {
        Some(v) => mark_interface_list(v, &n),
        None => {},
    }
    match &mut schema_data.object_types {
        Some(v) => mark_object_list(v, &n),
        None => {},
    }
    match &mut schema_data.operation_types {
        Some(v) => mark_operation_list(v, &n),
        None => {},
    }
}

/// `process_fields`, with the objects, interfaces and operations of each list marked in
/// parallel.
pub fn par_process_fields(schema_data: &mut SchemaData, _config: &Config)
    ensures
        final(schema_data).deep_view() == processed(old(schema_data).deep_view()),
{
    let n = names_of(schema_data);
    let nr = &n;
    match schema_data.input_object_types.take() {
        Some(v) => {
            let r = par_map(v, |o: ObjectType| -> (r: ObjectType)
                ensures r.deep_view() == mark_object(o.deep_view(), names_view(nr)),
                { mark_object_exec(o, nr) });
            assert(r.deep_view() =~= v.deep_view().map_values(|o: ObjectTypeV| mark_object(o, names_view(nr))));
            schema_data.input_object_types = Some(r);
        },
        None => {},
    }
    match schema_data.interface_types.take() {
        Some(v) => {
            let r = par_map(v, |o: InterfaceType| -> (r: InterfaceType)
                ensures r.deep_view() == mark_interface(o.deep_view(), names_view(nr)),
                { mark_interface_exec(o, nr) });
            assert(r.deep_view() =~= v.deep_view().map_values(|o: InterfaceTypeV| mark_interface(o, names_view(nr))));
            schema_data.interface_types = Some(r);
        },
        None => {},
    }
    match schema_data.object_types.take() {
        Some(v) => {
            let r = par_map(v, |o: ObjectType| -> (r: ObjectType)
                ensures r.deep_view() == mark_object(o.deep_view(), names_view(nr)),
                { mark_object_exec(o, nr) });
            assert(r.deep_view() =~= v.deep_view().map_values(|o: ObjectTypeV| mark_object(o, names_view(nr))));
            schema_data.object_types = Some(r);
        },
        None => {},
    }
    match schema_data.operation_types.take() {
        Some(v) => {
            let r = par_map(v, |o: OperationType| -> (r: OperationType)
                ensures r.deep_view() == mark_operation(o.deep_view(), names_view(nr)),
                { mark_operation_exec(o, nr) });
            assert(r.deep_view() =~= v.deep_view().map_values(|o: OperationTypeV| mark_operation(o, names_view(nr))));
            schema_data.operation_types = Some(r);
        },
        None => {},
    }
}

} // verus!
