//! The records that the reader produces, and their mathematical views.
use vstd::prelude::*;

verus! {

/// How a schema is read: in parallel or not, and whether the host is a web-assembly runtime.
pub struct Config {
    pub parallel: bool,
    pub run_in_wasm: bool,
}

/// The three kinds of GraphQL operation.
#[derive(Clone, Copy, PartialEq, Eq, Debug)]
pub enum GraphQLOperation {
    Query,
    Mutation,
    Subscription,
}

/// A `parameter: value` pair written in a directive's arguments.
pub struct DirectiveArgumentValues {
    pub parameter: String,
    pub value: String,
}

/// View of `DirectiveArgumentValues`.
pub struct DirectiveArgumentValuesV {
    pub parameter: Seq<char>,
    pub value: Seq<char>,
}

impl DeepView for DirectiveArgumentValues {
    type V = DirectiveArgumentValuesV;

    open spec fn deep_view(&self) -> DirectiveArgumentValuesV {
        DirectiveArgumentValuesV { parameter: self.parameter@, value: self.value@ }
    }
}

/// A directive applied somewhere: its name and its argument values.
pub struct DirectiveData {
    pub name: String,
    pub values: Option<Vec<DirectiveArgumentValues>>,
}

/// View of `DirectiveData`.
pub struct DirectiveDataV {
    pub name: Seq<char>,
    pub values: Option<Seq<DirectiveArgumentValuesV>>,
}

impl DeepView for DirectiveData {
    type V = DirectiveDataV;

    open spec fn deep_view(&self) -> DirectiveDataV {
        DirectiveDataV { name: self.name@, values: self.values.deep_view() }
    }
}

/// An argument of a field or of a directive definition.
pub struct FieldArgumentData {
    pub argument_index: usize,
    pub name: String,
    pub argument_type: String,
    pub argument_complete_type: String,
    pub directives: Option<Vec<DirectiveData>>,
    pub description: Option<String>,
    pub default_value: Option<String>,
    pub is_nullable: bool,
    pub is_array: bool,
    pub is_enum: bool,
    pub is_scalar: bool,
    pub is_union: bool,
}

/// View of `FieldArgumentData`.
pub struct FieldArgumentDataV {
    pub argument_index: usize,
    pub name: Seq<char>,
    pub argument_type: Seq<char>,
    pub argument_complete_type: Seq<char>,
    pub directives: Option<Seq<DirectiveDataV>>,
    pub description: Option<Seq<char>>,
    pub default_value: Option<Seq<char>>,
    pub is_nullable: bool,
    pub is_array: bool,
    pub is_enum: bool,
    pub is_scalar: bool,
    pub is_union: bool,
}

impl DeepView for FieldArgumentData {
    type V = FieldArgumentDataV;

    open spec fn deep_view(&self) -> FieldArgumentDataV {
        FieldArgumentDataV {
            argument_index: self.argument_index,
            name: self.name@,
            argument_type: self.argument_type@,
            argument_complete_type: self.argument_complete_type@,
            directives: self.directives.deep_view(),
            description: self.description.deep_view(),
            default_value: self.default_value.deep_view(),
            is_nullable: self.is_nullable,
            is_array: self.is_array,
            is_enum: self.is_enum,
            is_scalar: self.is_scalar,
            is_union: self.is_union,
        }
    }
}

/// A field of an object, input object, interface or operation.
pub struct FieldData {
    pub name: String,
    pub field_type: String,
    pub field_complete_type: String,
    pub directives: Option<Vec<DirectiveData>>,
    pub description: Option<String>,
    pub arguments: Option<Vec<FieldArgumentData>>,
    pub default_value: Option<String>,
    pub is_nullable: bool,
    pub is_array: bool,
    pub is_enum: bool,
    pub is_scalar: bool,
    pub is_union: bool,
}

/// View of `FieldData`.
pub struct FieldDataV {
    pub name: Seq<char>,
    pub field_type: Seq<char>,
    pub field_complete_type: Seq<char>,
    pub directives: Option<Seq<DirectiveDataV>>,
    pub description: Option<Seq<char>>,
    pub arguments: Option<Seq<FieldArgumentDataV>>,
    pub default_value: Option<Seq<char>>,
    pub is_nullable: bool,
    pub is_array: bool,
    pub is_enum: bool,
    pub is_scalar: bool,
    pub is_union: bool,
}

impl DeepView for FieldData {
    type V = FieldDataV;

    open spec fn deep_view(&self) -> FieldDataV {
        FieldDataV {
            name: self.name@,
            field_type: self.field_type@,
            field_complete_type: self.field_complete_type@,
            directives: self.directives.deep_view(),
            description: self.description.deep_view(),
            arguments: self.arguments.deep_view(),
            default_value: self.default_value.deep_view(),
            is_nullable: self.is_nullable,
            is_array: self.is_array,
            is_enum: self.is_enum,
            is_scalar: self.is_scalar,
            is_union: self.is_union,
        }
    }
}

/// An object type or an input object type.
pub struct ObjectType {
    pub name: String,
    pub fields: Vec<FieldData>,
    pub object_type: String,
    pub directives: Option<Vec<DirectiveData>>,
    pub description: Option<String>,
    pub implements: Option<Vec<String>>,
}

/// View of `ObjectType`.
pub struct ObjectTypeV {
    pub name: Seq<char>,
    pub fields: Seq<FieldDataV>,
    pub object_type: Seq<char>,
    pub directives: Option<Seq<DirectiveDataV>>,
    pub description: Option<Seq<char>>,
    pub implements: Option<Seq<Seq<char>>>,
}

impl DeepView for ObjectType {
    type V = ObjectTypeV;

    open spec fn deep_view(&self) -> ObjectTypeV {
        ObjectTypeV {
            name: self.name@,
            fields: self.fields.deep_view(),
            object_type: self.object_type@,
            directives: self.directives.deep_view(),
            description: self.description.deep_view(),
            implements: self.implements.deep_view(),
        }
    }
}

/// A selection in a selection set, with the selections nested in it.
pub struct Selection {
    pub name: String,
    pub selections: Option<Vec<Selection>>,
}

/// View of `Selection`.
pub enum SelectionV {
    Leaf(Seq<char>),
    Parent(Seq<char>, Seq<SelectionV>),
}

/// The view of a selection: a leaf when it has no nested selections, a parent otherwise.
pub open spec fn selection_view(s: Selection) -> SelectionV
    decreases s,
{
    match s.selections {
        None => SelectionV::Leaf(s.name@),
        Some(v) => SelectionV::Parent(
            s.name@,
            Seq::new(v@.len(), |i: int| if 0 <= i < v@.len() { selection_view(v@[i]) } else { SelectionV::Leaf(Seq::empty()) }),
        ),
    }
}

impl DeepView for Selection {
    type V = SelectionV;

    open spec fn deep_view(&self) -> SelectionV {
        selection_view(*self)
    }
}

/// An operation definition.
pub struct OperationType {
    pub name: String,
    pub fields: Vec<FieldData>,
    pub operation_type: String,
    pub directives: Option<Vec<DirectiveData>>,
    pub selection_sets: Vec<Vec<Selection>>,
}

/// View of `OperationType`.
pub struct OperationTypeV {
    pub name: Seq<char>,
    pub fields: Seq<FieldDataV>,
    pub operation_type: Seq<char>,
    pub directives: Option<Seq<DirectiveDataV>>,
    pub selection_sets: Seq<Seq<SelectionV>>,
}

impl DeepView for OperationType {
    type V = OperationTypeV;

    open spec fn deep_view(&self) -> OperationTypeV {
        OperationTypeV {
            name: self.name@,
            fields: self.fields.deep_view(),
            operation_type: self.operation_type@,
            directives: self.directives.deep_view(),
            selection_sets: self.selection_sets.deep_view(),
        }
    }
}

/// A directive definition.
pub struct Directive {
    pub name: String,
    pub repeatable: bool,
    pub description: Option<String>,
    pub arguments: Option<Vec<FieldArgumentData>>,
    pub locations: Vec<String>,
}

/// View of `Directive`.
pub struct DirectiveV {
    pub name: Seq<char>,
    pub repeatable: bool,
    pub description: Option<Seq<char>>,
    pub arguments: Option<Seq<FieldArgumentDataV>>,
    pub locations: Seq<Seq<char>>,
}

impl DeepView for Directive {
    type V = DirectiveV;

    open spec fn deep_view(&self) -> DirectiveV {
        DirectiveV {
            name: self.name@,
            repeatable: self.repeatable,
            description: self.description.deep_view(),
            arguments: self.arguments.deep_view(),
            locations: self.locations.deep_view(),
        }
    }
}

/// A union type.
pub struct UnionType {
    pub name: String,
    pub description: Option<String>,
    pub directives: Option<Vec<DirectiveData>>,
    pub member_types: Option<Vec<String>>,
}

/// View of `UnionType`.
pub struct UnionTypeV {
    pub name: Seq<char>,
    pub description: Option<Seq<char>>,
    pub directives: Option<Seq<DirectiveDataV>>,
    pub member_types: Option<Seq<Seq<char>>>,
}

impl DeepView for UnionType {
    type V = UnionTypeV;

    open spec fn deep_view(&self) -> UnionTypeV {
        UnionTypeV {
            name: self.name@,
            description: self.description.deep_view(),
            directives: self.directives.deep_view(),
            member_types: self.member_types.deep_view(),
        }
    }
}

/// A fragment definition.
pub struct Fragment {
    pub name: String,
    pub directives: Option<Vec<DirectiveData>>,
    pub selection_sets: Vec<Vec<Selection>>,
    pub on: String,
}

/// View of `Fragment`.
pub struct FragmentV {
    pub name: Seq<char>,
    pub directives: Option<Seq<DirectiveDataV>>,
    pub selection_sets: Seq<Seq<SelectionV>>,
    pub on: Seq<char>,
}

impl DeepView for Fragment {
    type V = FragmentV;

    open spec fn deep_view(&self) -> FragmentV {
        FragmentV {
            name: self.name@,
            directives: self.directives.deep_view(),
            selection_sets: self.selection_sets.deep_view(),
            on: self.on@,
        }
    }
}

/// A root operation of a schema definition: the operation's keyword line and its type.
pub struct SchemaOperationType {
    pub name: String,
    pub operation_type: String,
}

/// View of `SchemaOperationType`.
pub struct SchemaOperationTypeV {
    pub name: Seq<char>,
    pub operation_type: Seq<char>,
}

impl DeepView for SchemaOperationType {
    type V = SchemaOperationTypeV;

    open spec fn deep_view(&self) -> SchemaOperationTypeV {
        SchemaOperationTypeV { name: self.name@, operation_type: self.operation_type@ }
    }
}

/// A schema definition.
pub struct Schema {
    pub directives: Option<Vec<DirectiveData>>,
    pub description: Option<String>,
    pub root_operations: Vec<SchemaOperationType>,
}

/// View of `Schema`.
pub struct SchemaV {
    pub directives: Option<Seq<DirectiveDataV>>,
    pub description: Option<Seq<char>>,
    pub root_operations: Seq<SchemaOperationTypeV>,
}

impl DeepView for Schema {
    type V = SchemaV;

    open spec fn deep_view(&self) -> SchemaV {
        SchemaV {
            directives: self.directives.deep_view(),
            description: self.description.deep_view(),
            root_operations: self.root_operations.deep_view(),
        }
    }
}

/// A scalar type.
pub struct ScalarType {
    pub name: String,
    pub directives: Option<Vec<DirectiveData>>,
    pub description: Option<String>,
}

/// View of `ScalarType`.
pub struct ScalarTypeV {
    pub name: Seq<char>,
    pub directives: Option<Seq<DirectiveDataV>>,
    pub description: Option<Seq<char>>,
}

impl DeepView for ScalarType {
    type V = ScalarTypeV;

    open spec fn deep_view(&self) -> ScalarTypeV {
        ScalarTypeV {
            name: self.name@,
            directives: self.directives.deep_view(),
            description: self.description.deep_view(),
        }
    }
}

/// A value of an enum type.
pub struct EnumValueData {
    pub value: String,
    pub description: Option<String>,
    pub directives: Option<Vec<DirectiveData>>,
}

/// View of `EnumValueData`.
pub struct EnumValueDataV {
    pub value: Seq<char>,
    pub description: Option<Seq<char>>,
    pub directives: Option<Seq<DirectiveDataV>>,
}

impl DeepView for EnumValueData {
    type V = EnumValueDataV;

    open spec fn deep_view(&self) -> EnumValueDataV {
        EnumValueDataV {
            value: self.value@,
            description: self.description.deep_view(),
            directives: self.directives.deep_view(),
        }
    }
}

/// An enum type.
pub struct EnumType {
    pub name: String,
    pub values: Vec<EnumValueData>,
    pub directives: Option<Vec<DirectiveData>>,
    pub description: Option<String>,
}

/// View of `EnumType`.
pub struct EnumTypeV {
    pub name: Seq<char>,
    pub values: Seq<EnumValueDataV>,
    pub directives: Option<Seq<DirectiveDataV>>,
    pub description: Option<Seq<char>>,
}

impl DeepView for EnumType {
    type V = EnumTypeV;

    open spec fn deep_view(&self) -> EnumTypeV {
        EnumTypeV {
            name: self.name@,
            values: self.values.deep_view(),
            directives: self.directives.deep_view(),
            description: self.description.deep_view(),
        }
    }
}

/// An interface type.
pub struct InterfaceType {
    pub name: String,
    pub fields: Vec<FieldData>,
    pub directives: Option<Vec<DirectiveData>>,
    pub description: Option<String>,
    pub implements: Option<Vec<String>>,
}

/// View of `InterfaceType`.
pub struct InterfaceTypeV {
    pub name: Seq<char>,
    pub fields: Seq<FieldDataV>,
    pub directives: Option<Seq<DirectiveDataV>>,
    pub description: Option<Seq<char>>,
    pub implements: Option<Seq<Seq<char>>>,
}

impl DeepView for InterfaceType {
    type V = InterfaceTypeV;

    open spec fn deep_view(&self) -> InterfaceTypeV {
        InterfaceTypeV {
            name: self.name@,
            fields: self.fields.deep_view(),
            directives: self.directives.deep_view(),
            description: self.description.deep_view(),
            implements: self.implements.deep_view(),
        }
    }
}

/// Everything read from a schema, by kind; a kind with nothing in it is `None`.
pub struct SchemaData {
    pub operation_types: Option<Vec<OperationType>>,
    pub object_types: Option<Vec<ObjectType>>,
    pub input_object_types: Option<Vec<ObjectType>>,
    pub scalar_types: Option<Vec<ScalarType>>,
    pub enum_types: Option<Vec<EnumType>>,
    pub interface_types: Option<Vec<InterfaceType>>,
    pub union_types: Option<Vec<UnionType>>,
    pub directives: Option<Vec<Directive>>,
    pub fragments: Option<Vec<Fragment>>,
    pub schemas: Option<Vec<Schema>>,
}


/// View of `SchemaData`.
pub struct SchemaDataV {
    pub operation_types: Option<Seq<OperationTypeV>>,
    pub object_types: Option<Seq<ObjectTypeV>>,
    pub input_object_types: Option<Seq<ObjectTypeV>>,
    pub scalar_types: Option<Seq<ScalarTypeV>>,
    pub enum_types: Option<Seq<EnumTypeV>>,
    pub interface_types: Option<Seq<InterfaceTypeV>>,
    pub union_types: Option<Seq<UnionTypeV>>,
    pub directives: Option<Seq<DirectiveV>>,
    pub fragments: Option<Seq<FragmentV>>,
    pub schemas: Option<Seq<SchemaV>>,
}

impl DeepView for SchemaData {
    type V = SchemaDataV;

    open spec fn deep_view(&self) -> SchemaDataV {
        SchemaDataV {
            operation_types: self.operation_types.deep_view(),
            object_types: self.object_types.deep_view(),
            input_object_types: self.input_object_types.deep_view(),
            scalar_types: self.scalar_types.deep_view(),
            enum_types: self.enum_types.deep_view(),
            interface_types: self.interface_types.deep_view(),
            union_types: self.union_types.deep_view(),
            directives: self.directives.deep_view(),
            fragments: self.fragments.deep_view(),
            schemas: self.schemas.deep_view(),
        }
    }
}

} // verus!
