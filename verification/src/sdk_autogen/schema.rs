//! What the generator reads of a JSON schema, and the TypeScript type that
//! stands for the field of a message.

use vstd::prelude::*;
use vstd::string::StringExecFns;
use super::sdk_maker::{referenced_type, type_name_of_reference};
use super::type_names::{make_type_name, name_of_type};

verus! {

/// A kind of JSON value that a schema admits.
#[derive(Debug, Clone, Copy, PartialEq, Eq)]
pub enum InstanceKind {
    Null,
    Boolean,
    Object,
    Array,
    Number,
    String,
    Integer,
}

/// The kinds of value that a schema admits: one kind, or a list of kinds.
#[derive(Debug, Clone, PartialEq, Eq)]
pub enum InstanceTypes {
    Single(InstanceKind),
    Several(Vec<InstanceKind>),
}

/// The items of an array: of one schema, of a schema for each place, or
/// not described.
#[derive(Debug)]
pub enum ArrayItems {
    Unspecified,
    Single(Box<SchemaModel>),
    Several,
}

/// What a schema says of an array.
#[derive(Debug)]
pub struct ArrayModel {
    pub items: ArrayItems,
    pub min_items: Option<u32>,
    pub max_items: Option<u32>,
}

/// A property of an object: its name and its schema.
#[derive(Debug)]
pub struct PropertyModel {
    pub name: String,
    pub schema: SchemaModel,
}

/// What a schema says of an object: its properties, in the order of their
/// names, and the names of those that are required.
#[derive(Debug)]
pub struct ObjectModel {
    pub properties: Vec<PropertyModel>,
    pub required: Vec<String>,
}

/// What a schema that is an object says, as far as the generator reads it.
/// A value of `enum_values` that is no text is `None`.
#[derive(Debug)]
pub struct SchemaObjectModel {
    pub description: Option<String>,
    pub instance_types: Option<InstanceTypes>,
    pub enum_values: Option<Vec<Option<String>>>,
    pub array: Option<ArrayModel>,
    pub object: Option<ObjectModel>,
    pub reference: Option<String>,
    pub all_of: Option<Vec<SchemaModel>>,
    pub any_of: Option<Vec<SchemaModel>>,
    pub one_of: Option<Vec<SchemaModel>>,
}

/// A JSON schema: a bare `true` or `false`, or an object.
#[derive(Debug)]
pub enum SchemaModel {
    Bool,
    Object(SchemaObjectModel),
}

/// Why no type can be given for a field.
#[derive(Debug, Clone, Copy, PartialEq, Eq)]
pub enum SchemaFault {
    /// The field is neither a reference to a type nor a primitive.
    UnknownField,
    /// The field is an array whose items are not all of one schema.
    MultiTypedArray,
}

/// Why no code can be generated, with the names of what is at fault: the
/// message type, then its variant, then the field of the variant; for a
/// malformed variant the message type and what is wrong with it.
#[derive(Debug, Clone, PartialEq, Eq)]
pub enum SdkError {
    UnknownEnumVariantField(String, String, String),
    EnumVariantFieldHasMultiTypedArray(String, String, String),
    MsgTypeNotEnum(String),
    MalformedEnumVariant(String, String),
    EnumNamedFieldsExpected(String, String),
}

/// The model of a refusal.
pub enum SdkFault {
    UnknownEnumVariantField(Seq<char>, Seq<char>, Seq<char>),
    EnumVariantFieldHasMultiTypedArray(Seq<char>, Seq<char>, Seq<char>),
    MsgTypeNotEnum(Seq<char>),
    MalformedEnumVariant(Seq<char>, Seq<char>),
    EnumNamedFieldsExpected(Seq<char>, Seq<char>),
}

impl View for SdkError {
    type V = SdkFault;

    open spec fn view(&self) -> SdkFault {
        match self {
            SdkError::UnknownEnumVariantField(a, b, c) => SdkFault::UnknownEnumVariantField(
                a@,
                b@,
                c@,
            ),
            SdkError::EnumVariantFieldHasMultiTypedArray(a, b, c) =>
                SdkFault::EnumVariantFieldHasMultiTypedArray(a@, b@, c@),
            SdkError::MsgTypeNotEnum(a) => SdkFault::MsgTypeNotEnum(a@),
            SdkError::MalformedEnumVariant(a, b) => SdkFault::MalformedEnumVariant(a@, b@),
            SdkError::EnumNamedFieldsExpected(a, b) => SdkFault::EnumNamedFieldsExpected(a@, b@),
        }
    }
}

/// The refusal of the field of a variant of a message type.
pub open spec fn field_fault(
    fault: SchemaFault,
    msg_type_name: Seq<char>,
    msg_enum_variant: Seq<char>,
    field: Seq<char>,
) -> SdkFault {
    match fault {
        SchemaFault::UnknownField => SdkFault::UnknownEnumVariantField(
            msg_type_name,
            msg_enum_variant,
            field,
        ),
        SchemaFault::MultiTypedArray => SdkFault::EnumVariantFieldHasMultiTypedArray(
            msg_type_name,
            msg_enum_variant,
            field,
        ),
    }
}

/// The TypeScript name of a kind of value; an object or an array has none.
pub open spec fn kind_name(kind: InstanceKind) -> Option<Seq<char>> {
    match kind {
        InstanceKind::Null => Some("null"@),
        InstanceKind::Boolean => Some("boolean"@),
        InstanceKind::Number => Some("number"@),
        InstanceKind::String => Some("string"@),
        InstanceKind::Integer => Some("number"@),
        InstanceKind::Object => None,
        InstanceKind::Array => None,
    }
}

/// The kinds as a sequence.
pub open spec fn kinds_of(kinds: InstanceTypes) -> Seq<InstanceKind> {
    match kinds {
        InstanceTypes::Single(kind) => seq![kind],
        InstanceTypes::Several(list) => list@,
    }
}

/// Every kind has a TypeScript name.
pub open spec fn all_named(kinds: Seq<InstanceKind>) -> bool {
    forall|i: int| 0 <= i < kinds.len() ==> (#[trigger] kind_name(kinds[i])).is_some()
}

/// The names of the kinds with ` | ` between them.
pub open spec fn union_text(kinds: Seq<InstanceKind>) -> Seq<char>
    decreases kinds.len(),
{
    if kinds.len() == 0 {
        Seq::<char>::empty()
    } else if kinds.len() == 1 {
        kind_name(kinds[0]).unwrap()
    } else {
        union_text(kinds.drop_last()) + " | "@ + kind_name(kinds.last()).unwrap()
    }
}

/// `times` times a comma, a blank and `item`.
pub open spec fn repeated(item: Seq<char>, times: nat) -> Seq<char>
    decreases times,
{
    if times == 0 {
        Seq::<char>::empty()
    } else {
        repeated(item, (times - 1) as nat) + ", "@ + item
    }
}

/// The number of items of an array of a fixed length: the greatest number
/// of items, where the least number is the same (zero where none is given).
pub open spec fn fixed_length(min_items: Option<u32>, max_items: Option<u32>) -> Option<u32> {
    match max_items {
        Some(max) => if max == (match min_items {
            Some(min) => min,
            None => 0u32,
        }) {
            Some(max)
        } else {
            None
        },
        None => None,
    }
}

/// The type of an array of items of the type `item`: a tuple with the item
/// once for each place (and once where there is no place) for an array of
/// a fixed length, and `item[]` for any other.
pub open spec fn array_text(item: Seq<char>, min_items: Option<u32>, max_items: Option<u32>) -> Seq<
    char,
> {
    match fixed_length(min_items, max_items) {
        Some(length) => "["@ + item + repeated(
            item,
            if length >= 1 {
                (length - 1) as nat
            } else {
                0
            },
        ) + "]"@,
        None => item + "[]"@,
    }
}

/// The name of the type that an optional reference names.
pub open spec fn reference_name(reference: Option<String>) -> Option<Seq<char>> {
    match reference {
        Some(r) => match referenced_type(r@) {
            Some(named) => Some(name_of_type(named)),
            None => None,
        },
        None => None,
    }
}

/// The reference that a schema holds, where it is an object.
pub open spec fn object_reference(schema: SchemaModel) -> Option<String> {
    match schema {
        SchemaModel::Object(object) => object.reference,
        SchemaModel::Bool => None,
    }
}

/// The schema admits `null` and nothing else.
pub open spec fn is_null_only(schema: SchemaModel) -> bool {
    match schema {
        SchemaModel::Object(object) => object.instance_types == Some(
            InstanceTypes::Single(InstanceKind::Null),
        ),
        SchemaModel::Bool => false,
    }
}

/// The type that a list of one reference names.
pub open spec fn sole_reference(all_of: Option<Vec<SchemaModel>>) -> Option<Seq<char>> {
    match all_of {
        Some(list) => if list@.len() == 1 {
            reference_name(object_reference(list@[0]))
        } else {
            None
        },
        None => None,
    }
}

/// The type that a reference names which stands beside `null`: the list
/// holds the reference and then a schema that admits `null` only.
pub open spec fn nullable_reference(any_of: Option<Vec<SchemaModel>>) -> Option<Seq<char>> {
    match any_of {
        Some(list) => if list@.len() == 2 && is_null_only(list@[1]) {
            reference_name(object_reference(list@[0]))
        } else {
            None
        },
        None => None,
    }
}

/// The TypeScript type of a field with the given schema, and the type that
/// the generated code has to import for it, if any.
///
/// A bare schema is `any`. An array is a tuple or `item[]` of the type of
/// its items, which must all be of one schema. A schema that lists kinds of
/// values is the union of their names, and is refused where an object or an
/// array is among them. Otherwise the schema must name a type: by a
/// reference, by a list of one reference, or by a reference beside `null`,
/// which gives the type or `null`.
pub open spec fn type_string(schema: SchemaModel) -> Result<
    (Seq<char>, Option<Seq<char>>),
    SchemaFault,
>
    decreases schema,
{
    match schema {
        SchemaModel::Bool => Ok(("any"@, None)),
        SchemaModel::Object(object) => match object.array {
            Some(array) => match array.items {
                ArrayItems::Single(inner) => match type_string(*inner) {
                    Ok((item, required)) => Ok(
                        (array_text(item, array.min_items, array.max_items), required),
                    ),
                    Err(fault) => Err(fault),
                },
                _ => Err(SchemaFault::MultiTypedArray),
            },
            None => match object.instance_types {
                Some(kinds) => if all_named(kinds_of(kinds)) {
                    Ok((union_text(kinds_of(kinds)), None))
                } else {
                    Err(SchemaFault::UnknownField)
                },
                None => match reference_name(object.reference) {
                    Some(name) => Ok((name, Some(name))),
                    None => match sole_reference(object.all_of) {
                        Some(name) => Ok((name, Some(name))),
                        None => match nullable_reference(object.any_of) {
                            Some(name) => Ok((name + " | null"@, Some(name))),
                            None => Err(SchemaFault::UnknownField),
                        },
                    },
                },
            },
        },
    }
}

/// What the texts of a list hold.
pub open spec fn texts(list: Seq<String>) -> Seq<Seq<char>> {
    Seq::new(list.len(), |i: int| list[i]@)
}

/// The list with one more text, where there is one.
pub open spec fn with_required(list: Seq<Seq<char>>, required: Option<Seq<char>>) -> Seq<
    Seq<char>,
> {
    match required {
        Some(name) => list.push(name),
        None => list,
    }
}

/// The name of a kind of value.
fn name_of_kind(kind: InstanceKind) -> (name: Option<&'static str>)
    ensures
        match name {
            Some(text) => kind_name(kind) == Some(text@),
            None => kind_name(kind).is_none(),
        },
{
    match kind {
        InstanceKind::Null => Some("null"),
        InstanceKind::Boolean => Some("boolean"),
        InstanceKind::Number => Some("number"),
        InstanceKind::String => Some("string"),
        InstanceKind::Integer => Some("number"),
        InstanceKind::Object => None,
        InstanceKind::Array => None,
    }
}

/// The union of the names of the kinds, or `None` where one has no name.
fn union_of_kinds(kinds: &[InstanceKind]) -> (text: Option<String>)
    ensures
        match text {
            Some(t) => all_named(kinds@) && t@ == union_text(kinds@),
            None => !all_named(kinds@),
        },
{
    let mut result = String::new();
    let mut i: usize = 0;
    assert(kinds@.take(0) =~= Seq::<InstanceKind>::empty());
    while i < kinds.len()
        invariant
            i <= kinds.len(),
            all_named(kinds@.take(i as int)),
            result@ == union_text(kinds@.take(i as int)),
        decreases kinds.len() - i,
    {
        let name = match name_of_kind(kinds[i]) {
            Some(name) => name,
            None => {
                return None;
            },
        };
        let ghost before = result@;
        if i > 0 {
            result.append(" | ");
        }
        result.append(name);
        proof {
            let next = kinds@.take(i + 1);
            assert(next.drop_last() =~= kinds@.take(i as int));
            assert(next.last() == kinds@[i as int]);
            if i == 0 {
                assert(before =~= Seq::<char>::empty());
                assert(result@ =~= name@);
            } else {
                assert(result@ =~= before + " | "@ + name@);
            }
            assert forall|j: int| 0 <= j < next.len() implies (#[trigger] kind_name(
                next[j],
            )).is_some() by {
                if j < i {
                    assert(kinds@.take(i as int)[j] == next[j]);
                }
            }
        }
        i += 1;
    }
    assert(kinds@.take(i as int) =~= kinds@);
    Some(result)
}

/// The type of an array of items of the type `item`.
fn text_of_array(item: String, min_items: Option<u32>, max_items: Option<u32>) -> (text: String)
    ensures
        text@ == array_text(item@, min_items, max_items),
{
    let least: u32 = match min_items {
        Some(min) => min,
        None => 0,
    };
    match max_items {
        Some(length) => {
            if length == least {
                let mut result = "[".to_owned();
                result.append(item.as_str());
                assert(result@ =~= "["@ + item@ + repeated(item@, 0));
                let mut i: u32 = 1;
                while i < length
                    invariant
                        1 <= i,
                        i <= length || (length == 0 && i == 1),
                        result@ == "["@ + item@ + repeated(item@, (i - 1) as nat),
                    decreases length - i,
                {
                    let ghost before = result@;
                    result.append(", ");
                    result.append(item.as_str());
                    assert(result@ =~= "["@ + item@ + repeated(item@, i as nat));
                    i += 1;
                }
                result.append("]");
                assert(fixed_length(min_items, max_items) == Some(length));
                assert(i - 1 == (if length >= 1 {
                    (length - 1) as nat
                } else {
                    0
                }));
                return result;
            }
        },
        None => {},
    }
    let mut result = item;
    result.append("[]");
    result
}

/// The name of the type that an optional reference names.
fn name_of_reference(reference: &Option<String>) -> (name: Option<String>)
    ensures
        match name {
            Some(n) => reference_name(*reference) == Some(n@),
            None => reference_name(*reference).is_none(),
        },
{
    match reference {
        Some(r) => match type_name_of_reference(r.as_str()) {
            Some(named) => Some(make_type_name(named.as_str())),
            None => None,
        },
        None => None,
    }
}

/// The name of the type that the reference of a schema names.
fn name_of_schema_reference(schema: &SchemaModel) -> (name: Option<String>)
    ensures
        match name {
            Some(n) => reference_name(object_reference(*schema)) == Some(n@),
            None => reference_name(object_reference(*schema)).is_none(),
        },
{
    match schema {
        SchemaModel::Object(object) => name_of_reference(&object.reference),
        SchemaModel::Bool => None,
    }
}

/// Whether the schema admits `null` and nothing else.
fn admits_null_only(schema: &SchemaModel) -> (null_only: bool)
    ensures
        null_only == is_null_only(*schema),
{
    match schema {
        SchemaModel::Object(object) => match &object.instance_types {
            Some(InstanceTypes::Single(InstanceKind::Null)) => true,
            _ => false,
        },
        SchemaModel::Bool => false,
    }
}

/// The refusal of a field for the given reason.
fn refusal(fault: SchemaFault, msg_type_name: &str, msg_enum_variant: &str, field: &str) -> (error:
    SdkError)
    ensures
        error@ == field_fault(fault, msg_type_name@, msg_enum_variant@, field@),
{
    match fault {
        SchemaFault::UnknownField => SdkError::UnknownEnumVariantField(
            msg_type_name.to_owned(),
            msg_enum_variant.to_owned(),
            field.to_owned(),
        ),
        SchemaFault::MultiTypedArray => SdkError::EnumVariantFieldHasMultiTypedArray(
            msg_type_name.to_owned(),
            msg_enum_variant.to_owned(),
            field.to_owned(),
        ),
    }
}

/// Adds `name` to the types to import.
pub(crate) fn require(required_types: &mut Vec<String>, name: &String)
    ensures
        texts(final(required_types)@) == texts(old(required_types)@).push(name@),
{
    required_types.push(name.clone());
    assert(texts(required_types@) =~= texts(old(required_types)@).push(name@));
}

/// The TypeScript type of the field of a variant of a message, by the
/// schema of the field. A type that the generated code has to import for
/// it is added to `required_types`. A field that has no type is refused
/// with the names of the message type, of the variant and of the field,
/// and `required_types` stays as it was.
pub fn schema_type_string(
    schema: &SchemaModel,
    msg_type_name: &str,
    msg_enum_variant: &str,
    msg_enum_variant_field: &str,
    required_types: &mut Vec<String>,
) -> (result: Result<String, SdkError>)
    ensures
        match result {
            Ok(text) => {
                &&& type_string(*schema) matches Ok((expected, required))
                &&& text@ == expected
                &&& texts(final(required_types)@) == with_required(
                    texts(old(required_types)@),
                    required,
                )
            },
            Err(error) => {
                &&& type_string(*schema) matches Err(fault)
                &&& error@ == field_fault(
                    fault,
                    msg_type_name@,
                    msg_enum_variant@,
                    msg_enum_variant_field@,
                )
                &&& final(required_types)@ == old(required_types)@
            },
        },
    decreases schema,
{
    let object = match schema {
        SchemaModel::Bool => {
            return Ok("any".to_owned());
        },
        SchemaModel::Object(object) => object,
    };
    if let Some(array) = &object.array {
        let inner = match &array.items {
            ArrayItems::Single(inner) => inner,
            _ => {
                return Err(
                    refusal(
                        SchemaFault::MultiTypedArray,
                        msg_type_name,
                        msg_enum_variant,
                        msg_enum_variant_field,
                    ),
                );
            },
        };
        let item = match schema_type_string(
            inner,
            msg_type_name,
            msg_enum_variant,
            msg_enum_variant_field,
            required_types,
        ) {
            Ok(item) => item,
            Err(error) => {
                return Err(error);
            },
        };
        return Ok(text_of_array(item, array.min_items, array.max_items));
    }
    if let Some(kinds) = &object.instance_types {
        let union = match kinds {
            InstanceTypes::Single(kind) => {
                let one = [*kind];
                assert(one@ =~= seq![*kind]);
                union_of_kinds(one.as_slice())
            },
            InstanceTypes::Several(list) => union_of_kinds(list.as_slice()),
        };
        return match union {
            Some(text) => Ok(text),
            None => Err(
                refusal(
                    SchemaFault::UnknownField,
                    msg_type_name,
                    msg_enum_variant,
                    msg_enum_variant_field,
                ),
            ),
        };
    }
    if let Some(name) = name_of_reference(&object.reference) {
        require(required_types, &name);
        return Ok(name);
    }
    if let Some(list) = &object.all_of {
        if list.len() == 1 {
            if let Some(name) = name_of_schema_reference(&list[0]) {
                require(required_types, &name);
                return Ok(name);
            }
        }
    }
    if let Some(list) = &object.any_of {
        if list.len() == 2 && admits_null_only(&list[1]) {
            if let Some(name) = name_of_schema_reference(&list[0]) {
                require(required_types, &name);
                let mut text = name;
                text.append(" | null");
                return Ok(text);
            }
        }
    }
    Err(
        refusal(
            SchemaFault::UnknownField,
            msg_type_name,
            msg_enum_variant,
            msg_enum_variant_field,
        ),
    )
}

} // verus!
