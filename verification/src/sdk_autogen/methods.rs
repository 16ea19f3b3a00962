//! The TypeScript methods that are generated for the variants of a message
//! type: one method for each variant, by what the schema says of it.

use vstd::prelude::*;
use vstd::string::{StrSliceExecFns, StringExecFns};
use super::schema::{
    field_fault, require, schema_type_string, texts, type_string, with_required, InstanceKind,
    InstanceTypes, ObjectModel, PropertyModel, SchemaModel, SchemaObjectModel, SdkError, SdkFault,
};
use super::sdk_maker::{referenced_type, type_name_of_reference};
use super::strings_for_code::MethodGenType;
use super::type_names::{chars_of, make_type_name, name_of_type, text_of};

verus! {

/// The text with its characters escaped as `str::escape_default` has them.
pub uninterp spec fn escaped_default(text: Seq<char>) -> Seq<char>;

/// `str::escape_default` of std, collected into a text.
#[verifier::external_body]
fn escape_default(text: &str) -> (escaped: String)
    ensures
        escaped@ == escaped_default(text@),
{
    text.escape_default().to_string()
}

/// The text with a blank between the `*` and the `/` wherever the two
/// follow each other, so that it ends no comment.
pub open spec fn comment_safe(text: Seq<char>) -> Seq<char>
    decreases text.len(),
{
    if text.len() == 0 {
        text
    } else if text.len() >= 2 && text[0] == '*' && text[1] == '/' {
        seq!['*', ' ', '/'] + comment_safe(text.skip(2))
    } else {
        seq![text[0]] + comment_safe(text.skip(1))
    }
}

/// The text with a blank between the `*` and the `/` wherever the two
/// follow each other.
pub fn make_comment_safe(text: &str) -> (safe: String)
    ensures
        safe@ == comment_safe(text@),
{
    let chars = chars_of(text);
    let len = chars.len();
    let mut out: Vec<char> = Vec::new();
    let mut i: usize = 0;
    assert(chars@.skip(0) =~= chars@);
    while i < len
        invariant
            i <= len,
            len == chars@.len(),
            out@ + comment_safe(chars@.skip(i as int)) == comment_safe(chars@),
        decreases len - i,
    {
        let ghost rest = chars@.skip(i as int);
        let ghost before = out@;
        if i + 1 < len && chars[i] == '*' && chars[i + 1] == '/' {
            out.push('*');
            out.push(' ');
            out.push('/');
            proof {
                assert(rest.skip(2) =~= chars@.skip(i + 2));
                assert(out@ + comment_safe(chars@.skip(i + 2)) =~= before + comment_safe(rest));
            }
            i += 2;
        } else {
            out.push(chars[i]);
            proof {
                assert(rest.skip(1) =~= chars@.skip(i + 1));
                assert(out@ + comment_safe(chars@.skip(i + 1)) =~= before + comment_safe(rest));
            }
            i += 1;
        }
    }
    assert(out@ =~= out@ + comment_safe(chars@.skip(i as int)));
    text_of(&out)
}

/// The arguments of a variant of a message: none, named fields, or a value
/// of a type that the schema defines.
#[derive(Debug, Clone, Copy)]
pub enum MethodArgType<'a> {
    NoArgs,
    Object(&'a ObjectModel),
    TypeRef(&'a str),
}

/// The model of the arguments of a variant.
pub enum ArgsModel {
    NoArgs,
    Object(ObjectModel),
    TypeRef(Seq<char>),
}

impl<'a> View for MethodArgType<'a> {
    type V = ArgsModel;

    open spec fn view(&self) -> ArgsModel {
        match self {
            MethodArgType::NoArgs => ArgsModel::NoArgs,
            MethodArgType::Object(object) => ArgsModel::Object(**object),
            MethodArgType::TypeRef(name) => ArgsModel::TypeRef(name@),
        }
    }
}

impl ArgsModel {
    /// The variant has named fields, of which there are none.
    pub open spec fn is_empty_object(&self) -> bool {
        match self {
            ArgsModel::Object(object) => object.properties@.len() == 0,
            _ => false,
        }
    }
}

impl<'a> MethodArgType<'a> {
    /// Whether the variant has no arguments.
    pub fn is_none(&self) -> (none: bool)
        ensures
            none == (self@ is NoArgs),
    {
        match self {
            MethodArgType::NoArgs => true,
            _ => false,
        }
    }

    /// Whether the variant has arguments.
    pub fn is_some(&self) -> (some: bool)
        ensures
            some == !(self@ is NoArgs),
    {
        match self {
            MethodArgType::NoArgs => false,
            _ => true,
        }
    }

    /// Whether the variant has named fields, of which there are none.
    pub fn is_empty_object(&self) -> (empty: bool)
        ensures
            empty == self@.is_empty_object(),
    {
        match self {
            MethodArgType::Object(object) => object.properties.len() == 0,
            _ => false,
        }
    }
}

/// What is generated: the code, or why there is none, and the types that
/// the code has to import, in the order in which they came up.
pub struct Generated {
    pub text: Result<Seq<char>, SdkFault>,
    pub required: Seq<Seq<char>>,
}

/// No code, and nothing to import.
pub open spec fn nothing() -> Generated {
    Generated { text: Ok(Seq::empty()), required: Seq::empty() }
}

/// Only a refusal.
pub open spec fn refused(fault: SdkFault) -> Generated {
    Generated { text: Err(fault), required: Seq::empty() }
}

/// `first` and then `next`: the code of the one followed by that of the
/// other. A refusal ends it: what would have followed is not looked at.
pub open spec fn followed_by(first: Generated, next: Generated) -> Generated {
    match first.text {
        Err(_) => first,
        Ok(text) => Generated {
            text: match next.text {
                Ok(more) => Ok(text + more),
                Err(fault) => Err(fault),
            },
            required: first.required + next.required,
        },
    }
}

/// What was generated so far, followed by a step and then the rest, is
/// what was generated with that step, followed by the rest.
proof fn lemma_followed_by_step(text: Seq<char>, required: Seq<Seq<char>>, step: Generated, rest:
    Generated)
    requires
        step.text is Ok,
    ensures
        followed_by(Generated { text: Ok(text), required }, followed_by(step, rest)) == followed_by(
            Generated { text: Ok(text + step.text->Ok_0), required: required + step.required },
            rest,
        ),
{
    let more = step.text->Ok_0;
    match rest.text {
        Ok(last) => {
            assert(text + (more + last) =~= (text + more) + last);
        },
        Err(_) => {},
    }
    assert(required + (step.required + rest.required) =~= (required + step.required)
        + rest.required);
}

/// Some text in the list is `name`.
pub open spec fn names_contain(names: Seq<String>, name: Seq<char>) -> bool {
    exists|i: int| 0 <= i < names.len() && (#[trigger] names[i])@ == name
}

/// Whether some text in the list is `name`.
fn contains_name(names: &Vec<String>, name: &String) -> (found: bool)
    ensures
        found == names_contain(names@, name@),
{
    let mut i: usize = 0;
    while i < names.len()
        invariant
            i <= names.len(),
            forall|j: int| 0 <= j < i ==> (#[trigger] names@[j])@ != name@,
        decreases names.len() - i,
    {
        if names[i] == *name {
            return true;
        }
        i += 1;
    }
    false
}

/// The description that a schema carries, if it is an object with one.
pub open spec fn described(schema: SchemaModel) -> Option<Seq<char>> {
    match schema {
        SchemaModel::Object(object) => match object.description {
            Some(text) => Some(text@),
            None => None,
        },
        SchemaModel::Bool => None,
    }
}

/// The description that a schema carries.
fn description_of(schema: &SchemaModel) -> (description: Option<&str>)
    ensures
        match description {
            Some(text) => described(*schema) == Some(text@),
            None => described(*schema).is_none(),
        },
{
    match schema {
        SchemaModel::Object(object) => match &object.description {
            Some(text) => Some(text.as_str()),
            None => None,
        },
        SchemaModel::Bool => None,
    }
}

/// The line of a field among the arguments of a method: a comment with the
/// description of the field, where it has one; then the name in quotes, a
/// `?` unless the field is required, and the type; and a comma unless the
/// field is the last one.
pub open spec fn field_code(
    property: PropertyModel,
    type_text: Seq<char>,
    required: bool,
    last: bool,
) -> Seq<char> {
    (match described(property.schema) {
        Some(description) => "\t\t/** "@ + description + " */\n"@,
        None => Seq::<char>::empty(),
    }) + "\t\t\""@ + escaped_default(property.name@) + "\""@ + (if required {
        ""@
    } else {
        "?"@
    }) + ": "@ + type_text + (if last {
        "\n"@
    } else {
        ",\n"@
    })
}

/// The types to import, as a list.
pub open spec fn listed(required: Option<Seq<char>>) -> Seq<Seq<char>> {
    match required {
        Some(name) => seq![name],
        None => Seq::empty(),
    }
}

/// What is generated for one field of a variant.
pub open spec fn field_generated(
    object: ObjectModel,
    index: int,
    msg_type_name: Seq<char>,
    msg_enum_variant: Seq<char>,
) -> Generated {
    let property = object.properties@[index];
    match type_string(property.schema) {
        Ok((type_text, required)) => Generated {
            text: Ok(
                field_code(
                    property,
                    type_text,
                    names_contain(object.required@, property.name@),
                    index + 1 == object.properties@.len(),
                ),
            ),
            required: listed(required),
        },
        Err(fault) => refused(field_fault(fault, msg_type_name, msg_enum_variant, property.name@)),
    }
}

/// What is generated for the fields of a variant from `index` on.
pub open spec fn fields_generated(
    object: ObjectModel,
    index: int,
    msg_type_name: Seq<char>,
    msg_enum_variant: Seq<char>,
) -> Generated
    decreases object.properties@.len() - index,
{
    if 0 <= index < object.properties@.len() {
        followed_by(
            field_generated(object, index, msg_type_name, msg_enum_variant),
            fields_generated(object, index + 1, msg_type_name, msg_enum_variant),
        )
    } else {
        nothing()
    }
}

/// `", "` where the extra arguments come first.
pub open spec fn comma_after_extra(kind: MethodGenType) -> Seq<char> {
    if kind is Cw20Hook {
        ", "@
    } else {
        Seq::<char>::empty()
    }
}

/// `", "` where extra arguments come last.
pub open spec fn comma_before_extra(kind: MethodGenType) -> Seq<char> {
    if !(kind is Cw20Hook) && kind.extra_args().len() > 0 {
        ", "@
    } else {
        Seq::<char>::empty()
    }
}

/// The arguments of the method that the variant itself gives: `args` with
/// the fields of the variant or with the name of its type, and nothing for
/// a variant without fields.
pub open spec fn args_code(args: ArgsModel, kind: MethodGenType, fields: Seq<char>) -> Seq<char> {
    match args {
        ArgsModel::NoArgs => Seq::<char>::empty(),
        ArgsModel::Object(object) => if object.properties@.len() == 0 {
            Seq::<char>::empty()
        } else {
            comma_after_extra(kind) + "args: {\n"@ + fields + "\t}"@ + (if object.required@.len()
                == 0 {
                " = {}"@
            } else {
                Seq::<char>::empty()
            }) + comma_before_extra(kind)
        },
        ArgsModel::TypeRef(name) => comma_after_extra(kind) + "args: "@ + name
            + comma_before_extra(kind),
    }
}

/// The message that the method sends: the variant alone where it has no
/// arguments, and else an object with the arguments under the variant.
pub open spec fn message_code(args: ArgsModel, msg_enum_variant: Seq<char>) -> Seq<char> {
    if args.is_empty_object() {
        "{\""@ + escaped_default(msg_enum_variant) + "\": {}}"@
    } else if !(args is NoArgs) {
        "{\""@ + escaped_default(msg_enum_variant) + "\": args}"@
    } else {
        "\""@ + escaped_default(msg_enum_variant) + "\""@
    }
}

/// The comment above a method: its description, made safe for a comment;
/// nothing where there is no description.
pub open spec fn comment_code(description: Seq<char>) -> Seq<char> {
    if description.len() > 0 {
        "\t/** "@ + comment_safe(description) + " */\n"@
    } else {
        Seq::<char>::empty()
    }
}

/// The extra arguments of the method, where they stand at the given end.
pub open spec fn extra_code(kind: MethodGenType, first: bool) -> Seq<char> {
    if (kind is Cw20Hook) == first {
        kind.extra_args()
    } else {
        Seq::<char>::empty()
    }
}

/// The return type as the method declares it: that of a query is promised.
pub open spec fn return_code(kind: MethodGenType, returned: Seq<char>) -> Seq<char> {
    if kind is Query {
        "Promise<"@ + returned + ">"@
    } else {
        returned
    }
}

/// The method with the given code for its fields.
pub open spec fn method_code(
    msg_type_name: Seq<char>,
    msg_enum_variant: Seq<char>,
    args: ArgsModel,
    kind: MethodGenType,
    description: Seq<char>,
    fields: Seq<char>,
) -> Seq<char> {
    comment_code(description) + "\t"@ + kind.method_name(msg_enum_variant) + "("@ + extra_code(
        kind,
        true,
    ) + args_code(args, kind, fields) + extra_code(kind, false) + "): "@ + return_code(
        kind,
        name_of_type(kind.returned_type(msg_enum_variant)),
    ) + " {\n"@ + "\t\tconst msg = "@ + message_code(args, msg_enum_variant) + " satisfies "@
        + msg_type_name + ";\n"@ + "\t\treturn "@ + kind.parent_call() + ";\n"@ + "\t}\n"@
}

/// What is generated for the fields of the variant.
pub open spec fn args_generated(
    args: ArgsModel,
    msg_type_name: Seq<char>,
    msg_enum_variant: Seq<char>,
) -> Generated {
    match args {
        ArgsModel::Object(object) => fields_generated(object, 0, msg_type_name, msg_enum_variant),
        _ => nothing(),
    }
}

/// The types that the method needs besides those of its fields: the type
/// of its argument, where that is a defined type, and its return type.
pub open spec fn method_required(
    args: ArgsModel,
    kind: MethodGenType,
    msg_enum_variant: Seq<char>,
) -> Seq<Seq<char>> {
    (match args {
        ArgsModel::TypeRef(name) => seq![name_of_type(name)],
        _ => Seq::<Seq<char>>::empty(),
    }) + seq![name_of_type(kind.returned_type(msg_enum_variant))]
}

/// What is generated for a variant of a message: the method that builds or
/// sends the message, and the types that it names. A field without a type
/// is refused, and the types of the fields before it were noted.
pub open spec fn method_generated(
    msg_type_name: Seq<char>,
    msg_enum_variant: Seq<char>,
    args: ArgsModel,
    kind: MethodGenType,
    description: Seq<char>,
) -> Generated {
    let fields = args_generated(args, msg_type_name, msg_enum_variant);
    match fields.text {
        Ok(text) => Generated {
            text: Ok(
                method_code(msg_type_name, msg_enum_variant, args, kind, description, text),
            ),
            required: fields.required + method_required(args, kind, msg_enum_variant),
        },
        Err(_) => fields,
    }
}

/// The line of one field.
fn code_of_field(property: &PropertyModel, type_text: &String, required: bool, last: bool) -> (line:
    String)
    ensures
        line@ == field_code(*property, type_text@, required, last),
{
    let mut line = String::new();
    match description_of(&property.schema) {
        Some(description) => {
            line.append("\t\t/** ");
            line.append(description);
            line.append(" */\n");
        },
        None => {},
    }
    let ghost comment = line@;
    line.append("\t\t\"");
    line.append(escape_default(property.name.as_str()).as_str());
    line.append("\"");
    line.append(
        if required {
            ""
        } else {
            "?"
        },
    );
    line.append(": ");
    line.append(type_text.as_str());
    line.append(
        if last {
            "\n"
        } else {
            ",\n"
        },
    );
    proof {
        match described(property.schema) {
            Some(description) => {
                assert(comment =~= "\t\t/** "@ + description + " */\n"@);
            },
            None => {
                assert(comment =~= Seq::<char>::empty());
            },
        }
    }
    line
}

/// The lines of the fields of a variant. The types that they name are
/// added to `required_types`, up to the field that has no type.
fn code_of_fields(
    required_types: &mut Vec<String>,
    msg_type_name: &str,
    msg_enum_variant: &str,
    object: &ObjectModel,
) -> (result: Result<String, SdkError>)
    ensures
        texts(final(required_types)@) == texts(old(required_types)@) + fields_generated(
            *object,
            0,
            msg_type_name@,
            msg_enum_variant@,
        ).required,
        match result {
            Ok(text) => fields_generated(*object, 0, msg_type_name@, msg_enum_variant@).text == Ok::<
                Seq<char>,
                SdkFault,
            >(text@),
            Err(error) => fields_generated(*object, 0, msg_type_name@, msg_enum_variant@).text
                == Err::<Seq<char>, SdkFault>(error@),
        },
{
    let count = object.properties.len();
    let mut out = String::new();
    let mut i: usize = 0;
    let ghost total = fields_generated(*object, 0, msg_type_name@, msg_enum_variant@);
    let ghost mut added: Seq<Seq<char>> = Seq::empty();
    proof {
        match total.text {
            Ok(text) => {
                assert(Seq::<char>::empty() + text =~= text);
            },
            Err(_) => {},
        }
        assert(Seq::<Seq<char>>::empty() + total.required =~= total.required);
        assert(texts(required_types@) + added =~= texts(required_types@));
    }
    while i < count
        invariant
            i <= count,
            count == object.properties@.len(),
            total == fields_generated(*object, 0, msg_type_name@, msg_enum_variant@),
            texts(required_types@) == texts(old(required_types)@) + added,
            followed_by(
                Generated { text: Ok(out@), required: added },
                fields_generated(*object, i as int, msg_type_name@, msg_enum_variant@),
            ) == total,
        decreases count - i,
    {
        let property = &object.properties[i];
        let ghost step = field_generated(*object, i as int, msg_type_name@, msg_enum_variant@);
        let ghost rest = fields_generated(
            *object,
            i + 1,
            msg_type_name@,
            msg_enum_variant@,
        );
        let ghost before = texts(required_types@);
        let type_text = match schema_type_string(
            &property.schema,
            msg_type_name,
            msg_enum_variant,
            property.name.as_str(),
            required_types,
        ) {
            Ok(type_text) => type_text,
            Err(error) => {
                assert(step.text == Err::<Seq<char>, SdkFault>(error@));
                assert(added + step.required =~= added);
                return Err(error);
            },
        };
        let required = contains_name(&object.required, &property.name);
        let line = code_of_field(property, &type_text, required, i + 1 == count);
        let ghost text_before = out@;
        out.append(line.as_str());
        proof {
            assert(step.text == Ok::<Seq<char>, SdkFault>(line@));
            lemma_followed_by_step(text_before, added, step, rest);
            match type_string(property.schema) {
                Ok((_, named)) => {
                    assert(with_required(before, named) =~= before + listed(named));
                },
                Err(_) => {},
            }
            assert(before + step.required =~= texts(old(required_types)@) + (added
                + step.required));
            added = added + step.required;
        }
        i += 1;
    }
    proof {
        assert(out@ + Seq::<char>::empty() =~= out@);
        assert(added + Seq::<Seq<char>>::empty() =~= added);
    }
    Ok(out)
}

/// The comment above a method.
fn comment_of(description: &str) -> (comment: String)
    ensures
        comment@ == comment_code(description@),
{
    let mut out = String::new();
    if description.unicode_len() > 0 {
        out.append("\t/** ");
        out.append(make_comment_safe(description).as_str());
        out.append(" */\n");
        assert(out@ =~= comment_code(description@));
    }
    out
}

/// The extra arguments of the method, where they stand at the given end.
fn extra_of(kind: &MethodGenType, first: bool) -> (extra: &'static str)
    ensures
        extra@ == extra_code(*kind, first),
{
    if kind.prepend_extra_args() == first {
        kind.extra_func_args()
    } else {
        let empty = "";
        proof {
            reveal_strlit("");
        }
        assert(empty@ =~= Seq::<char>::empty());
        empty
    }
}

/// The arguments of the method that the variant itself gives.
fn args_of(args: &MethodArgType, kind: &MethodGenType, fields: &String) -> (code: String)
    ensures
        code@ == args_code(args@, *kind, fields@),
{
    let prepend = kind.prepend_extra_args();
    let extra_last = !prepend && kind.extra_func_args().unicode_len() > 0;
    let mut out = String::new();
    match args {
        MethodArgType::NoArgs => {},
        MethodArgType::Object(object) => {
            if object.properties.len() > 0 {
                if prepend {
                    out.append(", ");
                }
                out.append("args: {\n");
                out.append(fields.as_str());
                out.append("\t}");
                if object.required.len() == 0 {
                    out.append(" = {}");
                }
                if extra_last {
                    out.append(", ");
                }
            }
        },
        MethodArgType::TypeRef(name) => {
            if prepend {
                out.append(", ");
            }
            out.append("args: ");
            out.append(name);
            if extra_last {
                out.append(", ");
            }
        },
    }
    assert(out@ =~= args_code(args@, *kind, fields@));
    out
}

/// The return type as the method declares it.
fn return_of(kind: &MethodGenType, returned: &String) -> (code: String)
    ensures
        code@ == return_code(*kind, returned@),
{
    if kind.is_query() {
        let mut out = "Promise<".to_owned();
        out.append(returned.as_str());
        out.append(">");
        out
    } else {
        returned.clone()
    }
}

/// The message that the method sends.
fn message_of(args: &MethodArgType, msg_enum_variant: &str) -> (code: String)
    ensures
        code@ == message_code(args@, msg_enum_variant@),
{
    let escaped = escape_default(msg_enum_variant);
    if args.is_empty_object() {
        let mut out = "{\"".to_owned();
        out.append(escaped.as_str());
        out.append("\": {}}");
        out
    } else if args.is_some() {
        let mut out = "{\"".to_owned();
        out.append(escaped.as_str());
        out.append("\": args}");
        out
    } else {
        let mut out = "\"".to_owned();
        out.append(escaped.as_str());
        out.append("\"");
        out
    }
}

/// The method for a variant of a message: the code that builds or sends
/// the message with the arguments of the variant. The types that the code
/// names are added to `required_types`. A field without a type is refused;
/// the types of the fields before it have then been added. The kind of
/// message must have a method of the base class to call.
pub fn codegen_contract_method(
    required_types: &mut Vec<String>,
    msg_type_name: &str,
    msg_enum_variant: &str,
    msg_enum_varient_fields: MethodArgType,
    kind: &MethodGenType,
    description: &str,
) -> (result: Result<String, SdkError>)
    requires
        kind.has_parent_func(),
    ensures
        texts(final(required_types)@) == texts(old(required_types)@) + method_generated(
            msg_type_name@,
            msg_enum_variant@,
            msg_enum_varient_fields@,
            *kind,
            description@,
        ).required,
        match result {
            Ok(text) => method_generated(
                msg_type_name@,
                msg_enum_variant@,
                msg_enum_varient_fields@,
                *kind,
                description@,
            ).text == Ok::<Seq<char>, SdkFault>(text@),
            Err(error) => method_generated(
                msg_type_name@,
                msg_enum_variant@,
                msg_enum_varient_fields@,
                *kind,
                description@,
            ).text == Err::<Seq<char>, SdkFault>(error@),
        },
{
    let ghost args = msg_enum_varient_fields@;
    let ghost generated = args_generated(args, msg_type_name@, msg_enum_variant@);
    let fields = match msg_enum_varient_fields {
        MethodArgType::Object(object) => match code_of_fields(
            required_types,
            msg_type_name,
            msg_enum_variant,
            object,
        ) {
            Ok(fields) => fields,
            Err(error) => {
                return Err(error);
            },
        },
        _ => {
            assert(texts(required_types@) + generated.required =~= texts(required_types@));
            String::new()
        },
    };
    let ghost after_fields = texts(required_types@);
    let mut out = comment_of(description);
    out.append("\t");
    out.append(kind.generate_method_name(msg_enum_variant).as_str());
    out.append("(");
    out.append(extra_of(kind, true));
    out.append(args_of(&msg_enum_varient_fields, kind, &fields).as_str());
    out.append(extra_of(kind, false));
    match msg_enum_varient_fields {
        MethodArgType::TypeRef(name) => {
            let argument_type = make_type_name(name);
            require(required_types, &argument_type);
        },
        _ => {},
    }
    let returned = kind.return_type(msg_enum_variant);
    let return_type = make_type_name(returned.as_str());
    out.append("): ");
    out.append(return_of(kind, &return_type).as_str());
    out.append(" {\n");
    require(required_types, &return_type);
    proof {
        assert(texts(required_types@) =~= after_fields + method_required(
            args,
            *kind,
            msg_enum_variant@,
        ));
        assert(texts(required_types@) =~= texts(old(required_types)@) + (generated.required
            + method_required(args, *kind, msg_enum_variant@)));
    }
    out.append("\t\tconst msg = ");
    out.append(message_of(&msg_enum_varient_fields, msg_enum_variant).as_str());
    out.append(" satisfies ");
    out.append(msg_type_name);
    out.append(";\n");
    out.append("\t\treturn ");
    out.append(kind.parent_func_call());
    out.append(";\n");
    out.append("\t}\n");
    Ok(out)
}

/// The one kind of value that a schema admits, where it names one kind and
/// not a list.
pub open spec fn sole_kind(kinds: Option<InstanceTypes>) -> Option<InstanceKind> {
    match kinds {
        Some(InstanceTypes::Single(kind)) => Some(kind),
        _ => None,
    }
}

/// The text, or no text where there is none.
pub open spec fn text_or_empty(text: Option<String>) -> Seq<char> {
    match text {
        Some(t) => t@,
        None => Seq::<char>::empty(),
    }
}

/// What is generated for the values of a variant that is a list of texts,
/// from `index` on: a method without arguments for each of them. A value
/// that is no text is refused.
pub open spec fn values_generated(
    values: Seq<Option<String>>,
    index: int,
    msg_type_name: Seq<char>,
    kind: MethodGenType,
    description: Seq<char>,
) -> Generated
    decreases values.len() - index,
{
    if 0 <= index < values.len() {
        followed_by(
            match values[index] {
                Some(value) => method_generated(
                    msg_type_name,
                    value@,
                    ArgsModel::NoArgs,
                    kind,
                    description,
                ),
                None => refused(
                    SdkFault::MalformedEnumVariant(
                        msg_type_name,
                        "string enum variant is specified with a non-string value"@,
                    ),
                ),
            },
            values_generated(values, index + 1, msg_type_name, kind, description),
        )
    } else {
        nothing()
    }
}

/// What is generated for a variant that is an object: the object must have
/// one property, which is required, and the name of the property is the
/// name of the variant. Where the property refers to a defined type, the
/// method takes a value of that type. Otherwise the property must be an
/// object, and the method takes its fields; the description of the
/// property comes before that of the variant.
pub open spec fn object_variant_generated(
    definition: SchemaObjectModel,
    msg_type_name: Seq<char>,
    kind: MethodGenType,
) -> Generated {
    match definition.object {
        Some(object) => if object.required@.len() == 1 && object.properties@.len() == 1 {
            let property = object.properties@[0];
            let not_named = refused(
                SdkFault::EnumNamedFieldsExpected(msg_type_name, property.name@),
            );
            match property.schema {
                SchemaModel::Object(inner) => match (match inner.reference {
                    Some(reference) => referenced_type(reference@),
                    None => None,
                }) {
                    Some(target) => method_generated(
                        msg_type_name,
                        property.name@,
                        ArgsModel::TypeRef(target),
                        kind,
                        text_or_empty(definition.description),
                    ),
                    None => if sole_kind(inner.instance_types) == Some(InstanceKind::Object) {
                        match inner.object {
                            Some(fields) => method_generated(
                                msg_type_name,
                                property.name@,
                                ArgsModel::Object(fields),
                                kind,
                                if text_or_empty(inner.description).len() > 0 {
                                    text_or_empty(inner.description)
                                } else {
                                    text_or_empty(definition.description)
                                },
                            ),
                            None => not_named,
                        }
                    } else {
                        not_named
                    },
                },
                SchemaModel::Bool => not_named,
            }
        } else {
            refused(
                SdkFault::MalformedEnumVariant(
                    msg_type_name,
                    "object has more than one property"@,
                ),
            )
        },
        None => refused(
            SdkFault::MalformedEnumVariant(msg_type_name, "object has more than one property"@),
        ),
    }
}

/// What is generated for one variant of a message type. A variant that is
/// a bare schema is passed over. Any other must name one kind of value: a
/// text, with a list of the values that it may have, or an object.
pub open spec fn variant_generated(
    variant: SchemaModel,
    msg_type_name: Seq<char>,
    kind: MethodGenType,
) -> Generated {
    match variant {
        SchemaModel::Bool => nothing(),
        SchemaModel::Object(definition) => match sole_kind(definition.instance_types) {
            None => refused(
                SdkFault::MalformedEnumVariant(msg_type_name, "instance_type is not a single"@),
            ),
            Some(InstanceKind::String) => match definition.enum_values {
                Some(values) => if values@.len() > 0 {
                    values_generated(
                        values@,
                        0,
                        msg_type_name,
                        kind,
                        text_or_empty(definition.description),
                    )
                } else {
                    refused(
                        SdkFault::MalformedEnumVariant(
                            msg_type_name,
                            "empty enum_values for String enum variant"@,
                        ),
                    )
                },
                None => refused(
                    SdkFault::MalformedEnumVariant(
                        msg_type_name,
                        "empty enum_values for String enum variant"@,
                    ),
                ),
            },
            Some(InstanceKind::Object) => object_variant_generated(
                definition,
                msg_type_name,
                kind,
            ),
            Some(_) => refused(
                SdkFault::MalformedEnumVariant(
                    msg_type_name,
                    "instance_type neither string nor object"@,
                ),
            ),
        },
    }
}

/// What is generated for the variants of a message type from `index` on.
pub open spec fn variants_generated(
    variants: Seq<SchemaModel>,
    index: int,
    msg_type_name: Seq<char>,
    kind: MethodGenType,
) -> Generated
    decreases variants.len() - index,
{
    if 0 <= index < variants.len() {
        followed_by(
            variant_generated(variants[index], msg_type_name, kind),
            variants_generated(variants, index + 1, msg_type_name, kind),
        )
    } else {
        nothing()
    }
}

/// What is generated for a message type: its own type is to be imported,
/// and a method follows for each of its variants, in their order. A
/// message type that is no list of variants is refused.
pub open spec fn methods_generated(
    msg_type_name: Seq<char>,
    definition: SchemaObjectModel,
    kind: MethodGenType,
) -> Generated {
    followed_by(
        Generated { text: Ok(Seq::empty()), required: seq![name_of_type(msg_type_name)] },
        match definition.one_of {
            Some(variants) => variants_generated(variants@, 0, msg_type_name, kind),
            None => refused(SdkFault::MsgTypeNotEnum(msg_type_name)),
        },
    )
}

/// The refusal of a malformed variant.
fn malformed(msg_type_name: &str, what: &str) -> (error: SdkError)
    ensures
        error@ == SdkFault::MalformedEnumVariant(msg_type_name@, what@),
{
    SdkError::MalformedEnumVariant(msg_type_name.to_owned(), what.to_owned())
}

/// The refusal of a variant whose property has no named fields.
fn not_named(msg_type_name: &str, msg_enum_variant: &str) -> (error: SdkError)
    ensures
        error@ == SdkFault::EnumNamedFieldsExpected(msg_type_name@, msg_enum_variant@),
{
    SdkError::EnumNamedFieldsExpected(msg_type_name.to_owned(), msg_enum_variant.to_owned())
}

/// The one kind of value that a schema admits.
fn sole_kind_of(kinds: &Option<InstanceTypes>) -> (kind: Option<InstanceKind>)
    ensures
        kind == sole_kind(*kinds),
{
    match kinds {
        Some(InstanceTypes::Single(kind)) => Some(*kind),
        _ => None,
    }
}

/// The text, or no text where there is none.
fn text_or_none(text: &Option<String>) -> (found: &str)
    ensures
        found@ == text_or_empty(*text),
{
    match text {
        Some(t) => t.as_str(),
        None => {
            let empty = "";
            proof {
                reveal_strlit("");
            }
            assert(empty@ =~= Seq::<char>::empty());
            empty
        },
    }
}

/// The methods for the values of a variant that is a list of texts.
fn code_of_values(
    required_types: &mut Vec<String>,
    msg_type_name: &str,
    values: &Vec<Option<String>>,
    kind: &MethodGenType,
    description: &str,
) -> (result: Result<String, SdkError>)
    requires
        kind.has_parent_func(),
    ensures
        texts(final(required_types)@) == texts(old(required_types)@) + values_generated(
            values@,
            0,
            msg_type_name@,
            *kind,
            description@,
        ).required,
        match result {
            Ok(text) => values_generated(values@, 0, msg_type_name@, *kind, description@).text
                == Ok::<Seq<char>, SdkFault>(text@),
            Err(error) => values_generated(values@, 0, msg_type_name@, *kind, description@).text
                == Err::<Seq<char>, SdkFault>(error@),
        },
{
    let count = values.len();
    let mut out = String::new();
    let mut i: usize = 0;
    let ghost total = values_generated(values@, 0, msg_type_name@, *kind, description@);
    let ghost mut added: Seq<Seq<char>> = Seq::empty();
    proof {
        match total.text {
            Ok(text) => {
                assert(Seq::<char>::empty() + text =~= text);
            },
            Err(_) => {},
        }
        assert(Seq::<Seq<char>>::empty() + total.required =~= total.required);
        assert(texts(required_types@) + added =~= texts(required_types@));
    }
    while i < count
        invariant
            i <= count,
            count == values@.len(),
            kind.has_parent_func(),
            total == values_generated(values@, 0, msg_type_name@, *kind, description@),
            texts(required_types@) == texts(old(required_types)@) + added,
            followed_by(
                Generated { text: Ok(out@), required: added },
                values_generated(values@, i as int, msg_type_name@, *kind, description@),
            ) == total,
        decreases count - i,
    {
        let ghost rest = values_generated(values@, i + 1, msg_type_name@, *kind, description@);
        let ghost before = texts(required_types@);
        let value = match &values[i] {
            Some(value) => value,
            None => {
                assert(added + Seq::<Seq<char>>::empty() =~= added);
                return Err(
                    malformed(
                        msg_type_name,
                        "string enum variant is specified with a non-string value",
                    ),
                );
            },
        };
        let ghost step = method_generated(
            msg_type_name@,
            value@,
            ArgsModel::NoArgs,
            *kind,
            description@,
        );
        let method = match codegen_contract_method(
            required_types,
            msg_type_name,
            value.as_str(),
            MethodArgType::NoArgs,
            kind,
            description,
        ) {
            Ok(method) => method,
            Err(error) => {
                assert(texts(required_types@) =~= texts(old(required_types)@) + (added
                    + step.required));
                return Err(error);
            },
        };
        let ghost text_before = out@;
        out.append(method.as_str());
        proof {
            lemma_followed_by_step(text_before, added, step, rest);
            assert(before + step.required =~= texts(old(required_types)@) + (added
                + step.required));
            added = added + step.required;
        }
        i += 1;
    }
    proof {
        assert(out@ + Seq::<char>::empty() =~= out@);
        assert(added + Seq::<Seq<char>>::empty() =~= added);
    }
    Ok(out)
}

/// The method for a variant that is an object.
fn code_of_object_variant(
    required_types: &mut Vec<String>,
    msg_type_name: &str,
    definition: &SchemaObjectModel,
    kind: &MethodGenType,
) -> (result: Result<String, SdkError>)
    requires
        kind.has_parent_func(),
    ensures
        texts(final(required_types)@) == texts(old(required_types)@) + object_variant_generated(
            *definition,
            msg_type_name@,
            *kind,
        ).required,
        match result {
            Ok(text) => object_variant_generated(*definition, msg_type_name@, *kind).text == Ok::<
                Seq<char>,
                SdkFault,
            >(text@),
            Err(error) => object_variant_generated(*definition, msg_type_name@, *kind).text
                == Err::<Seq<char>, SdkFault>(error@),
        },
{
    proof {
        assert(texts(required_types@) + Seq::<Seq<char>>::empty() =~= texts(required_types@));
    }
    let object = match &definition.object {
        Some(object) => object,
        None => {
            return Err(malformed(msg_type_name, "object has more than one property"));
        },
    };
    if !(object.required.len() == 1 && object.properties.len() == 1) {
        return Err(malformed(msg_type_name, "object has more than one property"));
    }
    let property = &object.properties[0];
    let description = text_or_none(&definition.description);
    let inner = match &property.schema {
        SchemaModel::Object(inner) => inner,
        SchemaModel::Bool => {
            return Err(not_named(msg_type_name, property.name.as_str()));
        },
    };
    let target = match &inner.reference {
        Some(reference) => type_name_of_reference(reference.as_str()),
        None => None,
    };
    if let Some(target) = target {
        return codegen_contract_method(
            required_types,
            msg_type_name,
            property.name.as_str(),
            MethodArgType::TypeRef(target.as_str()),
            kind,
            description,
        );
    }
    match sole_kind_of(&inner.instance_types) {
        Some(InstanceKind::Object) => {},
        _ => {
            return Err(not_named(msg_type_name, property.name.as_str()));
        },
    }
    let fields = match &inner.object {
        Some(fields) => fields,
        None => {
            return Err(not_named(msg_type_name, property.name.as_str()));
        },
    };
    let other_description = text_or_none(&inner.description);
    codegen_contract_method(
        required_types,
        msg_type_name,
        property.name.as_str(),
        MethodArgType::Object(fields),
        kind,
        if other_description.unicode_len() > 0 {
            other_description
        } else {
            description
        },
    )
}

/// The methods for one variant of a message type.
fn code_of_variant(
    required_types: &mut Vec<String>,
    msg_type_name: &str,
    variant: &SchemaModel,
    kind: &MethodGenType,
) -> (result: Result<String, SdkError>)
    requires
        kind.has_parent_func(),
    ensures
        texts(final(required_types)@) == texts(old(required_types)@) + variant_generated(
            *variant,
            msg_type_name@,
            *kind,
        ).required,
        match result {
            Ok(text) => variant_generated(*variant, msg_type_name@, *kind).text == Ok::<
                Seq<char>,
                SdkFault,
            >(text@),
            Err(error) => variant_generated(*variant, msg_type_name@, *kind).text == Err::<
                Seq<char>,
                SdkFault,
            >(error@),
        },
{
    proof {
        assert(texts(required_types@) + Seq::<Seq<char>>::empty() =~= texts(required_types@));
    }
    let definition = match variant {
        SchemaModel::Object(definition) => definition,
        SchemaModel::Bool => {
            return Ok(String::new());
        },
    };
    match sole_kind_of(&definition.instance_types) {
        None => Err(malformed(msg_type_name, "instance_type is not a single")),
        Some(InstanceKind::String) => {
            match &definition.enum_values {
                Some(values) => {
                    if values.len() > 0 {
                        code_of_values(
                            required_types,
                            msg_type_name,
                            values,
                            kind,
                            text_or_none(&definition.description),
                        )
                    } else {
                        Err(malformed(msg_type_name, "empty enum_values for String enum variant"))
                    }
                },
                None => Err(
                    malformed(msg_type_name, "empty enum_values for String enum variant"),
                ),
            }
        },
        Some(InstanceKind::Object) => code_of_object_variant(
            required_types,
            msg_type_name,
            definition,
            kind,
        ),
        Some(_) => Err(malformed(msg_type_name, "instance_type neither string nor object")),
    }
}

/// The methods for the variants of a message type, in their order. The
/// type of the message and the types that the methods name are added to
/// `required_types`; where a variant is refused, those that came up before
/// it have been added. The kind of message must have a method of the base
/// class to call.
pub fn codegen_contract_methods(
    required_types: &mut Vec<String>,
    msg_type_name: &str,
    msg_type_def: &SchemaObjectModel,
    kind: &MethodGenType,
) -> (result: Result<String, SdkError>)
    requires
        kind.has_parent_func(),
    ensures
        texts(final(required_types)@) == texts(old(required_types)@) + methods_generated(
            msg_type_name@,
            *msg_type_def,
            *kind,
        ).required,
        match result {
            Ok(text) => methods_generated(msg_type_name@, *msg_type_def, *kind).text == Ok::<
                Seq<char>,
                SdkFault,
            >(text@),
            Err(error) => methods_generated(msg_type_name@, *msg_type_def, *kind).text == Err::<
                Seq<char>,
                SdkFault,
            >(error@),
        },
{
    let own_type = make_type_name(msg_type_name);
    require(required_types, &own_type);
    let ghost first: Seq<Seq<char>> = seq![name_of_type(msg_type_name@)];
    assert(texts(required_types@) =~= texts(old(required_types)@) + first);
    let variants = match &msg_type_def.one_of {
        Some(variants) => variants,
        None => {
            assert(first + Seq::<Seq<char>>::empty() =~= first);
            return Err(SdkError::MsgTypeNotEnum(msg_type_name.to_owned()));
        },
    };
    let count = variants.len();
    let mut out = String::new();
    let mut i: usize = 0;
    let ghost all = variants_generated(variants@, 0, msg_type_name@, *kind);
    let ghost total = methods_generated(msg_type_name@, *msg_type_def, *kind);
    let ghost mut added: Seq<Seq<char>> = first;
    while i < count
        invariant
            i <= count,
            count == variants@.len(),
            kind.has_parent_func(),
            msg_type_def.one_of == Some(*variants),
            total == methods_generated(msg_type_name@, *msg_type_def, *kind),
            texts(required_types@) == texts(old(required_types)@) + added,
            followed_by(
                Generated { text: Ok(out@), required: added },
                variants_generated(variants@, i as int, msg_type_name@, *kind),
            ) == total,
        decreases count - i,
    {
        let ghost step = variant_generated(variants@[i as int], msg_type_name@, *kind);
        let ghost rest = variants_generated(variants@, i + 1, msg_type_name@, *kind);
        let ghost before = texts(required_types@);
        let methods = match code_of_variant(required_types, msg_type_name, &variants[i], kind) {
            Ok(methods) => methods,
            Err(error) => {
                assert(texts(required_types@) =~= texts(old(required_types)@) + (added
                    + step.required));
                return Err(error);
            },
        };
        let ghost text_before = out@;
        out.append(methods.as_str());
        proof {
            lemma_followed_by_step(text_before, added, step, rest);
            assert(before + step.required =~= texts(old(required_types)@) + (added
                + step.required));
            added = added + step.required;
        }
        i += 1;
    }
    proof {
        assert(out@ + Seq::<char>::empty() =~= out@);
        assert(added + Seq::<Seq<char>>::empty() =~= added);
    }
    Ok(out)
}

} // verus!
