use crownfi_cw_common::sdk_autogen::methods::{
    codegen_contract_method, codegen_contract_methods, make_comment_safe, MethodArgType,
};
use crownfi_cw_common::sdk_autogen::schema::{
    ArrayItems, ArrayModel, InstanceKind, InstanceTypes, ObjectModel, PropertyModel, SchemaModel, SchemaObjectModel,
    SdkError,
};
use crownfi_cw_common::sdk_autogen::strings_for_code::MethodGenType;

fn blank() -> SchemaObjectModel {
    SchemaObjectModel {
        description: None,
        instance_types: None,
        enum_values: None,
        array: None,
        object: None,
        reference: None,
        all_of: None,
        any_of: None,
        one_of: None,
    }
}

fn of_kind(kind: InstanceKind) -> SchemaModel {
    SchemaModel::Object(SchemaObjectModel { instance_types: Some(InstanceTypes::Single(kind)), ..blank() })
}

fn described(description: &str, schema: SchemaModel) -> SchemaModel {
    match schema {
        SchemaModel::Object(object) => {
            SchemaModel::Object(SchemaObjectModel { description: Some(description.to_string()), ..object })
        }
        SchemaModel::Bool => SchemaModel::Bool,
    }
}

fn reference(to: &str) -> SchemaModel {
    SchemaModel::Object(SchemaObjectModel { reference: Some(to.to_string()), ..blank() })
}

fn object(properties: Vec<(&str, SchemaModel)>, required: &[&str]) -> ObjectModel {
    ObjectModel {
        properties: properties
            .into_iter()
            .map(|(name, schema)| PropertyModel { name: name.to_string(), schema })
            .collect(),
        required: required.iter().map(|name| name.to_string()).collect(),
    }
}

/// A variant with one property under its name.
fn variant(name: &str, schema: SchemaModel) -> SchemaModel {
    SchemaModel::Object(SchemaObjectModel {
        instance_types: Some(InstanceTypes::Single(InstanceKind::Object)),
        object: Some(object(vec![(name, schema)], &[name])),
        ..blank()
    })
}

/// The schema of the named fields of a variant.
fn fields(properties: Vec<(&str, SchemaModel)>, required: &[&str]) -> SchemaModel {
    SchemaModel::Object(SchemaObjectModel {
        instance_types: Some(InstanceTypes::Single(InstanceKind::Object)),
        object: Some(object(properties, required)),
        ..blank()
    })
}

fn message(variants: Vec<SchemaModel>) -> SchemaObjectModel {
    SchemaObjectModel { one_of: Some(variants), ..blank() }
}

fn generate(name: &str, definition: &SchemaObjectModel, kind: &MethodGenType) -> (Result<String, SdkError>, Vec<String>) {
    let mut required = Vec::new();
    let result = codegen_contract_methods(&mut required, name, definition, kind);
    (result, required)
}

fn malformed(what: &str) -> SdkError {
    SdkError::MalformedEnumVariant("ExecuteMsg".to_string(), what.to_string())
}

#[test]
fn comments_cannot_be_ended() {
    assert_eq!(make_comment_safe("plain"), "plain");
    assert_eq!(make_comment_safe("*/"), "* /");
    assert_eq!(make_comment_safe("a */ b **/ c"), "a * / b ** / c");
    assert_eq!(make_comment_safe("/* */*/"), "/* * /* /");
    assert_eq!(make_comment_safe("*"), "*");
    assert_eq!(make_comment_safe(""), "");
}

#[test]
fn method_with_named_fields() {
    let string_or_null = SchemaModel::Object(SchemaObjectModel {
        instance_types: Some(InstanceTypes::Several(vec![InstanceKind::String, InstanceKind::Null])),
        ..blank()
    });
    let definition = message(vec![described(
        "Adds */ liquidity",
        variant(
            "add_liquidity",
            fields(
                vec![("amount", of_kind(InstanceKind::Integer)), ("memo", described("note", string_or_null))],
                &["amount"],
            ),
        ),
    )]);
    let (result, required) = generate("ExecuteMsg", &definition, &MethodGenType::Execute);
    assert_eq!(
        result.unwrap(),
        [
            "\t/** Adds * / liquidity */\n",
            "\tbuildAddLiquidityIx(args: {\n",
            "\t\t\"amount\": number,\n",
            "\t\t/** note */\n",
            "\t\t\"memo\"?: string | null\n",
            "\t}, funds?: Coin[]): ExecuteInstruction {\n",
            "\t\tconst msg = {\"add_liquidity\": args} satisfies ExecuteMsg;\n",
            "\t\treturn this.executeIx(msg, funds);\n",
            "\t}\n",
        ].concat()
    );
    assert_eq!(required, vec!["ExecuteMsg", "ExecuteInstruction"]);
}

#[test]
fn method_with_optional_fields_only() {
    let definition = message(vec![variant(
        "set_memo",
        described("of the fields", fields(vec![("memo", reference("#/definitions/memo_text"))], &[])),
    )]);
    let (result, required) = generate("ExecuteMsg", &definition, &MethodGenType::Execute);
    assert_eq!(
        result.unwrap(),
        [
            "\t/** of the fields */\n",
            "\tbuildSetMemoIx(args: {\n",
            "\t\t\"memo\"?: MemoText\n",
            "\t} = {}, funds?: Coin[]): ExecuteInstruction {\n",
            "\t\tconst msg = {\"set_memo\": args} satisfies ExecuteMsg;\n",
            "\t\treturn this.executeIx(msg, funds);\n",
            "\t}\n",
        ].concat()
    );
    assert_eq!(required, vec!["ExecuteMsg", "MemoText", "ExecuteInstruction"]);
}

#[test]
fn queries_promise_their_return_type() {
    let kind = MethodGenType::Query(vec![("get_count".to_string(), "count_response".to_string())]);
    let definition = message(vec![
        described("The count", variant("get_count", fields(vec![], &[]))),
        variant("get_owner", fields(vec![("of", of_kind(InstanceKind::String))], &["of"])),
    ]);
    let (result, required) = generate("QueryMsg", &definition, &kind);
    assert_eq!(
        result.unwrap(),
        [
            "\t/** The count */\n",
            "\tqueryGetCount(): Promise<CountResponse> {\n",
            "\t\tconst msg = {\"get_count\": {}} satisfies QueryMsg;\n",
            "\t\treturn this.query(msg);\n",
            "\t}\n",
            "\tqueryGetOwner(args: {\n",
            "\t\t\"of\": string\n",
            "\t}): Promise<Unknown> {\n",
            "\t\tconst msg = {\"get_owner\": args} satisfies QueryMsg;\n",
            "\t\treturn this.query(msg);\n",
            "\t}\n",
        ].concat()
    );
    assert_eq!(required, vec!["QueryMsg", "CountResponse", "Unknown"]);
}

#[test]
fn hooks_take_their_extra_arguments_first() {
    let definition = message(vec![
        variant("swap", reference("#/definitions/swap_params")),
        variant("stake", fields(vec![("days", of_kind(InstanceKind::Integer))], &["days"])),
        variant("burn", fields(vec![], &[])),
    ]);
    let (result, required) = generate("Cw20HookMsg", &definition, &MethodGenType::Cw20Hook);
    assert_eq!(
        result.unwrap(),
        [
            "\tbuildSwapCw20Ix(tokenContractOrUnifiedDenom: string, amount: string | bigint | number, ",
            "args: swap_params): ExecuteInstruction {\n",
            "\t\tconst msg = {\"swap\": args} satisfies Cw20HookMsg;\n",
            "\t\treturn this.executeIxCw20(msg, tokenContractOrUnifiedDenom, amount);\n",
            "\t}\n",
            "\tbuildStakeCw20Ix(tokenContractOrUnifiedDenom: string, amount: string | bigint | number, ",
            "args: {\n",
            "\t\t\"days\": number\n",
            "\t}): ExecuteInstruction {\n",
            "\t\tconst msg = {\"stake\": args} satisfies Cw20HookMsg;\n",
            "\t\treturn this.executeIxCw20(msg, tokenContractOrUnifiedDenom, amount);\n",
            "\t}\n",
            "\tbuildBurnCw20Ix(tokenContractOrUnifiedDenom: string, amount: string | bigint | number",
            "): ExecuteInstruction {\n",
            "\t\tconst msg = {\"burn\": {}} satisfies Cw20HookMsg;\n",
            "\t\treturn this.executeIxCw20(msg, tokenContractOrUnifiedDenom, amount);\n",
            "\t}\n",
        ].concat()
    );
    assert_eq!(
        required,
        vec!["Cw20HookMsg", "SwapParams", "ExecuteInstruction", "ExecuteInstruction", "ExecuteInstruction"]
    );
}

#[test]
fn variants_that_are_texts() {
    let definition = message(vec![
        SchemaModel::Bool,
        SchemaModel::Object(SchemaObjectModel {
            description: Some("Stops or starts".to_string()),
            instance_types: Some(InstanceTypes::Single(InstanceKind::String)),
            enum_values: Some(vec![Some("pause".to_string()), Some("re\"sume".to_string())]),
            ..blank()
        }),
    ]);
    let (result, required) = generate("ExecuteMsg", &definition, &MethodGenType::Execute);
    assert_eq!(
        result.unwrap(),
        [
            "\t/** Stops or starts */\n",
            "\tbuildPauseIx(funds?: Coin[]): ExecuteInstruction {\n",
            "\t\tconst msg = \"pause\" satisfies ExecuteMsg;\n",
            "\t\treturn this.executeIx(msg, funds);\n",
            "\t}\n",
            "\t/** Stops or starts */\n",
            "\tbuildRe\"sumeIx(funds?: Coin[]): ExecuteInstruction {\n",
            "\t\tconst msg = \"re\\\"sume\" satisfies ExecuteMsg;\n",
            "\t\treturn this.executeIx(msg, funds);\n",
            "\t}\n",
        ].concat()
    );
    assert_eq!(required, vec!["ExecuteMsg", "ExecuteInstruction", "ExecuteInstruction"]);
}

#[test]
fn message_types_that_are_refused() {
    let execute = MethodGenType::Execute;
    assert_eq!(
        generate("ExecuteMsg", &blank(), &execute),
        (Err(SdkError::MsgTypeNotEnum("ExecuteMsg".to_string())), vec!["ExecuteMsg".to_string()])
    );
    assert_eq!(generate("ExecuteMsg", &message(vec![]), &execute), (Ok(String::new()), vec!["ExecuteMsg".to_string()]));

    let refusal = |variant: SchemaModel| generate("ExecuteMsg", &message(vec![variant]), &execute).0.unwrap_err();
    assert_eq!(refusal(SchemaModel::Object(blank())), malformed("instance_type is not a single"));
    assert_eq!(
        refusal(SchemaModel::Object(SchemaObjectModel {
            instance_types: Some(InstanceTypes::Several(vec![InstanceKind::String])),
            ..blank()
        })),
        malformed("instance_type is not a single")
    );
    assert_eq!(refusal(of_kind(InstanceKind::Integer)), malformed("instance_type neither string nor object"));
    assert_eq!(refusal(of_kind(InstanceKind::String)), malformed("empty enum_values for String enum variant"));
    assert_eq!(
        refusal(SchemaModel::Object(SchemaObjectModel {
            instance_types: Some(InstanceTypes::Single(InstanceKind::String)),
            enum_values: Some(vec![]),
            ..blank()
        })),
        malformed("empty enum_values for String enum variant")
    );
    assert_eq!(
        refusal(SchemaModel::Object(SchemaObjectModel {
            instance_types: Some(InstanceTypes::Single(InstanceKind::String)),
            enum_values: Some(vec![Some("fine".to_string()), None]),
            ..blank()
        })),
        malformed("string enum variant is specified with a non-string value")
    );
    assert_eq!(refusal(of_kind(InstanceKind::Object)), malformed("object has more than one property"));
    let two = SchemaModel::Object(SchemaObjectModel {
        instance_types: Some(InstanceTypes::Single(InstanceKind::Object)),
        object: Some(object(
            vec![("a", fields(vec![], &[])), ("b", fields(vec![], &[]))],
            &["a"],
        )),
        ..blank()
    });
    assert_eq!(refusal(two), malformed("object has more than one property"));
    let not_required = SchemaModel::Object(SchemaObjectModel {
        instance_types: Some(InstanceTypes::Single(InstanceKind::Object)),
        object: Some(object(vec![("a", fields(vec![], &[]))], &[])),
        ..blank()
    });
    assert_eq!(refusal(not_required), malformed("object has more than one property"));

    let not_named = SdkError::EnumNamedFieldsExpected("ExecuteMsg".to_string(), "send".to_string());
    assert_eq!(refusal(variant("send", SchemaModel::Bool)), not_named);
    assert_eq!(refusal(variant("send", of_kind(InstanceKind::String))), not_named);
    assert_eq!(refusal(variant("send", of_kind(InstanceKind::Object))), not_named);
    assert_eq!(refusal(variant("send", reference("#/elsewhere/Thing"))), not_named);
}

#[test]
fn a_refused_field_ends_the_generation() {
    let tuple_of_two_types =
        SchemaModel::Object(SchemaObjectModel {
            array: Some(ArrayModel { items: ArrayItems::Several, min_items: None, max_items: None }),
            ..blank()
        });
    let definition = message(vec![
        variant("first", fields(vec![("to", reference("#/definitions/addr"))], &["to"])),
        variant(
            "second",
            fields(
                vec![
                    ("a", reference("#/definitions/coin")),
                    ("b", tuple_of_two_types),
                    ("c", reference("#/definitions/never_reached")),
                ],
                &[],
            ),
        ),
        variant("third", reference("#/definitions/never_reached")),
    ]);
    let (result, required) = generate("ExecuteMsg", &definition, &MethodGenType::Execute);
    assert_eq!(
        result,
        Err(SdkError::EnumVariantFieldHasMultiTypedArray(
            "ExecuteMsg".to_string(),
            "second".to_string(),
            "b".to_string()
        ))
    );
    assert_eq!(required, vec!["ExecuteMsg", "Addr", "ExecuteInstruction", "Coin"]);

    let unknown = message(vec![variant("only", fields(vec![("x", of_kind(InstanceKind::Object))], &[]))]);
    assert_eq!(
        generate("ExecuteMsg", &unknown, &MethodGenType::Execute).0,
        Err(SdkError::UnknownEnumVariantField("ExecuteMsg".to_string(), "only".to_string(), "x".to_string()))
    );
}

#[test]
fn one_method_by_its_parts() {
    let mut required = vec!["Before".to_string()];
    let text = codegen_contract_method(
        &mut required,
        "ExecuteMsg",
        "claim",
        MethodArgType::NoArgs,
        &MethodGenType::Execute,
        "",
    )
    .unwrap();
    assert_eq!(
        text,
        [
            "\tbuildClaimIx(funds?: Coin[]): ExecuteInstruction {\n",
            "\t\tconst msg = \"claim\" satisfies ExecuteMsg;\n",
            "\t\treturn this.executeIx(msg, funds);\n",
            "\t}\n",
        ].concat()
    );
    assert_eq!(required, vec!["Before", "ExecuteInstruction"]);
    assert!(MethodArgType::NoArgs.is_none());
    assert!(!MethodArgType::NoArgs.is_some());
    let none = object(vec![], &[]);
    assert!(MethodArgType::Object(&none).is_empty_object());
    assert!(MethodArgType::Object(&none).is_some());
    assert!(!MethodArgType::TypeRef("x").is_empty_object());
}
