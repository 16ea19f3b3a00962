use crownfi_cw_common::sdk_autogen::schema::{
    schema_type_string, ArrayItems, ArrayModel, InstanceKind, InstanceTypes, SchemaModel, SchemaObjectModel, SdkError,
};

fn object() -> SchemaObjectModel {
    SchemaObjectModel {
        description: None,
        instance_types: None,
        enum_values: None,
        array: None,
        object: None,
        reference: None,
        all_of: None,
        any_of: None,
        one_of: None,
    }
}

fn of_kind(kind: InstanceKind) -> SchemaModel {
    SchemaModel::Object(SchemaObjectModel { instance_types: Some(InstanceTypes::Single(kind)), ..object() })
}

fn reference(to: &str) -> SchemaModel {
    SchemaModel::Object(SchemaObjectModel { reference: Some(to.to_string()), ..object() })
}

fn array(items: ArrayItems, min_items: Option<u32>, max_items: Option<u32>) -> SchemaModel {
    SchemaModel::Object(SchemaObjectModel { array: Some(ArrayModel { items, min_items, max_items }), ..object() })
}

fn type_of(schema: &SchemaModel) -> (Result<String, SdkError>, Vec<String>) {
    let mut required = vec!["Seen".to_string()];
    let result = schema_type_string(schema, "ExecuteMsg", "swap", "amount", &mut required);
    assert_eq!(required[0], "Seen");
    (result, required[1..].to_vec())
}

fn unknown_field() -> SdkError {
    SdkError::UnknownEnumVariantField("ExecuteMsg".to_string(), "swap".to_string(), "amount".to_string())
}

#[test]
fn primitive_fields() {
    assert_eq!(type_of(&SchemaModel::Bool), (Ok("any".to_string()), vec![]));
    assert_eq!(type_of(&of_kind(InstanceKind::Null)), (Ok("null".to_string()), vec![]));
    assert_eq!(type_of(&of_kind(InstanceKind::Boolean)), (Ok("boolean".to_string()), vec![]));
    assert_eq!(type_of(&of_kind(InstanceKind::Number)), (Ok("number".to_string()), vec![]));
    assert_eq!(type_of(&of_kind(InstanceKind::Integer)), (Ok("number".to_string()), vec![]));
    assert_eq!(type_of(&of_kind(InstanceKind::String)), (Ok("string".to_string()), vec![]));
    assert_eq!(type_of(&of_kind(InstanceKind::Object)), (Err(unknown_field()), vec![]));
    assert_eq!(type_of(&of_kind(InstanceKind::Array)), (Err(unknown_field()), vec![]));
}

#[test]
fn unions_of_kinds() {
    let several = |kinds: Vec<InstanceKind>| {
        SchemaModel::Object(SchemaObjectModel { instance_types: Some(InstanceTypes::Several(kinds)), ..object() })
    };
    assert_eq!(
        type_of(&several(vec![InstanceKind::String, InstanceKind::Null])),
        (Ok("string | null".to_string()), vec![])
    );
    assert_eq!(
        type_of(&several(vec![InstanceKind::Integer, InstanceKind::Boolean, InstanceKind::Null])),
        (Ok("number | boolean | null".to_string()), vec![])
    );
    assert_eq!(type_of(&several(vec![])), (Ok(String::new()), vec![]));
    assert_eq!(
        type_of(&several(vec![InstanceKind::String, InstanceKind::Object, InstanceKind::Null])),
        (Err(unknown_field()), vec![])
    );
}

#[test]
fn arrays_and_tuples() {
    let integers = || ArrayItems::Single(Box::new(of_kind(InstanceKind::Integer)));
    assert_eq!(type_of(&array(integers(), Some(3), Some(3))), (Ok("[number, number, number]".to_string()), vec![]));
    assert_eq!(type_of(&array(integers(), Some(1), Some(1))), (Ok("[number]".to_string()), vec![]));
    assert_eq!(type_of(&array(integers(), None, Some(0))), (Ok("[number]".to_string()), vec![]));
    assert_eq!(type_of(&array(integers(), None, None)), (Ok("number[]".to_string()), vec![]));
    assert_eq!(type_of(&array(integers(), Some(1), Some(3))), (Ok("number[]".to_string()), vec![]));
    assert_eq!(type_of(&array(integers(), Some(2), None)), (Ok("number[]".to_string()), vec![]));
    assert_eq!(type_of(&array(integers(), None, Some(2))), (Ok("number[]".to_string()), vec![]));

    let nested = array(ArrayItems::Single(Box::new(array(integers(), Some(2), Some(2)))), None, None);
    assert_eq!(type_of(&nested), (Ok("[number, number][]".to_string()), vec![]));

    let coins = array(ArrayItems::Single(Box::new(reference("#/definitions/coin_amount"))), None, None);
    assert_eq!(type_of(&coins), (Ok("CoinAmount[]".to_string()), vec!["CoinAmount".to_string()]));

    let multi_typed = SdkError::EnumVariantFieldHasMultiTypedArray(
        "ExecuteMsg".to_string(),
        "swap".to_string(),
        "amount".to_string(),
    );
    assert_eq!(type_of(&array(ArrayItems::Several, None, None)), (Err(multi_typed.clone()), vec![]));
    assert_eq!(type_of(&array(ArrayItems::Unspecified, None, None)), (Err(multi_typed.clone()), vec![]));
    let around = array(ArrayItems::Single(Box::new(array(ArrayItems::Several, None, None))), None, None);
    assert_eq!(type_of(&around), (Err(multi_typed), vec![]));
}

#[test]
fn an_array_comes_before_the_kinds() {
    let schema = SchemaModel::Object(SchemaObjectModel {
        array: Some(ArrayModel {
            items: ArrayItems::Single(Box::new(of_kind(InstanceKind::String))),
            min_items: None,
            max_items: None,
        }),
        instance_types: Some(InstanceTypes::Single(InstanceKind::Array)),
        ..object()
    });
    assert_eq!(type_of(&schema), (Ok("string[]".to_string()), vec![]));
}

#[test]
fn referenced_types() {
    assert_eq!(
        type_of(&reference("#/definitions/Uint128")),
        (Ok("Uint128".to_string()), vec!["Uint128".to_string()])
    );
    assert_eq!(
        type_of(&reference("#/definitions/pool_info")),
        (Ok("PoolInfo".to_string()), vec!["PoolInfo".to_string()])
    );
    assert_eq!(type_of(&reference("#/elsewhere/Uint128")), (Err(unknown_field()), vec![]));
    assert_eq!(type_of(&SchemaModel::Object(object())), (Err(unknown_field()), vec![]));

    let all_of =
        |list: Vec<SchemaModel>| SchemaModel::Object(SchemaObjectModel { all_of: Some(list), ..object() });
    assert_eq!(
        type_of(&all_of(vec![reference("#/definitions/Addr")])),
        (Ok("Addr".to_string()), vec!["Addr".to_string()])
    );
    assert_eq!(
        type_of(&all_of(vec![reference("#/definitions/Addr"), reference("#/definitions/Coin")])),
        (Err(unknown_field()), vec![])
    );
    assert_eq!(type_of(&all_of(vec![SchemaModel::Bool])), (Err(unknown_field()), vec![]));
    assert_eq!(type_of(&all_of(vec![])), (Err(unknown_field()), vec![]));
}

#[test]
fn nullable_references() {
    let any_of =
        |list: Vec<SchemaModel>| SchemaModel::Object(SchemaObjectModel { any_of: Some(list), ..object() });
    assert_eq!(
        type_of(&any_of(vec![reference("#/definitions/Addr"), of_kind(InstanceKind::Null)])),
        (Ok("Addr | null".to_string()), vec!["Addr".to_string()])
    );
    // the reference must come first, and `null` must stand alone
    assert_eq!(
        type_of(&any_of(vec![of_kind(InstanceKind::Null), reference("#/definitions/Addr")])),
        (Err(unknown_field()), vec![])
    );
    assert_eq!(
        type_of(&any_of(vec![reference("#/definitions/Addr"), of_kind(InstanceKind::String)])),
        (Err(unknown_field()), vec![])
    );
    let null_in_a_list = SchemaModel::Object(SchemaObjectModel {
        instance_types: Some(InstanceTypes::Several(vec![InstanceKind::Null])),
        ..object()
    });
    assert_eq!(
        type_of(&any_of(vec![reference("#/definitions/Addr"), null_in_a_list])),
        (Err(unknown_field()), vec![])
    );
    assert_eq!(type_of(&any_of(vec![reference("#/definitions/Addr")])), (Err(unknown_field()), vec![]));

    // a reference of its own comes before the lists
    let both = SchemaModel::Object(SchemaObjectModel {
        reference: Some("#/definitions/First".to_string()),
        any_of: Some(vec![reference("#/definitions/Second"), of_kind(InstanceKind::Null)]),
        ..object()
    });
    assert_eq!(type_of(&both), (Ok("First".to_string()), vec!["First".to_string()]));
}
