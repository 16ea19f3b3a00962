use crownfi_cw_common::sdk_autogen::sdk_maker::{
    default_module, type_name_of_reference, type_to_module, ContractReferences, ContractSdkContractDefinition,
};
use crownfi_cw_common::sdk_autogen::strings_for_code::{is_snake_case, upper_first_ascii, MethodGenType};

#[test]
fn method_names() {
    let query = MethodGenType::Query(vec![("get_count".to_string(), "CountResponse".to_string())]);
    assert_eq!(MethodGenType::Instantiate.generate_method_name("anything"), "instantiateIx");
    assert_eq!(MethodGenType::Migrate.generate_method_name("anything"), "migrateIx");
    assert_eq!(MethodGenType::Execute.generate_method_name("add_liquidity"), "buildAddLiquidityIx");
    assert_eq!(query.generate_method_name("get_count"), "queryGetCount");
    assert_eq!(MethodGenType::Sudo.generate_method_name("set_fee"), "sudoExecSetFeeIx");
    assert_eq!(MethodGenType::Cw20Hook.generate_method_name("swap"), "buildSwapCw20Ix");
}

#[test]
fn method_fragments() {
    let query = MethodGenType::Query(vec![
        ("get_count".to_string(), "CountResponse".to_string()),
        ("get_owner".to_string(), "OwnerResponse".to_string()),
    ]);
    assert!(query.is_query());
    assert!(!MethodGenType::Execute.is_query());
    assert!(MethodGenType::Cw20Hook.prepend_extra_args());
    assert!(!MethodGenType::Execute.prepend_extra_args());
    assert_eq!(MethodGenType::Execute.extra_func_args(), "funds?: Coin[]");
    assert_eq!(MethodGenType::Instantiate.extra_func_args(), "funds?: Coin[]");
    assert_eq!(MethodGenType::Sudo.extra_func_args(), "funds?: Coin[]");
    assert_eq!(query.extra_func_args(), "");
    assert_eq!(MethodGenType::Migrate.extra_func_args(), "");
    assert_eq!(
        MethodGenType::Cw20Hook.extra_func_args(),
        "tokenContractOrUnifiedDenom: string, amount: string | bigint | number"
    );
    assert_eq!(MethodGenType::Execute.parent_func_call(), "this.executeIx(msg, funds)");
    assert_eq!(query.parent_func_call(), "this.query(msg)");
    assert_eq!(
        MethodGenType::Cw20Hook.parent_func_call(),
        "this.executeIxCw20(msg, tokenContractOrUnifiedDenom, amount)"
    );
    assert_eq!(MethodGenType::Execute.return_type("x"), "ExecuteInstruction");
    assert_eq!(MethodGenType::Cw20Hook.return_type("x"), "ExecuteInstruction");
    assert_eq!(query.return_type("get_owner"), "OwnerResponse");
    assert_eq!(query.return_type("get_count"), "CountResponse");
    assert_eq!(query.return_type("other"), "unknown");
}

#[test]
fn first_letter_in_upper_case() {
    assert_eq!(upper_first_ascii("hello"), "Hello");
    assert_eq!(upper_first_ascii("Hello"), "Hello");
    assert_eq!(upper_first_ascii("1abc"), "1abc");
    assert_eq!(upper_first_ascii(""), "");
    assert_eq!(upper_first_ascii("émile"), "émile");
    assert_eq!(upper_first_ascii("z"), "Z");
}

#[test]
fn contract_names_in_snake_case() {
    assert!(is_snake_case("pool_factory"));
    assert!(is_snake_case("pool"));
    assert!(!is_snake_case("PoolFactory"));
    assert!(!is_snake_case("pool-factory"));
}

#[test]
fn modules_of_types() {
    assert_eq!(type_to_module("ContractBase"), "@crownfi/sei-utils");
    assert_eq!(type_to_module("ExecuteInstruction"), "@cosmjs/cosmwasm-stargate");
    assert_eq!(type_to_module("Coin"), "@cosmjs/amino");
    assert_eq!(type_to_module("PoolConfig"), "./types.js");
    assert_eq!(default_module(), "./types.js");
}

#[test]
fn contract_definition_from_references() {
    assert_eq!(type_name_of_reference("#/definitions/ExecuteMsg"), Some("ExecuteMsg".to_string()));
    assert_eq!(type_name_of_reference("#/properties/ExecuteMsg"), None);
    let references = ContractReferences {
        instantiate: Some("#/definitions/InstantiateMsg"),
        execute: Some("#/definitions/ExecuteMsg"),
        query: Some("#/definitions/QueryMsg"),
        migrate: None,
        sudo: None,
        cw20_hook: Some("#/definitions/Cw20HookMsg"),
    };
    let definition = ContractSdkContractDefinition::new(&references);
    assert_eq!(
        definition,
        ContractSdkContractDefinition {
            instantiate_type: Some("InstantiateMsg".to_string()),
            execute_type: Some("ExecuteMsg".to_string()),
            query_type: Some("QueryMsg".to_string()),
            query_enum_varient_to_return_type: vec![],
            migrate_type: None,
            sudo_type: None,
            cw20_hook_type: Some("Cw20HookMsg".to_string()),
        }
    );
}
