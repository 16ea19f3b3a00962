//! The description of a contract for which client code is generated.

use vstd::prelude::*;
use crate::utils::{has_prefix, strip_prefix};

verus! {

/// The names of the message types of a contract, and for each variant of
/// its query the name of the type that the query returns.
#[derive(Debug, Clone, PartialEq, Eq)]
pub struct ContractSdkContractDefinition {
    pub instantiate_type: Option<String>,
    pub execute_type: Option<String>,
    pub query_type: Option<String>,
    pub query_enum_varient_to_return_type: Vec<(String, String)>,
    pub migrate_type: Option<String>,
    pub sudo_type: Option<String>,
    pub cw20_hook_type: Option<String>,
}

/// The name of the type that a reference into the definitions of a schema
/// names: what follows `#/definitions/`.
pub open spec fn referenced_type(reference: Seq<char>) -> Option<Seq<char>> {
    if has_prefix(reference, "#/definitions/"@) {
        Some(reference.skip(14))
    } else {
        None
    }
}

/// What an optional text holds.
pub open spec fn opt_text(text: Option<String>) -> Option<Seq<char>> {
    match text {
        Some(t) => Some(t@),
        None => None,
    }
}

/// The name of the type that a reference into the definitions of a schema
/// names, or `None` for a reference to anything else.
pub fn type_name_of_reference(reference: &str) -> (name: Option<String>)
    ensures
        opt_text(name) == referenced_type(reference@),
{
    proof {
        reveal_strlit("#/definitions/");
    }
    strip_prefix(reference, "#/definitions/")
}

/// The name of the type that an optional reference names. A reference must
/// be one into the definitions of the schema.
fn type_name_of_property(reference: Option<&str>) -> (name: Option<String>)
    requires
        reference matches Some(r) ==> referenced_type(r@).is_some(),
    ensures
        opt_text(name) == match reference {
            Some(r) => referenced_type(r@),
            None => None,
        },
{
    match reference {
        Some(r) => type_name_of_reference(r),
        None => None,
    }
}

/// The references that the properties of a contract's schema hold, by the
/// kind of message.
pub struct ContractReferences<'a> {
    pub instantiate: Option<&'a str>,
    pub execute: Option<&'a str>,
    pub query: Option<&'a str>,
    pub migrate: Option<&'a str>,
    pub sudo: Option<&'a str>,
    pub cw20_hook: Option<&'a str>,
}

impl<'a> ContractReferences<'a> {
    /// Every reference is one into the definitions of the schema.
    pub open spec fn all_into_definitions(&self) -> bool {
        &&& self.instantiate matches Some(r) ==> referenced_type(r@).is_some()
        &&& self.execute matches Some(r) ==> referenced_type(r@).is_some()
        &&& self.query matches Some(r) ==> referenced_type(r@).is_some()
        &&& self.migrate matches Some(r) ==> referenced_type(r@).is_some()
        &&& self.sudo matches Some(r) ==> referenced_type(r@).is_some()
        &&& self.cw20_hook matches Some(r) ==> referenced_type(r@).is_some()
    }
}

/// The type that an optional reference names.
pub open spec fn property_type(reference: Option<&str>) -> Option<Seq<char>> {
    match reference {
        Some(r) => referenced_type(r@),
        None => None,
    }
}

impl ContractSdkContractDefinition {
    /// The definition of a contract by the references that the properties
    /// of its schema hold: each message type is the type that its
    /// reference names, and no return type of a query is known yet. The
    /// references must be ones into the definitions of the schema.
    pub fn new(references: &ContractReferences) -> (definition: Self)
        requires
            references.all_into_definitions(),
        ensures
            opt_text(definition.instantiate_type) == property_type(references.instantiate),
            opt_text(definition.execute_type) == property_type(references.execute),
            opt_text(definition.query_type) == property_type(references.query),
            opt_text(definition.migrate_type) == property_type(references.migrate),
            opt_text(definition.sudo_type) == property_type(references.sudo),
            opt_text(definition.cw20_hook_type) == property_type(references.cw20_hook),
            definition.query_enum_varient_to_return_type@.len() == 0,
    {
        ContractSdkContractDefinition {
            instantiate_type: type_name_of_property(references.instantiate),
            execute_type: type_name_of_property(references.execute),
            query_type: type_name_of_property(references.query),
            query_enum_varient_to_return_type: Vec::new(),
            migrate_type: type_name_of_property(references.migrate),
            sudo_type: type_name_of_property(references.sudo),
            cw20_hook_type: type_name_of_property(references.cw20_hook),
        }
    }
}

/// The module that exports a type to the generated code.
pub open spec fn module_of_type(name: Seq<char>) -> Seq<char> {
    if name == "ContractBase"@ {
        "@crownfi/sei-utils"@
    } else if name == "ExecuteInstruction"@ {
        "@cosmjs/cosmwasm-stargate"@
    } else if name == "Coin"@ {
        "@cosmjs/amino"@
    } else {
        "./types.js"@
    }
}

/// The module that exports a type to the generated code: the module of
/// the three types that come from libraries, and the module of the
/// generated types for every other type.
pub fn type_to_module(name: &str) -> (module: &'static str)
    ensures
        module@ == module_of_type(name@),
{
    let given = name.to_owned();
    if given == "ContractBase".to_owned() {
        "@crownfi/sei-utils"
    } else if given == "ExecuteInstruction".to_owned() {
        "@cosmjs/cosmwasm-stargate"
    } else if given == "Coin".to_owned() {
        "@cosmjs/amino"
    } else {
        default_module()
    }
}

/// The module of the generated types.
pub fn default_module() -> (module: &'static str)
    ensures
        module@ == "./types.js"@,
{
    "./types.js"
}

} // verus!
