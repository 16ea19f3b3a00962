//! The client code that is generated for a contract: the names of its types
//! and methods, the types of the fields of its messages, and the methods
//! themselves.

pub mod methods;
pub mod schema;
pub mod sdk_maker;
pub mod strings_for_code;
pub mod type_names;
