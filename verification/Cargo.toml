[package]
name = "crownfi_cw_common"
version = "0.1.0"
edition = "2021"
publish = false

[dependencies]
bech32 = "0.9"
bnum = "0.8"
borsh = { version = "1", features = ["derive"] }
bytemuck = { version = "1", features = ["derive"] }
convert_case = "0.6"
cosmwasm-schema = "1.5"
cosmwasm-std = "1.5"
cw20 = "1.1"
deunicode = "1"
hex = "0.4"
itertools = "0.12"
lazy-regex = "3"
schemars = "0.8"
sei-cosmwasm = "0.4"
serde = { version = "1", features = ["derive"] }
serde_json = "1"
static_assertions = "1"
thiserror = "1"
tiny-keccak = { version = "2", features = ["keccak"] }
which = "6"
