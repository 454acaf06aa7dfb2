[package]
name = "xmipp4_core_types"
version = "0.1.0"
edition = "2021"
publish = false

[dependencies]
thiserror = "*"
