[package]
name = "guardrail"
version = "0.1.0"
edition = "2021"
publish = false

[dependencies]
landlock = "0.4"
libc = "0.2"
napi = "3"
napi-derive = "3"
seccompiler = "0.5"
thiserror = "2"
