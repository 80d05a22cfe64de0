[package]
name = "rcomp"
version = "0.1.0"
edition = "2021"
publish = false

[dependencies]
ena = "=0.14.4"
ariadne = "=0.6.0"
clap = { version = "=4.6.7", features = ["derive"] }
lalrpop-util = "=0.23.2"
cranelift-codegen = "=0.131.3"
cranelift-frontend = "=0.131.3"
cranelift-module = "=0.131.3"
cranelift-object = "=0.131.3"
