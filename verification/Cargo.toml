[package]
name = "swc_minify_lits"
version = "0.1.0"
edition = "2021"
publish = false

[dependencies]
lightningcss = "=1.0.0-alpha.51"
minify-html = "=0.15.0"
parcel_selectors = "=0.26.4"
serde = { version = "=1.0.219", features = ["derive"] }
serde_json = "=1.0.140"
swc_core = { version = "=0.90.37", features = ["ecma_plugin_transform", "ecma_ast", "ecma_visit"] }
thiserror = "=1.0.69"
