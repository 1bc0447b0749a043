[package]
name = "treecomp"
version = "0.1.0"
edition = "2021"
publish = false

[dependencies]
base64 = "*"
redis = "*"
serde = { version = "*", features = ["derive"] }
serde_json = "*"
rand = "*"
rand_distr = "*"
swc_common = "*"
swc_ecma_parser = "*"
