[package]
name = "autokeyboardlayot_core"
version = "0.1.0"
edition = "2021"
publish = false

[dependencies]
unicode-general-category = "*"
sha2 = "*"
ed25519-dalek = "*"
zeroize = "*"
serde = { version = "1", features = ["derive"] }
serde_json = "1"
flate2 = "1"
