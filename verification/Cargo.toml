[package]
name = "postform_decoder"
version = "0.6.0"
edition = "2021"
publish = false

[dependencies]
object = { version = "*", features = ["write"] }
rcobs = "*"
cobs = "*"
colored = "*"

[dev-dependencies]
leb128 = "*"
