[package]
name = "star_haven_platform"
version = "0.1.0"
edition = "2021"
publish = false

[dependencies]
jsonwebtoken = { version = "=11.1.0", features = ["rust_crypto"] }
uuid = { version = "=1.27.0", features = ["v4"] }
webauthn-rs = { version = "=0.5.5", features = ["conditional-ui"] }
webauthn-rs-proto = "=0.5.5"

[dev-dependencies]
webauthn-authenticator-rs = { version = "=0.5.5", features = ["softpasskey"] }
