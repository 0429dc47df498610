[package]
name = "network"
version = "0.1.0"
edition = "2021"
publish = false

[dependencies]
bevy = { version = "=0.12.1", default-features = false }
bevy_quinnet = "=0.6.0"
serde = { version = "=1.0.229", features = ["derive"] }
# Not used directly. bevy_quinnet 0.6.0 does not compile against later
# releases of tokio-util, which gave LengthDelimitedCodec a second Encoder
# impl and so made a `flush()` call in bevy_quinnet ambiguous.
tokio-util = "=0.7.10"
