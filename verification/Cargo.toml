[package]
name = "zodl-slipstream"
version = "0.7.0"
edition = "2021"
publish = false

[dependencies]
bip39 = "=2.2.2"
bls12_381 = "=0.8.0"
clap = { version = "4", features = ["derive"] }
ff = "=0.13.1"
futures-util = "0.3"
group = "=0.13.0"
incrementalmerkletree = "=0.8.2"
jubjub = "=0.10.0"
orchard = "=0.15.5"
pasta_curves = "=0.5.2"
prost = "=0.14.4"
rand = "=0.8.8"
rayon = "1"
rusqlite = { version = "=0.37.0", features = ["bundled"] }
sapling-crypto = "=0.7.0"
shardtree = "=0.7.1"
sinsemilla = "=0.1.0"
tempfile = "=3.27.0"
tokio = { version = "1", features = ["rt-multi-thread", "macros", "time", "sync", "net"] }
tonic = "=0.14.9"
tracing-subscriber = { version = "0.3", features = ["env-filter"] }
uuid = "1"
zcash_address = "=0.13.0"
zcash_client_backend = { version = "=0.24.0", features = ["lightwalletd-tonic", "lightwalletd-tonic-tls-webpki-roots", "orchard", "transparent-inputs"] }
zcash_client_sqlite = { version = "=0.22.0", features = ["orchard", "transparent-inputs"] }
zcash_keys = { version = "=0.16.1", features = ["orchard", "sapling", "transparent-inputs"] }
zcash_primitives = "=0.30.1"
zcash_protocol = { version = "=0.10.6", features = ["local-consensus"] }
zcash_transparent = "=0.10.0"
zip32 = "=0.2.1"
