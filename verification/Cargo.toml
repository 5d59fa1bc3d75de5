[package]
name = "meshcop"
version = "0.1.0"
edition = "2021"
publish = false

[dependencies]
aes = "=0.8.4"
ccm = "=0.5.0"
sha2 = "=0.10.9"
rand_core = { version = "=0.6.4", features = ["getrandom"] }
zeroize = "=1.9.1"
futures-core = "=0.3.34"
embedded-hal-async = "=1.0.0"
embedded-io-async = { version = "=0.6.1", features = ["std"] }
embedded-nal-async = "=0.8.0"
thiserror = "=2.0.21"
tokio = { version = "=1.54.1", features = ["macros", "net", "rt", "sync", "time"] }

[dev-dependencies]
hex = "=0.4.3"
