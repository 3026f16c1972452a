[package]
name = "summars"
version = "0.1.0"
edition = "2021"
publish = false

[dependencies]
anyhow = "1"
chrono = "0.4"
cln-plugin = "*"
cln-rpc = "*"
fixed_decimal = "*"
icu_calendar = "*"
icu_datetime = "*"
icu_decimal = "*"
icu_locale = "*"
icu_time = "*"
lightning-invoice = "*"
log = "0.4"
log-panics = "*"
parking_lot = "*"
serde = { version = "1", features = ["derive"] }
serde_json = "1"
sys-locale = "*"
tabled = "*"
tokio = { version = "1", features = ["full"] }
