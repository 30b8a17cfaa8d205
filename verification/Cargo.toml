[package]
name = "rustic_sketch"
version = "0.1.0"
edition = "2021"
publish = false

[dependencies]
async-trait = "0.1"
futures = "0.3"
sqlx = { version = "0.8", default-features = false, features = ["postgres", "runtime-tokio"] }
warp = "0.3"
