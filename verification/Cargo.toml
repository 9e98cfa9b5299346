[package]
name = "rs_pg_schemas2ql"
version = "0.1.0"
edition = "2021"
publish = false

[dependencies]
async-graphql = "*"
async-graphql-axum = "*"
axum = "*"
sqlx = { version = "*", default-features = false, features = ["postgres", "runtime-tokio"] }
tokio = { version = "*", features = ["macros", "rt-multi-thread", "net"] }
