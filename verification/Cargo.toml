[package]
name = "kube_ctf"
version = "0.1.0"
edition = "2021"
publish = false

[dependencies]
fastrand = "=2.5.0"
rust-argon2 = "=3.0.0"
serde = { version = "*", features = ["derive"] }
serde_json = "*"
chrono = "*"
jsonwebtoken = "*"
sqlx = { version = "*", default-features = false, features = ["postgres", "runtime-tokio"] }
redis = { version = "*", features = ["tokio-comp"] }
kube = { version = "=3.1.0", features = ["client", "derive"] }
k8s-openapi = { version = "=0.27.1", features = ["latest"] }
tokio = { version = "*", features = ["macros", "rt-multi-thread", "net", "time"] }
axum = "*"
async-trait = "*"
anyhow = "*"
dotenvy = "*"
