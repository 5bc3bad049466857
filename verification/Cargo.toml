[package]
name = "friendgrow"
version = "0.1.0"
edition = "2021"
publish = false

[dependencies]
anyhow = "*"
chrono = "*"
diesel = { version = "*", features = ["sqlite"] }
diesel_migrations = "*"
dotenv = "*"
libsqlite3-sys = { version = "*", features = ["bundled"] }
prettytable-rs = "*"
priority-queue = "*"
structopt = "*"
strum = { version = "*", features = ["derive"] }
