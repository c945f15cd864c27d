[package]
name = "dbase_sql"
version = "0.1.0"
edition = "2021"
publish = false

[dependencies]
clap = { version = "*", features = ["derive"] }
datafusion = "*"
dbase = "*"
dirs = "*"
rustyline = "*"
tokio = { version = "*", features = ["macros", "rt-multi-thread"] }
