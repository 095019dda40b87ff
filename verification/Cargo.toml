[package]
name = "ata"
version = "0.1.0"
edition = "2021"
publish = false

[dependencies]
serde_json = "1"
hyper = { version = "0.14", features = ["client", "http1", "tcp", "stream"] }
hyper-rustls = "0.24"
hyper-tls = "0.5"
tokio = { version = "1", features = ["macros", "rt-multi-thread"] }
clap = { version = "4", features = ["derive"] }
rustyline = "13"
directories = "5"
os_str_bytes = "6"
serde = { version = "1", features = ["derive"] }
toml = "0.8"
termion = "2"
