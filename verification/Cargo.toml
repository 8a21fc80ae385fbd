[package]
name = "pdf_ocr"
version = "0.1.0"
edition = "2021"
publish = false

[dependencies]
base64 = "0.22"
chrono = { version = "0.4", default-features = false, features = ["clock", "std"] }
clap = { version = "4", features = ["derive"] }
directories = "5"
futures = "0.3"
image = { version = "0.25", default-features = false, features = ["png"] }
indicatif = "0.17"
lopdf = { version = "0.34", default-features = false, features = ["nom_parser"] }
regex = "1"
reqwest = { version = "0.12", default-features = false, features = ["json"] }
serde = { version = "1", features = ["derive"] }
serde_json = "1"
sha2 = "0.10"
tempfile = "3"
thiserror = "1"
tokio = { version = "1", features = ["full"] }
webp = "0.3"
