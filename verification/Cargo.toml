[package]
name = "pdf_editor_backend"
version = "0.1.0"
edition = "2021"
publish = false

[dependencies]
lopdf = "*"
ttf-parser = "*"
uuid = { version = "*", features = ["v4", "serde"] }
axum = { version = "*", features = ["multipart"] }
tokio = { version = "*", features = ["full"] }
reqwest = { version = "*", default-features = false }
serde = { version = "*", features = ["derive"] }
tower-http = { version = "*", features = ["cors", "trace"] }
tracing = "*"
tracing-subscriber = { version = "*", features = ["env-filter"] }
dotenvy = "*"
pdfium-render = "*"
