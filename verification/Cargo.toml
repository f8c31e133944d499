[package]
name = "editor_core"
version = "0.1.0"
edition = "2021"
publish = false

[dependencies]
ropey = { version = "1.6", default-features = false }
uuid = { version = "1", features = ["v4"] }
serde = { version = "1", features = ["derive"] }
dioxus = { version = "0.6", features = ["web"] }
wasm-bindgen = "0.2"
js-sys = "0.3"
web-sys = { version = "0.3", features = ["Window", "Document", "Element", "HtmlElement", "HtmlTextAreaElement", "HtmlInputElement", "HtmlAnchorElement", "KeyboardEvent", "Event", "File", "FileList", "FileReader", "Blob", "BlobPropertyBag", "Url"] }
console_error_panic_hook = "0.1"
axum = "0.8"
tokio = { version = "1", features = ["full"] }
tower-http = { version = "0.6", features = ["trace"] }
mime_guess = "2"
