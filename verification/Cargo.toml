[package]
name = "web-sw-cor24-forth"
version = "0.1.0"
edition = "2021"
publish = false

[dependencies]
gloo = "0.11"
pulldown-cmark = { version = "0.11", default-features = false, features = ["html"] }
serde = { version = "1", features = ["derive"] }
serde_json = "1"
wasm-bindgen = "0.2"
web-sys = { version = "0.3", features = ["HtmlElement", "HtmlInputElement", "KeyboardEvent", "MouseEvent", "Event", "Storage", "Window", "Document", "FileList", "File"] }
yew = { version = "0.21", features = ["csr"] }
