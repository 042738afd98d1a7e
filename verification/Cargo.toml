[package]
name = "web-sw-cor24-plsw"
version = "0.1.0"
edition = "2021"
publish = false

[dependencies]
yew = { version = "0.21", features = ["csr"] }
gloo = "0.10"
wasm-bindgen = "0.2"
web-sys = { version = "0.3", features = ["HtmlTextAreaElement", "HtmlInputElement", "HtmlSelectElement", "Element", "Document", "Window", "console", "FileList", "File", "KeyboardEvent", "MouseEvent", "InputEvent", "Event", "EventTarget"] }
