[package]
name = "json_main"
version = "0.1.0"
edition = "2021"
publish = false

[dependencies]
time = { version = "=0.3.55", features = ["formatting", "parsing"] }
wasm-bindgen = "=0.2.129"
web-sys = { version = "=0.3.106", features = ["Clipboard", "Document", "DomTokenList", "Element", "Event", "EventTarget", "HtmlButtonElement", "HtmlElement", "HtmlTextAreaElement", "Navigator", "Window", "console"] }
