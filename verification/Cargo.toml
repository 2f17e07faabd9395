[package]
name = "snake_kernel"
version = "0.1.0"
edition = "2021"
publish = false

[dependencies]
rand = "0.8"
wasm-bindgen = "0.2"
js-sys = "0.3"
web-sys = { version = "0.3", features = ["console", "CssStyleDeclaration", "Document", "Element", "Event", "EventTarget", "HtmlElement", "HtmlPreElement", "KeyboardEvent", "Node", "Text", "Window"] }
