[package]
name = "qk"
version = "0.1.0"
edition = "2021"
publish = false

[dependencies]
slotmap = "1"
syn = { version = "1", features = ["full", "visit", "extra-traits"] }
quote = "1"
proc-macro2 = "1"
syn-rsx = "0.9"
wasm-bindgen = "0.2"
js-sys = "0.3"
web-sys = { version = "0.3", features = ["Document", "Element", "Event", "EventTarget", "Node", "Text", "Window", "HtmlElement", "CssStyleDeclaration"] }
