[package]
name = "dockio"
version = "0.1.0"
edition = "2021"
publish = false

[dependencies]
base64 = "0.21"
flate2 = "1"
serde = { version = "1", features = ["derive"] }
serde_derive = "1"
serde_json = "1"
yew = { version = "0.21", features = ["csr"] }
gloo = "0.10"
js-sys = "0.3"
wasm-bindgen = "0.2"
wasm-bindgen-futures = "0.4"
futures = "0.3"
web-sys = { version = "0.3", features = ["DomParser", "SupportedType", "Document", "Element", "HtmlElement", "HtmlCollection", "HtmlHeadElement", "Node", "NodeList", "SvgElement", "SvgRectElement", "MouseEvent", "Window", "Location", "EventTarget", "Event"] }
