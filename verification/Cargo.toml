[package]
name = "frog_quest_battle"
version = "0.1.0"
edition = "2021"
publish = false

[dependencies]
bmp = "=0.5.0"
bincode = "=1.3.3"
console_error_panic_hook = "=0.1.7"
gilrs = "=0.8.2"
js-sys = "=0.3.106"
log = "=0.4.34"
matchbox_socket = "=0.3.0"
serde = { version = "=1.0.229", features = ["derive"] }
wasm-bindgen = "=0.2.129"
wasm-logger = "=0.2.0"
web-sys = { version = "=0.3.57", features = ["Blob", "BlobPropertyBag", "Document", "Element", "Event", "EventTarget", "HtmlCanvasElement", "KeyboardEvent", "Location", "Url", "WebGl2RenderingContext", "WebGlBuffer", "WebGlProgram", "WebGlShader", "WebGlTexture", "WebGlUniformLocation", "WebGlVertexArrayObject", "Window"] }
