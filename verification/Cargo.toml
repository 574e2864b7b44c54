[package]
name = "mandelbrot"
version = "0.1.0"
edition = "2021"
publish = false

[dependencies]
js-sys = "*"
wasm-bindgen = "*"
web-sys = { version = "*", features = ["CanvasRenderingContext2d", "Document", "Element", "HtmlButtonElement", "HtmlCanvasElement", "HtmlElement", "ImageData", "Node", "Window"] }
