[package]
name = "todolist"
version = "0.1.0"
edition = "2021"
publish = false

[dependencies]
yew = { version = "*", features = ["csr"] }
web-sys = { version = "*", features = ["Window", "Storage", "HtmlInputElement"] }
wasm-bindgen = "*"
