[package]
name = "flashcards"
version = "0.1.0"
edition = "2021"
publish = false

[dependencies]
rand = "0.8"
serde = { version = "1", features = ["derive"] }
serde_json = "1"
yew = { version = "0.21", features = ["csr"] }
web-sys = { version = "0.3", features = ["HtmlSelectElement", "HtmlInputElement", "HtmlElement", "KeyboardEvent", "Event"] }
