[package]
name = "rocket_crud"
version = "0.1.0"
edition = "2021"
publish = false

[dependencies]
nanoid = "0.4"
pwhash = "1"
serde = { version = "1", features = ["derive"] }
rocket = "0.4"
rocket_contrib = { version = "0.4", default-features = false, features = ["json", "helmet", "serve", "handlebars_templates"] }
rocket_cors = "0.5"
rocket_csrf = "0.1"
sled-extensions = { version = "0.2", features = ["json"] }
