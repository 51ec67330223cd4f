[package]
name = "kanban"
version = "0.1.0"
edition = "2021"
publish = false

[dependencies]
chrono = "0.4"
clap = { version = "4", features = ["derive"] }
ratatui = "0.29"
rusqlite = { version = "0.32", features = ["bundled"] }
tui-textarea = "0.7"
