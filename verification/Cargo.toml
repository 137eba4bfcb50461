[package]
name = "lupa"
version = "0.1.0"
edition = "2021"
publish = false

[dependencies]
fuzzy-matcher = "0.3"
evalexpr = "*"
emojis = "*"
urlencoding = "2"
mime-type = "*"
icon_finder = "*"
xdg = "*"
toml = "*"
serde = { version = "1", features = ["derive"] }
mlua = { version = "*", features = ["lua54", "vendored", "serialize"] }
nix = { version = "*", features = ["process", "user"] }
gtk4 = "*"
libadwaita = "*"
gtk4-layer-shell = "*"
gettext-rs = "*"
system_shutdown = "*"
