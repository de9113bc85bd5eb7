[package]
name = "appsscope"
version = "0.1.0"
edition = "2021"
publish = false

[dependencies]
image = { version = "*", default-features = false, features = ["png", "jpeg", "gif", "webp", "bmp", "ico", "tiff"] }
rusqlite = "*"
appstream = "*"
zbus = "*"
tokio = { version = "*", features = ["full"] }
tokio-stream = "*"
tokio-util = "*"
futures-core = "*"
futures-util = "*"
async-trait = "*"
reqwest = "*"
tracing = "*"
tracing-subscriber = { version = "*", features = ["env-filter"] }
thiserror = "*"
libflatpak = "*"
relm4 = { version = "*", features = ["libadwaita"] }
