[package]
name = "polybar-modules"
version = "0.1.0"
edition = "2021"
publish = false

[dependencies]
anyhow = "1"
backon = { version = "1", default-features = false, features = ["std"] }
bounded-vec-deque = "0.1"
chrono = "0.4"
clap = { version = "4", features = ["derive"] }
glob = "0.3"
hex = "0.4"
log = "0.4"
macaddr = "1"
mio = { version = "1", features = ["os-poll", "os-ext"] }
notify = "8"
quick-xml = { version = "*", features = ["serialize"] }
rand = "0.9"
scraper = "*"
serde = { version = "1", features = ["derive"] }
serde_json = "1"
sha2 = "0.10"
shellexpand = "3"
signal-hook = "0.3"
simple_logger = "5"
strip-ansi-escapes = "0.2"
sysinfo = "*"
tokio-modbus = { version = "*", default-features = false, features = ["tcp-sync"] }
toml = "*"
tungstenite = "*"
ureq = { version = "3", default-features = false, features = ["native-tls", "json"] }
url = "2"
xdg = "3"
