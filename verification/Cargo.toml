[package]
name = "pacman-ostree"
version = "0.1.0"
edition = "2021"
publish = false

[dependencies]
anyhow = "1"
camino = "1"
cap-std = "*"
cap-std-ext = "*"
chrono = "0.4"
clap = { version = "4", features = ["derive"] }
fn-error-context = "0.2"
libc = "0.2"
oci-spec = "*"
ostree = "*"
ostree-ext = "*"
rustix = { version = "*", features = ["fs"] }
serde = { version = "1", features = ["derive"] }
serde_json = "1"
serde_yaml = "0.9"
tempfile = "3"
tokio = { version = "1", features = ["rt-multi-thread", "macros"] }
walkdir = "2"
