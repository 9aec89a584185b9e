[package]
name = "package_manager"
version = "0.1.0"
edition = "2021"
publish = false

[dependencies]
version-compare = "=0.2.1"
goblin = "=0.10.7"
tl = "=0.7.8"
url = "=2.5.8"
daggy = "=0.9.0"
rapidhash = "=4.5.1"
lzma-rs = "=0.3.0"
num_cpus = "=1.17.0"
anyhow = "=1.0.104"
clap = { version = "=4.6.7", default-features = false, features = ["std", "derive", "help", "usage", "error-context"] }
serde = { version = "=1.0.229", features = ["derive"] }
toml = "=1.1.8"
tracing = "=0.1.44"
tracing-subscriber = { version = "=0.3.23", default-features = false, features = ["std", "fmt", "env-filter"] }
fs-err = "=3.3.2"
walkdir = "=2.5.0"
tar = "=0.4.46"
bstr = "=1.13.1"
show-option = "=0.2.0"
non-zero = "=0.2.0"
fn-error-context = "=0.2.1"
gix = { version = "=0.90.0", default-features = false, features = ["sha1", "blocking-network-client", "blocking-http-transport-reqwest-rust-tls", "worktree-mutation", "index"] }
reqwest = { version = "=0.12.28", default-features = false, features = ["blocking", "rustls-tls-webpki-roots-no-provider"] }
rustls-rustcrypto = "=0.0.2-alpha"
landlock = "=0.4.7"
