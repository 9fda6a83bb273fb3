[package]
name = "bandcamp_sync"
version = "0.1.0"
edition = "2021"
publish = false

[dependencies]
sha1 = "0.10"
base64 = "0.22"
regex = "1"
html-escape = "0.2"
urlencoding = "2"
url = "2"
num_cpus = "1"
scraper = "*"
anyhow = "1"
clap = { version = "4", features = ["derive", "env"] }
clap_complete = "4"
colored = "*"
dialoguer = "*"
indicatif = "*"
keyring = "3"
reqwest = { version = "0.12", default-features = false, features = ["json", "cookies", "rustls-tls"] }
reqwest_dav = "*"
tokio = { version = "1", features = ["full"] }
futures = "0.3"
tempfile = "3"
zip = { version = "*", default-features = false, features = ["deflate"] }
serde = { version = "1", features = ["derive"] }
serde_json = "1"
chrono = "0.4"
rand = "0.8"
thirtyfour = "*"
musicbrainz_rs = "*"
lofty = "*"
image = { version = "*", default-features = false, features = ["jpeg", "png"] }
async-trait = "*"
