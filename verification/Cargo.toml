[package]
name = "pathtracer"
version = "0.1.0"
edition = "2021"
publish = false

[dependencies]
clap = { version = "=4.6.7", features = ["derive"] }
fastrand = "=2.5.0"
mimalloc = "=0.1.52"
minifb = "=0.25.0"
png = "=0.17.16"
quasirandom = "=0.3.0"
radiant = "=0.3.0"
rayon = "=1.12.0"
ron = "=0.8.1"
serde = { version = "=1.0.229", features = ["derive"] }
tobj = "=4.0.5"
ultraviolet = "=0.9.2"
