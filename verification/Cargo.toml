[package]
name = "zkm_pcs"
version = "0.1.0"
edition = "2021"
publish = false

[dependencies]
p3-air = "=0.8.0"
p3-field = "=0.8.0"
p3-koala-bear = "=0.8.0"
p3-symmetric = "=0.8.0"
p3-challenger = "=0.8.0"
p3-commit = "=0.8.0"
p3-dft = "=0.8.0"
p3-matrix = "=0.8.0"
p3-merkle-tree = "=0.8.0"
p3-maybe-rayon = "=0.8.0"
p3-uni-stark = "=0.8.0"
hashbrown = "=0.17.1"
serde = { version = "1", features = ["derive"] }
rmp-serde = "1"
tracing = "0.1"

[dev-dependencies]
rand = { version = "0.8", features = ["std_rng"] }
