[package]
name = "copp"
version = "0.1.0"
edition = "2021"
publish = false

[dependencies]
clarabel = "*"
nalgebra = "*"
itertools = "*"
log = "*"
chrono = "*"
thiserror = "*"
