[package]
name = "tfdeploy"
version = "0.1.0"
edition = "2021"
publish = false

[dependencies]
ndarray = "0.15"
protobuf = "2"
num-traits = "0.2"
clap = "2"
colored = "2"
log = "0.4"
simplelog = "0.12"
rand = "0.8"
time = "0.1"
error-chain = "0.12"
tensorflow = "*"
