[package]
name = "flexi_logger"
version = "0.1.0"
edition = "2021"
publish = false

[dependencies]
log = "0.3"
regex = "1"
time = "0.1"
yansi = "0.5"
