[package]
name = "lowcharts"
version = "0.1.0"
edition = "2021"

[dependencies]
chrono = "0.4"
clap = "4"
regex = "1"
yansi = "0.5"
atty = "0.2"
humantime = "2"
