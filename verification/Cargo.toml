[package]
name = "k20_bench"
version = "0.1.0"
edition = "2021"
publish = false

[dependencies]
cortex-m = "0.7"
cortex-m-rt = "0.7"
defmt = "*"
defmt-rtt = "*"
panic-probe = "*"
