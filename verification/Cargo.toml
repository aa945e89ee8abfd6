[package]
name = "feembox"
version = "0.1.0"
edition = "2021"
publish = false

[dependencies]
feed-rs = "0.6"
mail-core = "=0.6.2"
mail-headers = "=0.6.6"
mail-internals = "=0.2.3"
clap = "=2.34.0"
chrono = "=0.4.45"
unicase = "=2.10.0"
linked_hash_set = "=0.1.6"
mime = "=0.3.17"
mailparse = "=0.18.0"
tabwriter = "=1.4.1"
hostname = "=0.3.1"
memmap2 = "=0.9.12"
futures = "=0.1.31"
