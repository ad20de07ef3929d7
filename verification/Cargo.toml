[package]
name = "wld_fragment"
version = "0.1.0"
edition = "2021"
publish = false
