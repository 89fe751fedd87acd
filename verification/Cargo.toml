[package]
name = "ledger_prompts_ui"
version = "0.1.0"
edition = "2021"
publish = false

[dependencies]
arrayvec = "0.7"
include_gif = "1"
