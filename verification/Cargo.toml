[package]
name = "crabmail"
version = "0.1.0"
edition = "2021"
publish = false

[dependencies]
anyhow = "=1.0.104"
linkify = "=0.9.0"
mail-builder = "=0.2.5"
mail-parser = "=0.8.2"
mailparse = "=0.13.8"
mbox-reader = "=0.2.0"
nanotemplate = "=0.3.0"
once_cell = "=1.21.4"
pico-args = "=0.4.2"
urlencoding = "=2.1.3"
