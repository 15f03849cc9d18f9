[package]
name = "atrinik_client"
version = "0.1.0"
edition = "2021"
publish = false

[dependencies]
httpdate = "=1.0.3"
sha2 = "=0.10.9"
ureq = "=3.5.1"
sdl3 = "=0.18.4"
