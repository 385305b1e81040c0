[package]
name = "chessers"
version = "0.1.0"
edition = "2021"
publish = false

[dependencies]
shakmaty = "=0.27.3"
zstd = "=0.14.0"
pgn-reader = "=0.26.0"
