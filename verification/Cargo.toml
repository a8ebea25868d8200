[package]
name = "thermal"
version = "0.1.0"
edition = "2021"
publish = false

[dependencies]
chardetng = "=0.1.17"
# chardetng hands out encodings of encoding_rs and asks for that crate without
# features; decoding to a String needs its `alloc` feature, a default one.
encoding_rs = "=0.8.42"
textwrap = "=0.16.4"
unicode-display-width = "=0.3.0"
