[package]
name = "adder_codec"
version = "0.1.0"
edition = "2021"
publish = false

[dependencies]
arithmetic-coding = "=0.5.0"
bitstream-io = "=4.10.0"
fast-math = "=0.1.1"
smallvec = "=1.16.4"
thiserror = "=1.0.69"

[dev-dependencies]
rand = "0.8"
