[package]
name = "vlog"
version = "0.1.0"
edition = "2021"
publish = false

[dependencies]
llhd = "=0.3.1"
argparse = "=0.2.2"
