[package]
name = "duprm"
version = "1.0.0"
edition = "2021"
publish = false

[dependencies]
md5 = "0.7"
num-integer = "0.1"
clap = "2.33"
glob = "0.3"
termcolor = "1"
threadpool = "1"
async-std = "1"
futures = "0.3"
