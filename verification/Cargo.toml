[package]
name = "procsnap"
version = "0.1.0"
edition = "2021"
publish = false

[dependencies]
sha1 = "*"
hex = "*"
zip = { version = "*", default-features = false }
sysinfo = "*"
argparse = "*"
