[package]
name = "tailscale_dns"
version = "0.1.0"
edition = "2021"
publish = false

[dependencies]
anyhow = "*"
async-trait = "*"
aws-config = "*"
aws-sdk-route53 = "*"
config = "*"
tailscale-api = "*"
tokio = { version = "*", features = ["macros", "rt-multi-thread"] }
