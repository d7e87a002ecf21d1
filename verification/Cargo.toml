[package]
name = "elb_logs_to_cloudwatch"
version = "0.1.0"
edition = "2021"
publish = false

[dependencies]
anyhow = "1"
aws_lambda_events = "0.2"
chrono = { version = "0.4", features = ["serde"] }
csv = "1"
env_logger = "0.7"
flate2 = "1"
itertools = "0.8"
lambda_runtime = "0.2"
lazy_static = "1"
log = "0.4"
rusoto_cloudwatch = "0.42"
rusoto_core = "0.42"
rusoto_logs = "0.42"
rusoto_s3 = "0.42"
serde = { version = "1", features = ["derive"] }
serde_json = "1"
smallvec = "1"
structopt = "0.3"
thiserror = "1"
uuid = { version = "0.8", features = ["v4"] }
wirefilter-engine = "0.6"
