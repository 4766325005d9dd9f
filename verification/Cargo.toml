[package]
name = "blender_batch_render_helper"
version = "0.1.0"
edition = "2021"
publish = false

[dependencies]
serde = { version = "1", features = ["derive"] }
csv = "1.2"
chrono = "0.4"
clap = { version = "4", features = ["derive"] }
tokio = { version = "1", features = ["macros", "rt-multi-thread"] }
sentry = { version = "0.30", default-features = false }
git2 = { version = "0.16", default-features = false }
aws-config = "0.54"
aws-sdk-cloudformation = "0.24"
aws-sdk-s3 = "0.24"
aws-sdk-sts = "0.24"
aws-smithy-http = "0.54"
