[package]
name = "ros2_bridge"
version = "0.1.0"
edition = "2021"
publish = false

[dependencies]
futures = "*"
make87 = "=0.1.1"
make87_messages = "=0.1.1"
ros2-client = "=0.11.0"
tokio = { version = "*", features = ["macros", "rt-multi-thread"] }
uuid = { version = "*", features = ["v4"] }
