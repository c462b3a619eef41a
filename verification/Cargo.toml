[package]
name = "chezmage"
version = "0.1.0"
edition = "2021"
publish = false

[dependencies]
anyhow = "=1.0.104"
clap = { version = "=4.6.7", features = ["derive"] }
gethostname = "=1.1.0"
libc = "=0.2.191"
opentelemetry = "=0.31.0"
opentelemetry-appender-tracing = "=0.31.1"
opentelemetry-otlp = "=0.31.1"
opentelemetry-semantic-conventions = { version = "=0.31.0", features = ["semconv_experimental"] }
opentelemetry_sdk = "=0.31.0"
serde = { version = "=1.0.229", features = ["derive"] }
sysinfo = "=0.37.2"
toml = "=0.9.12"
tracing = "=0.1.44"
tracing-opentelemetry = "=0.32.1"
tracing-subscriber = { version = "=0.3.23", features = ["env-filter"] }
windows-sys = { version = "=0.61.2", features = ["Win32_Foundation", "Win32_Security", "Win32_Storage_FileSystem", "Win32_System_IO", "Win32_System_Memory", "Win32_System_Pipes"] }
zeroize = "=1.9.1"
