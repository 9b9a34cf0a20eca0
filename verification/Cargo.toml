[package]
name = "code_interpreter"
version = "0.1.0"
edition = "2021"
publish = false

[dependencies]
anyhow = "=1.0.104"
async-openai = { version = "=0.42.2", features = ["chat-completion"] }
async-stream = "=0.3.6"
base64 = "=0.23.1"
clap = { version = "=4.6.7", default-features = false, features = ["std", "help", "usage", "error-context"] }
clia-local-offset = "=0.1.0"
colored = "=3.1.1"
derive_builder = "=0.20.2"
futures = "=0.3.34"
futures-core = "=0.3.34"
image = { version = "=0.25.10", default-features = false, features = ["png", "jpeg", "gif"] }
jupyter-client = "=0.1.0"
os_info = "=3.15.0"
regex = "=1.13.1"
reqwest = { version = "=0.13.5", default-features = false, features = ["json"] }
rustyline = { version = "=19.0.0", default-features = false, features = ["with-file-history"] }
serde = { version = "=1.0.229", features = ["derive"] }
serde_json = "=1.0.154"
syntect = { version = "=5.3.0", default-features = false, features = ["default-syntaxes", "default-themes", "regex-fancy"] }
termimad = "=0.35.5"
time = { version = "=0.3.55", features = ["macros"] }
tokio = { version = "=1.54.1", features = ["full"] }
tracing = "=0.1.44"
tracing-appender = "=0.2.5"
tracing-subscriber = { version = "=0.3.23", features = ["env-filter", "time", "local-time"] }
viuer = "=0.11.0"
whoami = { version = "=2.1.3", default-features = false, features = ["std"] }
