[package]
name = "killport"
version = "1.1.0"
edition = "2021"
publish = false

[dependencies]
bollard = "0.16"
clap = { version = "4.5", features = ["derive"] }
clap-verbosity-flag = "2.2"
env_logger = "0.11"
libproc = "0.14"
log = "0.4"
nix = { version = "0.28", features = ["signal"] }
procfs = "0.16"
tokio = { version = "1", features = ["rt", "rt-multi-thread"] }
windows-sys = { version = "0.52", features = ["Win32_Foundation", "Win32_NetworkManagement_IpHelper", "Win32_Networking_WinSock", "Win32_System_Diagnostics_ToolHelp", "Win32_System_Threading"] }
