[package]
name = "tdh_decoder"
version = "0.1.0"
edition = "2021"
publish = false

[dependencies]
tracing = "0.1"
twox-hash = "1.6"
windows-sys = { version = "0.59", features = ["Win32_Foundation", "Win32_System_Diagnostics_Etw", "Win32_System_Time"] }
