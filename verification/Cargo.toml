[package]
name = "whp_vmm"
version = "0.1.0"
edition = "2021"
publish = false

[dependencies]
acpi_tables = "*"
anyhow = "1"
tracing = "0.1"
tracing-subscriber = { version = "0.3", features = ["env-filter"] }
tracing-error = "0.2"
which = "*"
windows = { version = "*", features = ["Win32_Foundation", "Win32_Security", "Win32_Security_Cryptography", "Win32_Storage_FileSystem", "Win32_System_Console", "Win32_System_Hypervisor", "Win32_System_IO", "Win32_System_Ioctl", "Win32_System_Memory", "Win32_System_Pipes", "Win32_System_Threading"] }

[dev-dependencies]
virtio-bindings = "*"
zerocopy = "*"
