//! The verified core of a virtual machine monitor for the Windows Hypervisor
//! Platform that boots Linux with virtio-mmio devices.

pub mod aml;
pub mod byte_order;
pub mod config;
pub mod cpu;
pub mod device_manager;
pub mod devices;
pub mod emulator;
pub mod laws;
pub mod linux_boot;
pub mod memory;
pub mod partition;
pub mod terminal;
pub mod text;
pub mod virtio;
pub mod vm;
pub mod vm_memory;
