# whp_vmm

A virtual machine monitor that boots Linux on the Windows Hypervisor Platform,
with its logic proved in Verus.

- `src/` is the verified library: guest memory, the kernel loader and boot
  parameters, the I/O APIC, the virtio transport, queues and devices, the port
  and MMIO emulation, the handling of exits, and the tables that describe the
  machine to the guest. It does no I/O: it takes events and gives back what is
  to be done about them.
- `app/` is the program around it: the hypervisor, the console, the disk, the
  network and the threads.
- `tests/` runs the library on concrete values.

What each function does is stated over small models, such as `Ram` for guest
memory, `IoApicModel` and `TransportModel`. Properties that span functions are
public proof functions whose names start with `law_`.

The calls into `acpi_tables` are in `src/aml.rs` and `src/cpu.rs`, behind
functions whose contracts say which bytes the crate produces.
