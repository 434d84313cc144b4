//! The state in which the kernel is entered: page tables and registers.

use vstd::prelude::*;

use crate::byte_order::le_bytes;
use crate::laws::memory::{digits, law_bytes_add_up, lemma_digits_of};
use crate::linux_boot::{
    boot_gdt, boot_registers, gigabyte_entries, gigabyte_entry, identity_tables, mapped_gigabytes,
    tables_fit, RegisterName, RegisterValue,
};
use crate::memory::layout::MemoryLayout;

verus! {

proof fn lemma_entry_value(i: u64)
    by (bit_vector)
    requires
        i < 512,
    ensures
        (i << 30) | 0x83 == i * 0x4000_0000 + 0x83,
{
}

proof fn lemma_entries(n: nat, i: int)
    requires
        n <= 512,
    ensures
        gigabyte_entries(n).len() == 8 * n,
        0 <= i < n ==> digits(gigabyte_entries(n), 8 * i, 8) == i * 0x4000_0000 + 0x83,
    decreases n,
{
    if n > 0 {
        let m = (n - 1) as nat;
        lemma_entries(m, i);
        let v = gigabyte_entry(m as u64);
        let last = le_bytes(v as nat, 8);
        law_bytes_add_up(v as nat, 8);
        lemma_entry_value(m as u64);
        let all = gigabyte_entries(n);
        if i == m {
            lemma_digits_of(all, last, 8 * i, 0, 8);
        } else if 0 <= i < m {
            lemma_digits_of(all, gigabyte_entries(m), 8 * i, 8 * i, 8);
        }
    }
}

proof fn lemma_pointer(p: u64)
    by (bit_vector)
    requires
        p % 4096 == 0,
    ensures
        p | 0x3 == p + 3,
{
}

/// The page tables: the first entry points to the second table, present and
/// writable; entry `i` of the second maps gigabyte `i` to itself, present,
/// writable and as one page; and no other entry is present.
pub proof fn law_page_tables(map: MemoryLayout, kernel_load_addr: u64, init_size: u32, i: int)
    requires
        tables_fit(map),
        map.pdpte_start % 4096 == 0,
    ensures
        ({
            let n = mapped_gigabytes(map, kernel_load_addr, init_size);
            let t = identity_tables(map, n);
            let second = map.pdpte_start - map.pml4_start;
            &&& t.len() == 8192
            &&& digits(t, 0, 8) == map.pdpte_start + 3
            &&& 0 <= i < n ==> digits(t, second + 8 * i, 8) == i * 0x4000_0000 + 0x83
            &&& forall|j: int|
                8 <= j < 8192 && !(second <= j < second + 8 * n) ==> #[trigger] t[j] == 0
        }),
{
    let n = mapped_gigabytes(map, kernel_load_addr, init_size);
    let t = identity_tables(map, n);
    let second = map.pdpte_start - map.pml4_start;
    lemma_entries(n as nat, i);
    lemma_pointer(map.pdpte_start);
    let pointer = le_bytes((map.pdpte_start | 0x3) as nat, 8);
    law_bytes_add_up((map.pdpte_start | 0x3) as nat, 8);
    lemma_digits_of(t, pointer, 0, 0, 8);
    if 0 <= i < n {
        lemma_digits_of(t, gigabyte_entries(n as nat), second + 8 * i, 8 * i, 8);
    }
}

/// How many gigabytes are mapped: at least four, at most what a table holds;
/// in between, one more than it takes to reach the end of the kernel and that
/// of the command line.
pub proof fn law_mapped_gigabytes(map: MemoryLayout, kernel_load_addr: u64, init_size: u32)
    ensures
        ({
            let n = mapped_gigabytes(map, kernel_load_addr, init_size);
            let kernel = kernel_load_addr + init_size;
            let cmdline = map.cmdline_start + map.cmdline_max_size;
            &&& 4 <= n <= 512
            &&& n < 512 ==> (n - 1) * 0x4000_0000 >= kernel && (n - 1) * 0x4000_0000 >= cmdline
            &&& n > 4 ==> (n - 2) * 0x4000_0000 < kernel || (n - 2) * 0x4000_0000 < cmdline
        }),
{
}

/// The value that a register is set to, if it is set once.
pub open spec fn set_to(
    registers: Seq<(RegisterName, RegisterValue)>,
    i: int,
    name: RegisterName,
    value: RegisterValue,
) -> bool {
    &&& registers[i] == (name, value)
    &&& forall|j: int| 0 <= j < registers.len() && j != i ==> (#[trigger] registers[j]).0 != name
}

/// The registers at the kernel's entry. Paging: on, protected and long, with
/// physical address extension, by the tables of the layout. Segments: flat, the
/// code one executable and of 64 bits, the others writable; the selectors are
/// those of the table's third and fourth descriptors. The rest: interrupts are
/// off; execution starts at the entry, with the boot parameters in the second
/// argument and the boot stack.
pub proof fn law_entry_registers(map: MemoryLayout, entry: u64)
    ensures
        ({
            let r = boot_registers(map, entry);
            let code = RegisterValue::Segment {
                base: 0,
                limit: 0xFFFF_FFFF,
                selector: 16,
                attributes: 0xA09B,
            };
            let data = RegisterValue::Segment {
                base: 0,
                limit: 0xFFFF_FFFF,
                selector: 24,
                attributes: 0xC093,
            };
            &&& r.len() == 13
            &&& set_to(r, 0, RegisterName::Gdtr, RegisterValue::Table { base: map.boot_gdt_start, size: 31 })
            &&& set_to(r, 1, RegisterName::Cr3, RegisterValue::Reg64(map.pml4_start))
            &&& set_to(r, 2, RegisterName::Cr4, RegisterValue::Reg64(32))
            &&& set_to(r, 3, RegisterName::Efer, RegisterValue::Reg64(256))
            &&& set_to(
                r,
                4,
                RegisterName::Cr0,
                RegisterValue::Reg64(0x8005_0033),
            )
            &&& set_to(r, 5, RegisterName::Cs, code)
            &&& set_to(r, 6, RegisterName::Ds, data)
            &&& set_to(r, 7, RegisterName::Es, data)
            &&& set_to(r, 8, RegisterName::Ss, data)
            &&& set_to(r, 9, RegisterName::Rip, RegisterValue::Reg64(entry))
            &&& set_to(r, 10, RegisterName::Rsi, RegisterValue::Reg64(map.zero_page_start))
            &&& set_to(r, 11, RegisterName::Rsp, RegisterValue::Reg64(map.boot_stack_pointer))
            &&& set_to(r, 12, RegisterName::Rflags, RegisterValue::Reg64(2))
        }),
{
}

/// The boot descriptor table: two empty descriptors, then code and data, each
/// with the largest limit in pages and base zero.
#[verifier::spinoff_prover]
#[verifier::rlimit(60)]
pub proof fn law_boot_descriptors()
    ensures
        ({
            let t = boot_gdt();
            &&& t.len() == 32
            &&& forall|i: int| 0 <= i < 16 ==> #[trigger] t[i] == 0
            &&& digits(t, 16, 2) == 0xFFFF && digits(t, 24, 2) == 0xFFFF
            &&& digits(t, 18, 3) == 0 && digits(t, 26, 3) == 0
            &&& t[21] == 0x9A && t[29] == 0x93
            &&& t[22] == 0xAF && t[30] == 0xCF
            &&& t[23] == 0 && t[31] == 0
        }),
{
    let t = boot_gdt();
    let code: nat = 0x00AF_9A00_0000_FFFF;
    let data: nat = 0x00CF_9300_0000_FFFF;
    law_bytes_add_up(0, 8);
    law_bytes_add_up(code, 8);
    law_bytes_add_up(data, 8);
    reveal_with_fuel(digits, 9);
    reveal_with_fuel(le_bytes, 9);
}

} // verus!
