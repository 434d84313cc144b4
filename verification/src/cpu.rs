//! Processors and the tables that describe them to the guest.

use vstd::prelude::*;

use acpi_tables::sdt::Sdt;

use crate::aml::{
    constant_method, device_bytes, device_with_method_to_aml_bytes, integer_bytes, is_ascii, name_integer,
    name_text, named, ascii_bytes, scope_bytes, scope_raw, valid_path,
};
use crate::byte_order::{
    encode_le, law_le_value_of_bytes, le_bytes, lemma_le_bytes_len, lemma_pow256_values,
};
use crate::linux_boot::u32_at;
use crate::memory::layout::MemoryLayout;
use crate::memory::memory::{spliced, GuestAddress};
use crate::text::{hex, hex_char, hex_text};

verus! {

pub const ACPI_APIC_PROCESSOR: u8 = 0;

pub const ACPI_APIC_IO: u8 = 1;

pub const ACPI_APIC_XRUPT_OVERRIDE: u8 = 2;

/// The sum of the bytes of `s`.
pub open spec fn byte_sum(s: Seq<u8>) -> nat
    decreases s.len(),
{
    if s.len() == 0 {
        0
    } else {
        byte_sum(s.drop_last()) + s.last() as nat
    }
}

/// A table whose checksum byte, the tenth, makes the sum of its bytes a
/// multiple of 256.
pub open spec fn with_checksum(s: Seq<u8>) -> Seq<u8> {
    let blank = s.update(9, 0u8);
    blank.update(9, ((256 - byte_sum(blank) % 256) % 256) as u8)
}

/// The header of a table, with a checksum byte of zero.
pub open spec fn table_header(
    signature: Seq<u8>,
    length: u32,
    revision: u8,
    oem_id: Seq<u8>,
    oem_table: Seq<u8>,
    oem_revision: u32,
) -> Seq<u8> {
    signature + le_bytes(length as nat, 4) + seq![revision, 0u8] + oem_id + oem_table + le_bytes(
        oem_revision as nat,
        4,
    ) + seq![82u8, 86u8, 65u8, 84u8, 0u8, 0u8, 0u8, 1u8]
}

/// `acpi_tables::sdt::Sdt`, a table under construction.
#[verifier::external_type_specification]
#[verifier::external_body]
pub struct ExSdt(Sdt);

/// The bytes that a table holds.
pub uninterp spec fn sdt_bytes(sdt: Sdt) -> Seq<u8>;

/// `Sdt::new`: a table of `length` bytes that starts with the header and is
/// zero after it. The header names the crate as its creator with the bytes
/// `RVAT` and revision 0, 0, 0, 1. The length must cover the header.
#[verifier::external_body]
fn sdt_new(
    signature: [u8; 4],
    length: u32,
    revision: u8,
    oem_id: [u8; 6],
    oem_table: [u8; 8],
    oem_revision: u32,
) -> (r: Sdt)
    requires
        length >= 36,
    ensures
        sdt_bytes(r) == with_checksum(
            table_header(signature@, length, revision, oem_id@, oem_table@, oem_revision) + Seq::new(
                (length - 36) as nat,
                |i: int| 0u8,
            ),
        ),
{
    Sdt::new(signature, length, revision, oem_id, oem_table, oem_revision)
}

/// `Sdt::write_bytes`: writes `data` over the table from `offset` on and
/// renews the checksum. The table must have that part.
#[verifier::external_body]
fn sdt_write_bytes(sdt: &mut Sdt, offset: usize, data: &[u8])
    requires
        sdt_bytes(*old(sdt)).len() >= 36,
        offset + data@.len() <= sdt_bytes(*old(sdt)).len(),
    ensures
        sdt_bytes(*final(sdt)) == with_checksum(spliced(sdt_bytes(*old(sdt)), offset as int, data@)),
{
    sdt.write_bytes(offset, data)
}

/// `after` is the table `before` with `data` at its end, some four bytes in
/// its length field, and its checksum renewed.
pub open spec fn appended(before: Seq<u8>, data: Seq<u8>, after: Seq<u8>) -> bool {
    exists|field: Seq<u8>|
        field.len() == 4 && after == with_checksum(#[trigger] spliced(before, 4, field) + data)
}

/// `Sdt::append_slice`: adds `data` at the end, overwrites the four bytes of
/// the length field and renews the checksum. What the length field then holds
/// is left open: the new length is written in the byte order of the host.
#[verifier::external_body]
fn sdt_append_slice(sdt: &mut Sdt, data: &[u8])
    requires
        sdt_bytes(*old(sdt)).len() >= 36,
        sdt_bytes(*old(sdt)).len() + data@.len() <= usize::MAX,
    ensures
        appended(sdt_bytes(*old(sdt)), data@, sdt_bytes(*final(sdt))),
{
    sdt.append_slice(data)
}

/// The record of a local interrupt controller: enabled, and with the number
/// of its processor, cut to eight bits.
pub open spec fn local_apic(cpu: u32) -> Seq<u8> {
    seq![ACPI_APIC_PROCESSOR, 8u8, cpu as u8] + le_bytes(1, 4) + seq![cpu as u8]
}

/// The records of the local interrupt controllers of `n` processors.
pub open spec fn local_apics(n: nat) -> Seq<u8>
    decreases n,
{
    if n == 0 {
        Seq::empty()
    } else {
        local_apics((n - 1) as nat) + local_apic((n - 1) as u32)
    }
}

/// The record of the interrupt controller.
pub open spec fn ioapic_record(address: u64) -> Seq<u8> {
    seq![ACPI_APIC_IO, 12u8, 0u8, 0u8] + le_bytes(address as u32 as nat, 4) + le_bytes(0, 4)
}

/// The record that sends interrupt 0 of the ISA bus to line 2.
pub open spec fn timer_override() -> Seq<u8> {
    seq![ACPI_APIC_XRUPT_OVERRIDE, 10u8, 0u8, 0u8] + le_bytes(2, 4) + le_bytes(0, 2)
}

/// The table of interrupt controllers before its checksum: a header with the
/// length field, the address of the local controllers, and records.
pub open spec fn madt_body(field: Seq<u8>, apic_start: u64, records: Seq<u8>) -> Seq<u8> {
    seq![65u8, 80u8, 73u8, 67u8] + field + seq![5u8, 0u8] + seq![
        67u8,
        76u8,
        79u8,
        85u8,
        68u8,
        72u8,
    ] + seq![67u8, 72u8, 77u8, 65u8, 68u8, 84u8, 32u8, 32u8] + le_bytes(1, 4) + seq![
        82u8,
        86u8,
        65u8,
        84u8,
    ] + le_bytes(0, 4) + le_bytes(apic_start as nat, 8) + records
}

/// The table of interrupt controllers: one local controller per processor, the
/// interrupt controller, and the override of the timer's line.
pub open spec fn madt(map: MemoryLayout, cpus: u32) -> Seq<u8> {
    let records = local_apics(cpus as nat) + ioapic_record(map.ioapic_start) + timer_override();
    let length = (44 + records.len()) as u32;
    with_checksum(madt_body(le_bytes(length as nat, 4), map.apic_start, records))
}

/// A checksum does not depend on the byte that it replaces.
proof fn lemma_with_checksum_same(s: Seq<u8>, t: Seq<u8>)
    requires
        s.len() == t.len(),
        s.len() > 9,
        forall|i: int| 0 <= i < s.len() && i != 9 ==> s[i] == t[i],
    ensures
        with_checksum(s) == with_checksum(t),
{
    assert(s.update(9, 0u8) =~= t.update(9, 0u8));
}

proof fn lemma_local_apics_len(n: nat)
    ensures
        local_apics(n).len() == 8 * n,
    decreases n,
{
    if n > 0 {
        lemma_local_apics_len((n - 1) as nat);
        lemma_le_bytes_len(1, 4);
    }
}

proof fn lemma_madt_body_len(field: Seq<u8>, apic_start: u64, records: Seq<u8>)
    requires
        field.len() == 4,
    ensures
        madt_body(field, apic_start, records).len() == 44 + records.len(),
{
    lemma_le_bytes_len(1, 4);
    lemma_le_bytes_len(0, 4);
    lemma_le_bytes_len(apic_start as nat, 8);
}

/// Adds a record to the table of interrupt controllers.
fn append_record(sdt: &mut Sdt, Ghost(field): Ghost<Seq<u8>>, Ghost(apic_start): Ghost<u64>, Ghost(records): Ghost<Seq<u8>>, record: &[u8]) -> (r: Ghost<Seq<u8>>)
    requires
        field.len() == 4,
        sdt_bytes(*old(sdt)) == with_checksum(madt_body(field, apic_start, records)),
        44 + records.len() + record@.len() <= usize::MAX,
    ensures
        r@.len() == 4,
        sdt_bytes(*final(sdt)) == with_checksum(madt_body(r@, apic_start, records + record@)),
{
    let ghost before = sdt_bytes(*sdt);
    let ghost body = madt_body(field, apic_start, records);
    proof {
        lemma_madt_body_len(field, apic_start, records);
    }
    sdt_append_slice(sdt, record);
    let ghost new_field = choose|f: Seq<u8>|
        f.len() == 4 && sdt_bytes(*sdt) == with_checksum(#[trigger] spliced(before, 4, f) + record@);
    proof {
        let after = madt_body(new_field, apic_start, records + record@);
        lemma_madt_body_len(new_field, apic_start, records + record@);
        lemma_le_bytes_len(1, 4);
        lemma_le_bytes_len(0, 4);
        lemma_le_bytes_len(apic_start as nat, 8);
        let got = spliced(before, 4, new_field) + record@;
        assert forall|i: int| 0 <= i < got.len() && i != 9 implies got[i] == after[i] by {
            if i < 44 + records.len() {
                assert(before[i] == body[i]);
            }
        }
        lemma_with_checksum_same(got, after);
    }
    Ghost(new_field)
}

/// The path of a processor.
pub open spec fn cpu_path(id: u32) -> Seq<char> {
    "CP"@ + hex_text(id as nat, 2)
}

/// The description of a processor: what it is, its number, and a status method
/// that says that it is there and works.
pub open spec fn cpu_bytes(id: u32) -> Seq<u8> {
    device_bytes(
        cpu_path(id),
        named("_HID"@, seq![0x0du8] + ascii_bytes("ACPI0007"@) + seq![0u8]) + named(
            "_UID"@,
            integer_bytes(id),
        ) + constant_method("_STA"@, 0xf),
    )
}

/// The descriptions of `n` processors.
pub open spec fn cpus_bytes(n: nat) -> Seq<u8>
    decreases n,
{
    if n == 0 {
        Seq::empty()
    } else {
        cpus_bytes((n - 1) as nat) + cpu_bytes((n - 1) as u32)
    }
}

/// Hexadecimal digits are neither dots nor backslashes, and ASCII.
pub proof fn lemma_hex_text(v: nat, width: nat)
    ensures
        hex_text(v, width).len() == width,
        is_ascii(hex_text(v, width)),
        forall|i: int| 0 <= i < width ==> #[trigger] hex_text(v, width)[i] != '.' && hex_text(
            v,
            width,
        )[i] != '\\',
    decreases width,
{
    if width > 0 {
        lemma_hex_text(v / 16, (width - 1) as nat);
        let d = v % 16;
        let c = hex_char(d);
        assert((c as nat) < 128 && c != '.' && c != '\\');
    }
}

/// A processor.
#[derive(Clone, Copy, Debug, PartialEq, Eq, Structural)]
pub struct Cpu {
    pub id: u32,
}

impl Cpu {
    /// The description of the processor. Its number must have two digits.
    pub fn to_aml_bytes(&self) -> (r: Vec<u8>)
        requires
            self.id < 0x100,
        ensures
            r@ == cpu_bytes(self.id),
    {
        proof {
            reveal_strlit("CP");
            reveal_strlit("_HID");
            reveal_strlit("_UID");
            reveal_strlit("_STA");
            reveal_strlit("ACPI0007");
            lemma_hex_text(self.id as nat, 2);
            assert(valid_path(cpu_path(self.id)));
            assert(valid_path("_HID"@) && valid_path("_UID"@) && valid_path("_STA"@));
            assert(is_ascii("ACPI0007"@));
        }
        let path = "CP".to_owned().concat(hex(self.id as u64, 2).as_str());
        let hid = name_text("_HID", "ACPI0007".to_owned());
        let uid = name_integer("_UID", self.id);
        device_with_method_to_aml_bytes(path.as_str(), &hid, &uid, "_STA", 0xf)
    }
}

/// The processors of the machine.
#[derive(Clone, Copy, Debug, PartialEq, Eq, Structural)]
pub struct CpuManager {
    pub cpus: u32,
    pub acpi_address: Option<GuestAddress>,
}

impl CpuManager {
    pub fn new() -> (r: Self)
        ensures
            r == (CpuManager { cpus: 0, acpi_address: None }),
    {
        CpuManager { cpus: 0, acpi_address: None }
    }

    pub fn set_cpu_count(&mut self, count: u32)
        ensures
            *final(self) == (CpuManager { cpus: count, ..*old(self) }),
    {
        self.cpus = count;
    }

    /// The table that describes the interrupt controllers to the guest.
    pub fn create_madt(&self, map: &MemoryLayout) -> (r: Sdt)
        requires
            66 + 8 * self.cpus <= usize::MAX,
        ensures
            sdt_bytes(r) == madt(*map, self.cpus),
    {
        let mut table = sdt_new(
            [65u8, 80, 73, 67],
            44,
            5,
            [67u8, 76, 79, 85, 68, 72],
            [67u8, 72, 77, 65, 68, 84, 32, 32],
            1,
        );
        let ghost body0 = table_header(
            [65u8, 80, 73, 67]@,
            44,
            5,
            [67u8, 76, 79, 85, 68, 72]@,
            [67u8, 72, 77, 65, 68, 84, 32, 32]@,
            1,
        ) + Seq::new(8, |i: int| 0u8);
        proof {
            lemma_le_bytes_len(1, 4);
            lemma_le_bytes_len(0, 4);
            lemma_le_bytes_len(44, 4);
            lemma_le_bytes_len(map.apic_start as nat, 8);
        }
        let address = encode_le(map.apic_start, 8);
        sdt_write_bytes(&mut table, 36, address.as_slice());
        let ghost body1 = spliced(body0, 36, address@);
        proof {
            lemma_with_checksum_same(spliced(with_checksum(body0), 36, address@), body1);
        }
        let blank = encode_le(0, 4);
        sdt_write_bytes(&mut table, 32, blank.as_slice());
        let ghost body2 = spliced(body1, 32, blank@);
        proof {
            lemma_with_checksum_same(spliced(with_checksum(body1), 32, blank@), body2);
            assert(body2 =~= madt_body(le_bytes(44, 4), map.apic_start, Seq::empty()));
        }
        let mut field: Ghost<Seq<u8>> = Ghost(le_bytes(44, 4));
        let mut cpu: u32 = 0;
        assert(local_apics(0) =~= Seq::<u8>::empty());
        while cpu < self.cpus
            invariant
                cpu <= self.cpus,
                66 + 8 * self.cpus <= usize::MAX,
                field@.len() == 4,
                sdt_bytes(table) == with_checksum(
                    madt_body(field@, map.apic_start, local_apics(cpu as nat)),
                ),
            decreases self.cpus - cpu,
        {
            proof {
                lemma_local_apics_len(cpu as nat);
                lemma_le_bytes_len(1, 4);
            }
            let mut record: Vec<u8> = vec![ACPI_APIC_PROCESSOR, 8u8, cpu as u8];
            let mut flags = encode_le(1, 4);
            record.append(&mut flags);
            record.push(cpu as u8);
            assert(record@ =~= local_apic(cpu));
            field = append_record(
                &mut table,
                field,
                Ghost(map.apic_start),
                Ghost(local_apics(cpu as nat)),
                record.as_slice(),
            );
            cpu += 1;
        }
        proof {
            lemma_local_apics_len(self.cpus as nat);
            lemma_le_bytes_len(map.ioapic_start as u32 as nat, 4);
            lemma_le_bytes_len(0, 4);
            lemma_le_bytes_len(2, 4);
            lemma_le_bytes_len(0, 2);
        }
        let ghost lapics = local_apics(self.cpus as nat);
        let mut ioapic: Vec<u8> = vec![ACPI_APIC_IO, 12u8, 0u8, 0u8];
        let mut ioapic_address = encode_le(map.ioapic_start as u32 as u64, 4);
        let mut gsi_base = encode_le(0, 4);
        ioapic.append(&mut ioapic_address);
        ioapic.append(&mut gsi_base);
        assert(ioapic@ =~= ioapic_record(map.ioapic_start));
        field = append_record(
            &mut table,
            field,
            Ghost(map.apic_start),
            Ghost(lapics),
            ioapic.as_slice(),
        );
        let mut timer: Vec<u8> = vec![ACPI_APIC_XRUPT_OVERRIDE, 10u8, 0u8, 0u8];
        let mut gsi = encode_le(2, 4);
        let mut flags = encode_le(0, 2);
        timer.append(&mut gsi);
        timer.append(&mut flags);
        assert(timer@ =~= timer_override());
        field = append_record(
            &mut table,
            field,
            Ghost(map.apic_start),
            Ghost(lapics + ioapic@),
            timer.as_slice(),
        );
        let ghost records = lapics + ioapic@ + timer@;
        let length: usize = 66 + 8 * (self.cpus as usize);
        let length_bytes = encode_le(length as u32 as u64, 4);
        proof {
            lemma_le_bytes_len(length as u32 as nat, 4);
            lemma_madt_body_len(field@, map.apic_start, records);
            lemma_madt_body_len(length_bytes@, map.apic_start, records);
            lemma_le_bytes_len(1, 4);
        }
        sdt_write_bytes(&mut table, 4, length_bytes.as_slice());
        proof {
            let last = madt_body(field@, map.apic_start, records);
            let done = madt_body(length_bytes@, map.apic_start, records);
            let got = spliced(with_checksum(last), 4, length_bytes@);
            assert forall|i: int| 0 <= i < got.len() && i != 9 implies got[i] == done[i] by {
                assert(i < 4 || i >= 8 ==> last[i] == done[i]);
            }
            lemma_with_checksum_same(got, done);
        }
        table
    }

    /// The descriptions of the processors, in the scope of the system bus.
    pub fn to_aml_bytes(&self) -> (r: Vec<u8>)
        requires
            self.cpus <= 0x100,
        ensures
            r@ == scope_bytes("\\_SB_"@, cpus_bytes(self.cpus as nat)),
    {
        let mut inner: Vec<u8> = Vec::new();
        let mut id: u32 = 0;
        while id < self.cpus
            invariant
                id <= self.cpus <= 0x100,
                inner@ == cpus_bytes(id as nat),
            decreases self.cpus - id,
        {
            let cpu = Cpu { id };
            let mut bytes = cpu.to_aml_bytes();
            inner.append(&mut bytes);
            id += 1;
        }
        proof {
            reveal_strlit("\\_SB_");
            assert(valid_path("\\_SB_"@));
        }
        scope_raw("\\_SB_", inner)
    }
}

proof fn lemma_byte_sum_update(s: Seq<u8>, i: int, c: u8)
    requires
        0 <= i < s.len(),
    ensures
        byte_sum(s.update(i, c)) == byte_sum(s) - s[i] + c,
    decreases s.len(),
{
    let t = s.update(i, c);
    if i == s.len() - 1 {
        assert(t.drop_last() =~= s.drop_last());
    } else {
        lemma_byte_sum_update(s.drop_last(), i, c);
        assert(t.drop_last() =~= s.drop_last().update(i, c));
    }
}

/// The bytes of a table with its checksum add up to a multiple of 256.
pub proof fn law_checksum(s: Seq<u8>)
    requires
        s.len() > 9,
    ensures
        byte_sum(with_checksum(s)) % 256 == 0,
{
    let blank = s.update(9, 0u8);
    let c = ((256 - byte_sum(blank) % 256) % 256) as u8;
    lemma_byte_sum_update(blank, 9, c);
}

/// The table of interrupt controllers carries its own length, its bytes add up
/// to a multiple of 256, and processor `i` has its record.
pub proof fn law_madt(map: MemoryLayout, cpus: u32, i: u32)
    requires
        66 + 8 * cpus <= u32::MAX,
        i < cpus,
    ensures
        madt(map, cpus).len() == 66 + 8 * cpus,
        u32_at(madt(map, cpus), 4) == madt(map, cpus).len(),
        byte_sum(madt(map, cpus)) % 256 == 0,
        madt(map, cpus).subrange(44 + 8 * i, 52 + 8 * i) == local_apic(i),
{
    let records = local_apics(cpus as nat) + ioapic_record(map.ioapic_start) + timer_override();
    let length = (44 + records.len()) as u32;
    let field = le_bytes(length as nat, 4);
    let body = madt_body(field, map.apic_start, records);
    lemma_local_apics_len(cpus as nat);
    lemma_le_bytes_len(map.ioapic_start as u32 as nat, 4);
    lemma_le_bytes_len(0, 4);
    lemma_le_bytes_len(1, 4);
    lemma_le_bytes_len(2, 4);
    lemma_le_bytes_len(0, 2);
    lemma_le_bytes_len(length as nat, 4);
    lemma_le_bytes_len(map.apic_start as nat, 8);
    lemma_madt_body_len(field, map.apic_start, records);
    law_checksum(body);
    lemma_pow256_values();
    law_le_value_of_bytes(length as nat, 4);
    let table = madt(map, cpus);
    assert(table.subrange(4, 8) =~= field);
    lemma_local_apics_at(cpus as nat, i as int);
    assert(table.subrange(44 + 8 * i, 52 + 8 * i) =~= local_apics(cpus as nat).subrange(
        8 * i,
        8 * i + 8,
    ));
}

proof fn lemma_local_apics_at(n: nat, i: int)
    requires
        0 <= i < n <= u32::MAX,
    ensures
        local_apics(n).subrange(8 * i, 8 * i + 8) == local_apic(i as u32),
    decreases n,
{
    lemma_local_apics_len(n);
    lemma_local_apics_len((n - 1) as nat);
    let rest = local_apics((n - 1) as nat);
    if i == n - 1 {
        lemma_le_bytes_len(1, 4);
        assert(local_apics(n).subrange(8 * i, 8 * i + 8) =~= local_apic(i as u32));
    } else {
        lemma_local_apics_at((n - 1) as nat, i);
        assert(local_apics(n).subrange(8 * i, 8 * i + 8) =~= rest.subrange(
            8 * i,
            8 * i + 8,
        ));
    }
}

} // verus!
