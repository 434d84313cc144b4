//! The machine language in which devices are described to the guest.

use vstd::prelude::*;

use acpi_tables::{aml, sdt, Aml};

use crate::byte_order::{be_value, le_bytes};

verus! {

/// The characters of a text, one byte each.
pub open spec fn ascii_bytes(s: Seq<char>) -> Seq<u8> {
    Seq::new(s.len(), |i: int| s[i] as u8)
}

pub open spec fn is_ascii(s: Seq<char>) -> bool {
    forall|i: int| 0 <= i < s.len() ==> (#[trigger] s[i] as nat) < 128
}

/// A path without the backslash of the root.
pub open spec fn relative(path: Seq<char>) -> Seq<char> {
    if path.len() > 0 && path[0] == '\\' {
        path.subrange(1, path.len() as int)
    } else {
        path
    }
}

/// A path of one or two names of four characters, parted by a dot.
pub open spec fn valid_path(path: Seq<char>) -> bool {
    let names = relative(path);
    &&& is_ascii(path)
    &&& names.len() == 4 || names.len() == 9
    &&& forall|i: int| 0 <= i < names.len() ==> (#[trigger] names[i] == '.' <==> i == 4)
}

/// How a path is written: the root, a prefix before two names, and the names.
pub open spec fn path_bytes(path: Seq<char>) -> Seq<u8> {
    let names = ascii_bytes(relative(path));
    let root = if path[0] == '\\' {
        seq![0x5cu8]
    } else {
        Seq::empty()
    };
    if names.len() == 4 {
        root + names
    } else {
        root + seq![0x2eu8] + names.subrange(0, 4) + names.subrange(5, 9)
    }
}

/// How a number is written: in the fewest of 0, 1, 2 or 4 bytes after its
/// prefix.
pub open spec fn integer_bytes(v: u32) -> Seq<u8> {
    if v < 2 {
        seq![v as u8]
    } else if v < 0x100 {
        seq![0x0au8, v as u8]
    } else if v < 0x1_0000 {
        seq![0x0bu8] + le_bytes(v as nat, 2)
    } else {
        seq![0x0cu8] + le_bytes(v as nat, 4)
    }
}

/// How the length of a package of `n` bytes is written. It counts itself.
pub open spec fn package_length(n: nat) -> Seq<u8> {
    if n < 0x3f {
        seq![(n + 1) as u8]
    } else if n < 0xffe {
        seq![(0x40 + (n + 2) % 16) as u8, ((n + 2) / 16) as u8]
    } else if n < 0xf_fffd {
        seq![(0x80 + (n + 3) % 16) as u8, ((n + 3) / 16 % 256) as u8, ((n + 3) / 0x1000) as u8]
    } else {
        seq![
            (0xc0 + (n + 4) % 16) as u8,
            ((n + 4) / 16 % 256) as u8,
            ((n + 4) / 0x1000 % 256) as u8,
            ((n + 4) / 0x10_0000 % 256) as u8,
        ]
    }
}

/// The number for a device identifier such as `PNP0A08`: three letters of five
/// bits and four hexadecimal digits, highest byte first.
pub open spec fn eisa_id(id: Seq<char>) -> u32 {
    let v = (id[0] as nat - 64) * 0x400_0000 + (id[1] as nat - 64) * 0x20_0000 + (id[2] as nat - 64)
        * 0x1_0000 + hex_digit(id[3]) * 0x1000 + hex_digit(id[4]) * 0x100 + hex_digit(id[5]) * 0x10
        + hex_digit(id[6]);
    be_value(le_bytes(v as nat, 4)) as u32
}

pub open spec fn hex_digit(c: char) -> int {
    if '0' <= c <= '9' {
        c as nat - 48
    } else {
        c as nat - 55
    }
}

/// Three upper-case letters and four upper-case hexadecimal digits.
pub open spec fn valid_eisa_id(id: Seq<char>) -> bool {
    &&& id.len() == 7
    &&& forall|i: int| 0 <= i < 3 ==> 'A' <= #[trigger] id[i] <= 'Z'
    &&& forall|i: int|
        3 <= i < 7 ==> ('0' <= #[trigger] id[i] <= '9' || 'A' <= id[i] <= 'F')
}

/// A named value.
pub open spec fn named(path: Seq<char>, value: Seq<u8>) -> Seq<u8> {
    seq![0x08u8] + path_bytes(path) + value
}

/// A device and what it holds.
pub open spec fn device_bytes(path: Seq<char>, children: Seq<u8>) -> Seq<u8> {
    let body = path_bytes(path) + children;
    seq![0x5bu8, 0x82u8] + package_length(body.len()) + body
}

/// A scope and what it holds.
pub open spec fn scope_bytes(path: Seq<char>, children: Seq<u8>) -> Seq<u8> {
    let body = path_bytes(path) + children;
    seq![0x10u8] + package_length(body.len()) + body
}

/// A method without arguments that gives a constant.
pub open spec fn constant_method(path: Seq<char>, value: u8) -> Seq<u8> {
    let body = path_bytes(path) + seq![0u8, 0xa4u8] + integer_bytes(value as u32);
    seq![0x14u8] + package_length(body.len()) + body
}

/// A package of one number.
pub open spec fn package_bytes(value: u8) -> Seq<u8> {
    let body = seq![1u8] + integer_bytes(value as u32);
    seq![0x12u8] + package_length(body.len()) + body
}

/// A list of resources with its end tag.
pub open spec fn template_bytes(resources: Seq<u8>) -> Seq<u8> {
    let body = resources + seq![0x79u8, 0u8];
    let length = integer_bytes(body.len() as u32);
    seq![0x11u8] + package_length(length.len() + body.len()) + length + body
}

/// A range of 32-bit memory, which can be written.
pub open spec fn fixed_memory(base: u32, length: u32) -> Seq<u8> {
    seq![0x86u8, 9u8, 0u8, 1u8] + le_bytes(base as nat, 4) + le_bytes(length as nat, 4)
}

/// A range of ports.
pub open spec fn port_range(min: u16, max: u16, alignment: u8, length: u8) -> Seq<u8> {
    seq![0x47u8, 1u8] + le_bytes(min as nat, 2) + le_bytes(max as nat, 2) + seq![alignment, length]
}

/// An interrupt that is consumed, edge-triggered, active high and not shared.
pub open spec fn interrupt(number: u32) -> Seq<u8> {
    seq![0x89u8, 6u8, 0u8, 3u8, 1u8] + le_bytes(number as nat, 4)
}

/// A range of bus numbers.
pub open spec fn bus_range(min: u16, max: u16) -> Seq<u8> {
    seq![0x88u8, 13u8, 0u8, 2u8, 12u8, 0u8] + le_bytes(0, 2) + le_bytes(min as nat, 2) + le_bytes(
        max as nat,
        2,
    ) + le_bytes(0, 2) + le_bytes((max - min + 1) as nat, 2)
}

/// A range of memory that is not cached and can be written.
pub open spec fn memory_range(min: u64, max: u64) -> Seq<u8> {
    seq![0x8au8, 43u8, 0u8, 0u8, 12u8, 1u8] + le_bytes(0, 8) + le_bytes(min as nat, 8) + le_bytes(
        max as nat,
        8,
    ) + le_bytes(0, 8) + le_bytes((max - min + 1) as nat, 8)
}

/// `acpi_tables::aml::Name`, a named value.
#[verifier::external_type_specification]
#[verifier::external_body]
pub struct ExName(aml::Name);

/// The bytes that a named value holds.
pub uninterp spec fn name_bytes(name: aml::Name) -> Seq<u8>;

/// The bytes of several named values, one after the other.
pub open spec fn names_bytes(names: Seq<aml::Name>) -> Seq<u8>
    decreases names.len(),
{
    if names.len() == 0 {
        Seq::empty()
    } else {
        names_bytes(names.drop_last()) + name_bytes(names.last())
    }
}

/// `aml::Name::new` on a number: the number follows the path.
#[verifier::external_body]
pub(crate) fn name_integer(path: &str, value: u32) -> (r: aml::Name)
    requires
        valid_path(path@),
    ensures
        name_bytes(r) == named(path@, integer_bytes(value)),
{
    aml::Name::new(path.into(), &value)
}

/// `aml::Name::new` on a text: its characters, between a prefix and a zero,
/// follow the path.
#[verifier::external_body]
pub(crate) fn name_text(path: &str, value: String) -> (r: aml::Name)
    requires
        valid_path(path@),
        is_ascii(value@),
    ensures
        name_bytes(r) == named(path@, seq![0x0du8] + ascii_bytes(value@) + seq![0u8]),
{
    aml::Name::new(path.into(), &value)
}

/// `aml::EISAName::new`, named: the number for the identifier follows the path.
#[verifier::external_body]
pub(crate) fn name_eisa_id(path: &str, id: &str) -> (r: aml::Name)
    requires
        valid_path(path@),
        valid_eisa_id(id@),
    ensures
        name_bytes(r) == named(path@, integer_bytes(eisa_id(id@))),
{
    aml::Name::new(path.into(), &aml::EISAName::new(id))
}

/// `aml::Package::new` with one number, named.
#[verifier::external_body]
pub(crate) fn name_package(path: &str, value: u8) -> (r: aml::Name)
    requires
        valid_path(path@),
    ensures
        name_bytes(r) == named(path@, package_bytes(value)),
{
    aml::Name::new(path.into(), &aml::Package::new(vec![&value]))
}

/// `aml::ResourceTemplate::new` with bus numbers, ports, fixed memory and two
/// memory ranges, named. The ranges must not be empty or span everything,
/// which `aml::AddressSpace` cannot count.
#[verifier::external_body]
pub(crate) fn name_root_resources(
    path: &str,
    bus: (u16, u16),
    ports: (u16, u16, u8, u8),
    fixed: (u32, u32),
    low: (u64, u64),
    high: (u64, u64),
) -> (r: aml::Name)
    requires
        valid_path(path@),
        bus.0 <= bus.1 && bus.1 - bus.0 < u16::MAX,
        low.0 <= low.1 && low.1 - low.0 < u64::MAX,
        high.0 <= high.1 && high.1 - high.0 < u64::MAX,
    ensures
        name_bytes(r) == named(
            path@,
            template_bytes(
                bus_range(bus.0, bus.1) + port_range(ports.0, ports.1, ports.2, ports.3)
                    + fixed_memory(fixed.0, fixed.1) + memory_range(low.0, low.1) + memory_range(
                    high.0,
                    high.1,
                ),
            ),
        ),
{
    let uncached = aml::AddressSpaceCacheable::NotCacheable;
    aml::Name::new(path.into(), &aml::ResourceTemplate::new(vec![
        &aml::AddressSpace::new_bus_number(bus.0, bus.1),
        &aml::IO::new(ports.0, ports.1, ports.2, ports.3),
        &aml::Memory32Fixed::new(true, fixed.0, fixed.1),
        &aml::AddressSpace::new_memory(uncached, true, low.0, low.1, None),
        &aml::AddressSpace::new_memory(uncached, true, high.0, high.1, None),
    ]))
}

/// `aml::ResourceTemplate::new` with an interrupt and ports, named.
#[verifier::external_body]
pub(crate) fn name_port_resources(path: &str, irq: u32, ports: (u16, u16, u8, u8)) -> (r: aml::Name)
    requires
        valid_path(path@),
    ensures
        name_bytes(r) == named(
            path@,
            template_bytes(interrupt(irq) + port_range(ports.0, ports.1, ports.2, ports.3)),
        ),
{
    aml::Name::new(path.into(), &aml::ResourceTemplate::new(vec![
        &aml::Interrupt::new(true, true, false, false, irq),
        &aml::IO::new(ports.0, ports.1, ports.2, ports.3),
    ]))
}

/// `aml::ResourceTemplate::new` with fixed memory and an interrupt, named.
#[verifier::external_body]
pub(crate) fn name_memory_resources(path: &str, fixed: (u32, u32), irq: u32) -> (r: aml::Name)
    requires
        valid_path(path@),
    ensures
        name_bytes(r) == named(path@, template_bytes(fixed_memory(fixed.0, fixed.1) + interrupt(irq))),
{
    aml::Name::new(path.into(), &aml::ResourceTemplate::new(vec![
        &aml::Memory32Fixed::new(true, fixed.0, fixed.1),
        &aml::Interrupt::new(true, true, false, false, irq),
    ]))
}

/// `aml::Name::to_aml_bytes`: the bytes of a named value.
#[verifier::external_body]
pub(crate) fn name_to_aml_bytes(name: &aml::Name) -> (r: Vec<u8>)
    ensures
        r@ == name_bytes(*name),
{
    let mut bytes: Vec<u8> = Vec::new();
    name.to_aml_bytes(&mut bytes);
    bytes
}

/// `aml::Device::to_aml_bytes`: a device that holds named values.
#[verifier::external_body]
pub(crate) fn device_to_aml_bytes(path: &str, names: &Vec<aml::Name>) -> (r: Vec<u8>)
    requires
        valid_path(path@),
    ensures
        r@ == device_bytes(path@, names_bytes(names@)),
{
    let mut bytes: Vec<u8> = Vec::new();
    let children: Vec<&dyn Aml> = names.iter().map(|n| n as &dyn Aml).collect();
    aml::Device::new(path.into(), children).to_aml_bytes(&mut bytes);
    bytes
}

/// `aml::Device::to_aml_bytes`: a device that holds two named values and an
/// `aml::Method` without arguments that returns a constant.
#[verifier::external_body]
pub(crate) fn device_with_method_to_aml_bytes(
    path: &str,
    first: &aml::Name,
    second: &aml::Name,
    method: &str,
    value: u8,
) -> (r: Vec<u8>)
    requires
        valid_path(path@),
        valid_path(method@),
    ensures
        r@ == device_bytes(
            path@,
            name_bytes(*first) + name_bytes(*second) + constant_method(method@, value),
        ),
{
    let mut bytes: Vec<u8> = Vec::new();
    let result = aml::Return::new(&value);
    let constant = aml::Method::new(method.into(), 0, false, vec![&result]);
    aml::Device::new(path.into(), vec![first, second, &constant]).to_aml_bytes(&mut bytes);
    bytes
}

/// `aml::Scope::raw`: a scope that holds the given bytes.
#[verifier::external_body]
pub(crate) fn scope_raw(path: &str, children: Vec<u8>) -> (r: Vec<u8>)
    requires
        valid_path(path@),
    ensures
        r@ == scope_bytes(path@, children@),
{
    aml::Scope::raw(path.into(), children)
}

/// Where a register of the platform is.
#[derive(Clone, Copy, Debug, PartialEq, Eq, Structural)]
pub struct GenericAddress {
    pub address_space_id: u8,
    pub register_bit_width: u8,
    pub register_bit_offset: u8,
    pub access_size: u8,
    pub address: u64,
}

/// `sdt::GenericAddress::io_port_address` of a 32-bit register: a port in the
/// port space, read as one double word.
#[verifier::external_body]
pub(crate) fn io_port_address(address: u16) -> (r: GenericAddress)
    ensures
        r == (GenericAddress {
            address_space_id: 1,
            register_bit_width: 32,
            register_bit_offset: 0,
            access_size: 3,
            address: address as u64,
        }),
{
    let a = sdt::GenericAddress::io_port_address::<u32>(address);
    GenericAddress {
        address_space_id: a.address_space_id,
        register_bit_width: a.register_bit_width,
        register_bit_offset: a.register_bit_offset,
        access_size: a.access_size,
        address: a.address,
    }
}

} // verus!
