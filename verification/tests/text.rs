use whp_vmm::text::{decimal, hex, hex_min};

#[test]
fn numbers_as_text() {
    assert_eq!(hex(0x1F, 4), "001F");
    assert_eq!(hex(0, 2), "00");
    assert_eq!(hex_min(0), "0");
    assert_eq!(hex_min(0xFEC0_0000), "FEC00000");
    assert_eq!(decimal(0), "0");
    assert_eq!(decimal(18_446_744_073_709_551_615), "18446744073709551615");
}
