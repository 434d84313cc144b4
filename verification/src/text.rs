//! Number formatting for diagnostic text and device names.

use vstd::prelude::*;

verus! {

/// The upper-case hexadecimal digit for `d`.
pub open spec fn hex_char(d: nat) -> char {
    if d < 10 {
        ('0' as u8 + d) as char
    } else {
        ('A' as u8 + (d - 10)) as char
    }
}

/// The lowest `width` hexadecimal digits of `v`, highest first.
pub open spec fn hex_text(v: nat, width: nat) -> Seq<char>
    decreases width,
{
    if width == 0 {
        Seq::empty()
    } else {
        hex_text(v / 16, (width - 1) as nat).push(hex_char(v % 16))
    }
}

/// `v` in decimal, without leading zeros.
pub open spec fn dec_text(v: nat) -> Seq<char>
    decreases v,
{
    if v < 10 {
        seq![hex_char(v)]
    } else {
        dec_text(v / 10).push(hex_char(v % 10))
    }
}

/// The digit for `d` as text.
fn digit(d: u64) -> (r: &'static str)
    requires
        d < 16,
    ensures
        r@ == seq![hex_char(d as nat)],
{
    proof {
        reveal_strlit("0");
        reveal_strlit("1");
        reveal_strlit("2");
        reveal_strlit("3");
        reveal_strlit("4");
        reveal_strlit("5");
        reveal_strlit("6");
        reveal_strlit("7");
        reveal_strlit("8");
        reveal_strlit("9");
        reveal_strlit("A");
        reveal_strlit("B");
        reveal_strlit("C");
        reveal_strlit("D");
        reveal_strlit("E");
        reveal_strlit("F");
    }
    let r = match d {
        0 => "0",
        1 => "1",
        2 => "2",
        3 => "3",
        4 => "4",
        5 => "5",
        6 => "6",
        7 => "7",
        8 => "8",
        9 => "9",
        10 => "A",
        11 => "B",
        12 => "C",
        13 => "D",
        14 => "E",
        _ => "F",
    };
    assert(r@ =~= seq![hex_char(d as nat)]);
    r
}

/// The lowest `width` hexadecimal digits of `v`, highest first.
pub fn hex(v: u64, width: usize) -> (r: String)
    ensures
        r@ == hex_text(v as nat, width as nat),
    decreases width,
{
    if width == 0 {
        let r = String::new();
        assert(r@ =~= hex_text(v as nat, 0));
        r
    } else {
        let mut r = hex(v / 16, width - 1);
        r.append(digit(v % 16));
        assert(r@ =~= hex_text(v as nat, width as nat));
        r
    }
}

/// `v` in decimal, without leading zeros.
pub fn decimal(v: u64) -> (r: String)
    ensures
        r@ == dec_text(v as nat),
    decreases v,
{
    if v < 10 {
        let mut r = String::new();
        r.append(digit(v));
        assert(r@ =~= dec_text(v as nat));
        r
    } else {
        let mut r = decimal(v / 10);
        r.append(digit(v % 10));
        assert(r@ =~= dec_text(v as nat));
        r
    }
}

/// `v` in upper-case hexadecimal, without leading zeros.
pub open spec fn hex_min_text(v: nat) -> Seq<char>
    decreases v,
{
    if v < 16 {
        seq![hex_char(v)]
    } else {
        hex_min_text(v / 16).push(hex_char(v % 16))
    }
}

/// `v` in upper-case hexadecimal, without leading zeros.
pub fn hex_min(v: u64) -> (r: String)
    ensures
        r@ == hex_min_text(v as nat),
    decreases v,
{
    if v < 16 {
        let mut r = String::new();
        r.append(digit(v));
        assert(r@ =~= hex_min_text(v as nat));
        r
    } else {
        let mut r = hex_min(v / 16);
        r.append(digit(v % 16));
        assert(r@ =~= hex_min_text(v as nat));
        r
    }
}

} // verus!
