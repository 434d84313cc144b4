//! Numbers as text, settings, and what the host's terminal passes on.

use vstd::prelude::*;

use crate::config::{digits_value, parsed_usize, VmConfig};
use crate::terminal::{input_action, parameters_end, raw_input_mode, report_end, stripped, vt_output_mode};
use crate::text::{dec_text, hex_min_text, hex_text};

verus! {

/// The value of a digit, in upper case.
pub open spec fn digit_of(c: char) -> int {
    if '0' <= c <= '9' {
        c as int - 48
    } else if 'A' <= c <= 'F' {
        c as int - 55
    } else {
        -1
    }
}

/// The number that digits in a base stand for, highest first.
pub open spec fn number(text: Seq<char>, base: int) -> int
    decreases text.len(),
{
    if text.len() == 0 {
        0
    } else {
        base * number(text.drop_last(), base) + digit_of(text.last())
    }
}

/// All are digits of a base.
pub open spec fn all_digits(text: Seq<char>, base: int) -> bool {
    forall|i: int| 0 <= i < text.len() ==> 0 <= digit_of(#[trigger] text[i]) < base
}

/// A number in decimal: digits that stand for it, the first of which is zero
/// only for zero.
pub proof fn law_decimal_text(v: nat)
    ensures
        dec_text(v).len() > 0,
        all_digits(dec_text(v), 10),
        number(dec_text(v), 10) == v,
        v > 0 ==> dec_text(v)[0] != '0',
        v == 0 ==> dec_text(v).len() == 1,
    decreases v,
{
    reveal_with_fuel(number, 2);
    let t = dec_text(v);
    if v >= 10 {
        law_decimal_text(v / 10);
        assert(t.drop_last() =~= dec_text(v / 10));
        assert forall|i: int| 0 <= i < t.len() implies 0 <= digit_of(#[trigger] t[i]) < 10 by {
            if i < t.len() - 1 {
                assert(t[i] == dec_text(v / 10)[i]);
            }
        }
    } else {
        assert(t.drop_last() =~= Seq::<char>::empty());
    }
}

/// A number in hexadecimal without leading zeroes.
pub proof fn law_hexadecimal_text(v: nat)
    ensures
        hex_min_text(v).len() > 0,
        all_digits(hex_min_text(v), 16),
        number(hex_min_text(v), 16) == v,
        v > 0 ==> hex_min_text(v)[0] != '0',
    decreases v,
{
    reveal_with_fuel(number, 2);
    let t = hex_min_text(v);
    if v >= 16 {
        law_hexadecimal_text(v / 16);
        assert(t.drop_last() =~= hex_min_text(v / 16));
        assert forall|i: int| 0 <= i < t.len() implies 0 <= digit_of(#[trigger] t[i]) < 16 by {
            if i < t.len() - 1 {
                assert(t[i] == hex_min_text(v / 16)[i]);
            }
        }
    } else {
        assert(t.drop_last() =~= Seq::<char>::empty());
    }
}

/// Sixteen to a power.
pub open spec fn pow16(n: nat) -> int
    decreases n,
{
    if n == 0 {
        1
    } else {
        16 * pow16((n - 1) as nat)
    }
}

/// A number in so many hexadecimal digits: the lowest ones.
pub proof fn law_hexadecimal_digits(v: nat, width: nat)
    ensures
        hex_text(v, width).len() == width,
        all_digits(hex_text(v, width), 16),
        number(hex_text(v, width), 16) == v as int % pow16(width),
        pow16(width) > 0,
    decreases width,
{
    let t = hex_text(v, width);
    if width > 0 {
        let m = (width - 1) as nat;
        law_hexadecimal_digits(v / 16, m);
        assert(t.drop_last() =~= hex_text(v / 16, m));
        assert forall|i: int| 0 <= i < t.len() implies 0 <= digit_of(#[trigger] t[i]) < 16 by {
            if i < t.len() - 1 {
                assert(t[i] == hex_text(v / 16, m)[i]);
            }
        }
        vstd::arithmetic::div_mod::lemma_mod_breakdown(v as int, 16, pow16(m));
    }
}

/// The decimal text of a number, as bytes, is read back as the number, with or
/// without a plus sign before it.
pub proof fn law_decimal_is_read_back(v: usize)
    ensures
        ({
            let bytes = Seq::new(dec_text(v as nat).len(), |i: int| dec_text(v as nat)[i] as u8);
            &&& parsed_usize(bytes) == Some(v)
            &&& parsed_usize(seq![43u8] + bytes) == Some(v)
        }),
{
    let t = dec_text(v as nat);
    let bytes = Seq::new(t.len(), |i: int| t[i] as u8);
    law_decimal_text(v as nat);
    lemma_digits_value(t);
    assert forall|i: int| 0 <= i < bytes.len() implies 48 <= #[trigger] bytes[i] <= 57 by {
        assert(0 <= digit_of(t[i]) < 10);
    }
    assert((seq![43u8] + bytes).subrange(1, 1 + bytes.len() as int) =~= bytes);
}

proof fn lemma_digits_value(t: Seq<char>)
    requires
        all_digits(t, 10),
    ensures
        digits_value(Seq::new(t.len(), |i: int| t[i] as u8)) == number(t, 10),
        number(t, 10) >= 0,
    decreases t.len(),
{
    let bytes = Seq::new(t.len(), |i: int| t[i] as u8);
    if t.len() > 0 {
        let rest = t.drop_last();
        assert forall|i: int| 0 <= i < rest.len() implies 0 <= digit_of(#[trigger] rest[i]) < 10 by {
            assert(rest[i] == t[i]);
        }
        lemma_digits_value(rest);
        assert(bytes.drop_last() =~= Seq::new(rest.len(), |i: int| rest[i] as u8));
        assert(0 <= digit_of(t[t.len() - 1]) < 10);
    }
}

/// What is no number: no digits, or a byte that is not one.
pub proof fn law_not_a_number(s: Seq<u8>, i: int)
    ensures
        s.len() == 0 ==> parsed_usize(s) is None,
        s.len() == 1 && s[0] == 43 ==> parsed_usize(s) is None,
        0 <= i < s.len() && !(48 <= s[i] <= 57) && !(i == 0 && s[0] == 43) ==> parsed_usize(s) is None,
{
    if 0 <= i < s.len() && !(48 <= s[i] <= 57) && !(i == 0 && s[0] == 43) {
        let d = crate::config::unsigned_digits(s);
        let k = if s[0] == 43 {
            i - 1
        } else {
            i
        };
        assert(d[k] == s[i]);
    }
}

/// The machine's memory: as many gigabytes as the setting says, or five.
pub proof fn law_memory_setting(
    kernel: Option<String>,
    initram: Option<String>,
    rootfs: Option<String>,
    memory: Option<String>,
    r: VmConfig,
)
    requires
        call_ensures(VmConfig::from_settings, (kernel, initram, rootfs, memory), r),
    ensures
        memory is None ==> r.memory_size == 5 * 0x4000_0000,
        memory matches Some(v) ==> (match parsed_usize(vstd::utf8::encode_utf8(v@)) {
            Some(n) => r.memory_size == n * 0x4000_0000,
            None => r.memory_size == 5 * 0x4000_0000,
        }),
        kernel matches Some(v) ==> r.kernel_path@ == v@,
        initram matches Some(v) ==> r.initram_path@ == v@,
        rootfs matches Some(v) ==> r.rootfs_path@ == v@,
{
}

/// A byte of a cursor position report's numbers.
pub open spec fn numeric(b: u8) -> bool {
    48 <= b <= 57 || b == 59
}

proof fn lemma_numbers_end(s: Seq<u8>, j: int, end: int)
    requires
        0 <= j <= end <= s.len(),
        forall|k: int| j <= k < end ==> numeric(#[trigger] s[k]),
        end < s.len() ==> !numeric(s[end]),
    ensures
        parameters_end(s, j) == end,
    decreases end - j,
{
    if j < end {
        assert(numeric(s[j]));
        lemma_numbers_end(s, j + 1, end);
    }
}

proof fn lemma_suffix(s: Seq<u8>, t: Seq<u8>, shift: int, i: int)
    requires
        0 <= shift,
        0 <= i,
        s.len() == shift + t.len(),
        forall|k: int| 0 <= k < t.len() ==> s[shift + k] == #[trigger] t[k],
    ensures
        stripped(s, shift + i) == stripped(t, i),
    decreases t.len() - i,
{
    if i < t.len() {
        lemma_suffix_end(s, t, shift, i + 2);
        lemma_end_bound(t, i + 2);
        assert(s[shift + i] == t[i]);
        if i + 2 < t.len() {
            assert(s[shift + (i + 1)] == t[i + 1]);
            let j = parameters_end(t, i + 2);
            if j < t.len() {
                assert(s[shift + j] == t[j]);
            }
        }
        match report_end(t, i) {
            Some(end) => {
                assert(report_end(s, shift + i) == Some(shift + end));
                lemma_suffix(s, t, shift, end);
            },
            None => {
                assert(report_end(s, shift + i) is None);
                lemma_suffix(s, t, shift, i + 1);
            },
        }
    }
}

proof fn lemma_end_bound(s: Seq<u8>, j: int)
    requires
        0 <= j,
    ensures
        j <= parameters_end(s, j),
    decreases s.len() - j,
{
    if j < s.len() && numeric(s[j]) {
        lemma_end_bound(s, j + 1);
    }
}

proof fn lemma_suffix_end(s: Seq<u8>, t: Seq<u8>, shift: int, j: int)
    requires
        0 <= shift,
        0 <= j,
        s.len() == shift + t.len(),
        forall|k: int| 0 <= k < t.len() ==> s[shift + k] == #[trigger] t[k],
    ensures
        parameters_end(s, shift + j) == shift + parameters_end(t, j),
    decreases t.len() - j,
{
    if j < t.len() {
        assert(s[shift + j] == t[j]);
        if numeric(t[j]) {
            lemma_suffix_end(s, t, shift, j + 1);
        }
    }
}

/// A cursor position report at the start of the input, which is an escape, an
/// opening bracket, digits or semicolons, and an `R`, does not reach the guest;
/// the rest is treated as if it came alone.
pub proof fn law_reports_dropped(numbers: Seq<u8>, rest: Seq<u8>)
    requires
        numbers.len() > 0,
        forall|k: int| 0 <= k < numbers.len() ==> numeric(#[trigger] numbers[k]),
    ensures
        stripped(seq![0x1bu8, 0x5bu8] + numbers + seq![0x52u8] + rest, 0) == stripped(rest, 0),
{
    let s = seq![0x1bu8, 0x5bu8] + numbers + seq![0x52u8] + rest;
    let end = 2 + numbers.len() as int;
    assert forall|k: int| 2 <= k < end implies numeric(#[trigger] s[k]) by {
        assert(s[k] == numbers[k - 2]);
    }
    assert(s[end] == 0x52);
    lemma_numbers_end(s, 2, end);
    assert(report_end(s, 0) == Some(end + 1));
    lemma_suffix(s, rest, end + 1, 0);
}

/// A first byte that starts no report reaches the guest: one that is no escape,
/// or is followed by no bracket, by no digit or semicolon after that, or by no
/// `R` after those.
pub proof fn law_other_input_kept(s: Seq<u8>, end: int)
    requires
        s.len() > 0,
        s[0] != 0x1b || s.len() < 3 || s[1] != 0x5b || !numeric(s[2]) || {
            &&& 2 < end <= s.len()
            &&& forall|k: int| 2 <= k < end ==> numeric(#[trigger] s[k])
            &&& end < s.len() ==> !numeric(s[end]) && s[end] != 0x52
        },
    ensures
        stripped(s, 0) == seq![s[0]] + stripped(s.subrange(1, s.len() as int), 0),
{
    lemma_suffix(s, s.subrange(1, s.len() as int), 1, 0);
    if s[0] == 0x1b && s.len() >= 3 && s[1] == 0x5b && numeric(s[2]) {
        lemma_numbers_end(s, 2, end);
    }
}

/// Nothing of empty input reaches the guest.
pub proof fn law_no_input(s: Seq<u8>)
    requires
        s.len() == 0,
    ensures
        stripped(s, 0).len() == 0,
{
}

proof fn lemma_key(s: Seq<u8>, i: int, k: int)
    requires
        0 <= i <= k <= s.len(),
        k < s.len() ==> s[k] == 0x1d,
        forall|j: int| i <= j < k ==> #[trigger] s[j] != 0x1d,
    ensures
        crate::terminal::escape_from(s, i) == (if k < s.len() {
            Some(k)
        } else {
            None
        }),
    decreases k - i,
{
    if i < k {
        assert(s[i] != 0x1d);
        lemma_key(s, i + 1, k);
    }
}

/// The key that ends the machine, Ctrl and the closing bracket: what was typed
/// before it reaches the guest, and the machine is shut down; without it all
/// reaches the guest and the machine runs on.
pub proof fn law_ending_key(s: Seq<u8>, k: int)
    requires
        0 <= k <= s.len(),
        k < s.len() ==> s[k] == 0x1d,
        forall|j: int| 0 <= j < k ==> #[trigger] s[j] != 0x1d,
    ensures
        input_action(s) == (stripped(s.subrange(0, k), 0), k < s.len()),
{
    lemma_key(s, 0, k);
    assert(s.subrange(0, s.len() as int) =~= s);
}

/// The modes of the host's terminal: for input the lowest three bits are
/// cleared and bit 0x200 is set, for output bits one and four are set; all
/// others stay.
pub proof fn law_terminal_modes(mode: u32, i: u32, o: u32)
    requires
        call_ensures(raw_input_mode, (mode,), i),
        call_ensures(vt_output_mode, (mode,), o),
    ensures
        i % 8 == 0,
        (i / 0x200) % 2 == 1,
        (i / 8) % 0x40 == (mode / 8) % 0x40,
        i / 0x400 == mode / 0x400,
        o % 2 == 1,
        (o / 4) % 2 == 1,
        (o / 2) % 2 == (mode / 2) % 2,
        o / 8 == mode / 8,
{
    assert({
        let i = (mode & !7u32) | 0x200;
        let o = mode | 0x1 | 0x4;
        &&& i % 8 == 0
        &&& (i / 0x200) % 2 == 1
        &&& (i / 8) % 0x40 == (mode / 8) % 0x40
        &&& i / 0x400 == mode / 0x400
        &&& o % 2 == 1
        &&& (o / 4) % 2 == 1
        &&& (o / 2) % 2 == (mode / 2) % 2
        &&& o / 8 == mode / 8
    }) by (bit_vector);
}

} // verus!
