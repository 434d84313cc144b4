//! VM configuration.

use vstd::prelude::*;

verus! {

/// Guest memory where none is configured, in GiB.
pub const DEFAULT_MEMORY_GB: usize = 5;

/// Bytes in a GiB.
pub const GIB: usize = 0x4000_0000;

/// All user-configurable settings needed to start the VM.
#[derive(Debug)]
pub struct VmConfig {
    pub kernel_path: String,
    pub initram_path: String,
    pub rootfs_path: String,
    pub memory_size: usize,
}

/// The number that decimal digits stand for, highest first.
pub open spec fn digits_value(s: Seq<u8>) -> nat
    decreases s.len(),
{
    if s.len() == 0 {
        0
    } else {
        10 * digits_value(s.drop_last()) + (s.last() - 48) as nat
    }
}

/// The digits of a number: what follows a plus sign, or all of the text.
pub open spec fn unsigned_digits(s: Seq<u8>) -> Seq<u8> {
    if s.len() > 0 && s[0] == 43 {
        s.subrange(1, s.len() as int)
    } else {
        s
    }
}

/// The number that a text stands for: decimal digits, at least one, after an
/// optional plus sign, if the number fits.
pub open spec fn parsed_usize(s: Seq<u8>) -> Option<usize> {
    let digits = unsigned_digits(s);
    if digits.len() == 0 || exists|i: int| 0 <= i < digits.len() && !(48 <= #[trigger] digits[i] <= 57)
        || digits_value(digits) > usize::MAX {
        None
    } else {
        Some(digits_value(digits) as usize)
    }
}

/// More digits never make a number smaller.
proof fn lemma_digits_monotonic(s: Seq<u8>, i: int)
    requires
        0 <= i <= s.len(),
        forall|j: int| 0 <= j < s.len() ==> 48 <= #[trigger] s[j],
    ensures
        digits_value(s.subrange(0, i)) <= digits_value(s),
    decreases s.len(),
{
    if i < s.len() {
        lemma_digits_monotonic(s.drop_last(), i);
        assert(s.drop_last().subrange(0, i) =~= s.subrange(0, i));
    } else {
        assert(s.subrange(0, i) =~= s);
    }
}

/// Parses a decimal number.
pub fn parse_usize(s: &[u8]) -> (r: Option<usize>)
    ensures
        r == parsed_usize(s@),
{
    let start: usize = if s.len() > 0 && s[0] == 43 {
        1
    } else {
        0
    };
    let ghost digits = unsigned_digits(s@);
    assert(digits =~= s@.subrange(start as int, s@.len() as int));
    if start >= s.len() {
        return None;
    }
    let mut k: usize = start;
    while k < s.len()
        invariant
            start <= k <= s@.len(),
            digits == s@.subrange(start as int, s@.len() as int),
            digits == unsigned_digits(s@),
            forall|j: int| 0 <= j < k - start ==> 48 <= #[trigger] digits[j] <= 57,
        decreases s@.len() - k,
    {
        if s[k] < 48 || s[k] > 57 {
            assert(!(48 <= digits[k - start] <= 57));
            return None;
        }
        k += 1;
    }
    let mut value: usize = 0;
    let mut i: usize = start;
    assert(digits.subrange(0, 0) =~= Seq::empty());
    while i < s.len()
        invariant
            start <= i <= s@.len(),
            digits.len() > 0,
            digits == s@.subrange(start as int, s@.len() as int),
            digits == unsigned_digits(s@),
            forall|j: int| 0 <= j < digits.len() ==> 48 <= #[trigger] digits[j] <= 57,
            value == digits_value(digits.subrange(0, i - start)),
        decreases s@.len() - i,
    {
        let ghost next = digits.subrange(0, i - start + 1);
        proof {
            assert(digits[i - start] == s@[i as int]);
            assert(next.drop_last() =~= digits.subrange(0, i - start));
            assert(next.last() == s@[i as int]);
            lemma_digits_monotonic(digits, i - start + 1);
        }
        value = match value.checked_mul(10) {
            Some(v) => match v.checked_add((s[i] - 48) as usize) {
                Some(w) => w,
                None => {
                    return None;
                },
            },
            None => {
                return None;
            },
        };
        i += 1;
    }
    assert(digits.subrange(0, digits.len() as int) =~= digits);
    Some(value)
}

/// The configured value, or the default.
pub open spec fn setting(value: Option<String>, default: Seq<char>) -> Seq<char> {
    match value {
        Some(v) => v@,
        None => default,
    }
}

/// How many GiB of memory are configured; the default where none or no number
/// is.
pub open spec fn memory_gb(value: Option<String>) -> usize {
    match value {
        Some(v) => match parsed_usize(vstd::utf8::encode_utf8(v@)) {
            Some(n) => n,
            None => DEFAULT_MEMORY_GB,
        },
        None => DEFAULT_MEMORY_GB,
    }
}

impl VmConfig {
    /// Builds the configuration from the values of the settings that are set.
    pub fn from_settings(
        kernel_path: Option<String>,
        initram_path: Option<String>,
        rootfs_path: Option<String>,
        memory: Option<String>,
    ) -> (r: Self)
        requires
            memory_gb(memory) * GIB <= usize::MAX,
        ensures
            r.kernel_path@ == setting(kernel_path, "kernels/fedora-kernel"@),
            r.initram_path@ == setting(initram_path, "kernels/initramfs.img"@),
            r.rootfs_path@ == setting(rootfs_path, "kernels/fedora-rootfs.img"@),
            r.memory_size == memory_gb(memory) * GIB,
    {
        let kernel_path = match kernel_path {
            Some(v) => v,
            None => "kernels/fedora-kernel".to_owned(),
        };
        let initram_path = match initram_path {
            Some(v) => v,
            None => "kernels/initramfs.img".to_owned(),
        };
        let rootfs_path = match rootfs_path {
            Some(v) => v,
            None => "kernels/fedora-rootfs.img".to_owned(),
        };
        let gb: usize = match memory {
            Some(v) => match parse_usize(v.as_str().as_bytes()) {
                Some(n) => n,
                None => DEFAULT_MEMORY_GB,
            },
            None => DEFAULT_MEMORY_GB,
        };
        VmConfig { kernel_path, initram_path, rootfs_path, memory_size: gb * GIB }
    }

    /// What is wrong with the configuration if not all of its files exist: the
    /// first file that is missing.
    pub fn missing_file(&self, kernel: bool, initram: bool, rootfs: bool) -> (r: Option<String>)
        ensures
            r is None <==> kernel && initram && rootfs,
            r matches Some(text) ==> text@ == (if !kernel {
                "Kernel file not found: "@ + self.kernel_path@
            } else if !initram {
                "Initramfs file not found: "@ + self.initram_path@
            } else {
                "Rootfs file not found: "@ + self.rootfs_path@
            }),
    {
        if !kernel {
            Some("Kernel file not found: ".to_owned().concat(self.kernel_path.as_str()))
        } else if !initram {
            Some("Initramfs file not found: ".to_owned().concat(self.initram_path.as_str()))
        } else if !rootfs {
            Some("Rootfs file not found: ".to_owned().concat(self.rootfs_path.as_str()))
        } else {
            None
        }
    }
}

} // verus!
