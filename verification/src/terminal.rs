//! What the host terminal is set to, and what of its input the guest gets.

use vstd::prelude::*;

verus! {

/// The key that ends the machine: Ctrl and the closing bracket.
pub const ESCAPE_KEY: u8 = 0x1D;

/// Console modes of the host.
pub const ENABLE_PROCESSED_INPUT: u32 = 0x1;

pub const ENABLE_LINE_INPUT: u32 = 0x2;

pub const ENABLE_ECHO_INPUT: u32 = 0x4;

pub const ENABLE_VIRTUAL_TERMINAL_INPUT: u32 = 0x200;

pub const ENABLE_PROCESSED_OUTPUT: u32 = 0x1;

pub const ENABLE_VIRTUAL_TERMINAL_PROCESSING: u32 = 0x4;

/// The input mode for the guest: no echo, no line editing and no control keys,
/// but escape sequences.
pub fn raw_input_mode(mode: u32) -> (r: u32)
    ensures
        r == (mode & !7u32) | ENABLE_VIRTUAL_TERMINAL_INPUT,
{
    assert(ENABLE_ECHO_INPUT | ENABLE_LINE_INPUT | ENABLE_PROCESSED_INPUT == 7u32) by (bit_vector);
    (mode & !(ENABLE_ECHO_INPUT | ENABLE_LINE_INPUT | ENABLE_PROCESSED_INPUT))
        | ENABLE_VIRTUAL_TERMINAL_INPUT
}

/// The output mode for the guest: escape sequences are shown.
pub fn vt_output_mode(mode: u32) -> (r: u32)
    ensures
        r == mode | ENABLE_PROCESSED_OUTPUT | ENABLE_VIRTUAL_TERMINAL_PROCESSING,
{
    mode | ENABLE_PROCESSED_OUTPUT | ENABLE_VIRTUAL_TERMINAL_PROCESSING
}

/// A digit or a semicolon.
pub open spec fn is_parameter(b: u8) -> bool {
    48 <= b <= 57 || b == 59
}

/// The first position at or after `j` that holds no parameter.
pub open spec fn parameters_end(s: Seq<u8>, j: int) -> int
    decreases s.len() - j,
{
    if 0 <= j < s.len() && is_parameter(s[j]) {
        parameters_end(s, j + 1)
    } else {
        j
    }
}

/// The position after the cursor position report at `i`, if one is there:
/// escape, an opening bracket, at least one parameter, and an `R`.
pub open spec fn report_end(s: Seq<u8>, i: int) -> Option<int> {
    let j = parameters_end(s, i + 2);
    if i + 2 < s.len() && s[i] == 0x1b && s[i + 1] == 91 && j > i + 2 && j < s.len() && s[j] == 82 {
        Some(j + 1)
    } else {
        None
    }
}

proof fn lemma_parameters_end(s: Seq<u8>, j: int)
    requires
        0 <= j,
    ensures
        j <= parameters_end(s, j),
        parameters_end(s, j) <= s.len() || parameters_end(s, j) == j,
    decreases s.len() - j,
{
    if j < s.len() && is_parameter(s[j]) {
        lemma_parameters_end(s, j + 1);
    }
}

/// The bytes from `i` on without the cursor position reports.
pub open spec fn stripped(s: Seq<u8>, i: int) -> Seq<u8>
    decreases s.len() - i,
{
    if i < 0 || i >= s.len() {
        Seq::empty()
    } else {
        match report_end(s, i) {
            Some(end) => if end > i {
                stripped(s, end)
            } else {
                Seq::empty()
            },
            None => seq![s[i]] + stripped(s, i + 1),
        }
    }
}

/// The bytes without the cursor position reports, which the host terminal
/// sends in answer to the guest's queries.
pub fn strip_cpr_responses(bytes: &[u8]) -> (r: Vec<u8>)
    ensures
        r@ == stripped(bytes@, 0),
{
    let mut result: Vec<u8> = Vec::new();
    let total: usize = bytes.len();
    let mut i: usize = 0;
    while i < total
        invariant
            total == bytes@.len(),
            i <= total,
            stripped(bytes@, 0) == result@ + stripped(bytes@, i as int),
        decreases total - i,
    {
        let ghost start = i as int;
        let ghost before = result@;
        let mut next: Option<usize> = None;
        if bytes[i] == 0x1b && total - i > 2 && bytes[i + 1] == 91 {
            let mut j: usize = i + 2;
            while j < total && (bytes[j] >= 48 && bytes[j] <= 57 || bytes[j] == 59)
                invariant
                    total == bytes@.len(),
                    i + 2 <= j <= total,
                    i == start,
                    parameters_end(bytes@, start + 2) == parameters_end(bytes@, j as int),
                decreases total - j,
            {
                j += 1;
            }
            assert(parameters_end(bytes@, start + 2) == j);
            if j > i + 2 && j < total && bytes[j] == 82 {
                next = Some(j + 1);
            }
        }
        match next {
            Some(end) => {
                assert(report_end(bytes@, start) == Some(end as int));
                i = end;
            },
            None => {
                assert(report_end(bytes@, start) is None);
                result.push(bytes[i]);
                i += 1;
                assert(before + (seq![bytes@[start]] + stripped(bytes@, start + 1)) =~= result@
                    + stripped(bytes@, start + 1));
            },
        }
    }
    assert(result@ + stripped(bytes@, i as int) =~= result@);
    result
}

/// What reading the host's input gave.
#[derive(Debug)]
pub enum StdinEvent {
    Eof,
    Data(Vec<u8>),
    Failed,
}

/// What is done about it.
#[derive(Debug)]
pub struct StdinAction {
    /// The bytes that the guest gets. The guest is woken if there are any.
    pub forward: Vec<u8>,
    /// The machine is to be shut down.
    pub shutdown: bool,
    /// There is no more to read.
    pub done: bool,
}

/// The first position at or after `i` of the key that ends the machine.
pub open spec fn escape_from(s: Seq<u8>, i: int) -> Option<int>
    decreases s.len() - i,
{
    if i < 0 || i >= s.len() {
        None
    } else if s[i] == ESCAPE_KEY {
        Some(i)
    } else {
        escape_from(s, i + 1)
    }
}

/// What is done about input: the bytes before the key that ends the machine, if
/// it is there, go to the guest.
pub open spec fn input_action(s: Seq<u8>) -> (Seq<u8>, bool) {
    match escape_from(s, 0) {
        Some(k) => (stripped(s.subrange(0, k), 0), true),
        None => (stripped(s, 0), false),
    }
}

/// Decides what is done about what was read from the host's input.
pub fn stdin_step(event: &StdinEvent) -> (r: StdinAction)
    ensures
        match *event {
            StdinEvent::Data(bytes) => r.forward@ == input_action(bytes@).0 && r.shutdown
                == input_action(bytes@).1 && r.done == r.shutdown,
            _ => r.forward@.len() == 0 && !r.shutdown && r.done,
        },
{
    let bytes = match event {
        StdinEvent::Data(bytes) => bytes,
        _ => {
            return StdinAction { forward: Vec::new(), shutdown: false, done: true };
        },
    };
    let mut pos: usize = 0;
    while pos < bytes.len()
        invariant
            pos <= bytes@.len(),
            escape_from(bytes@, 0) == escape_from(bytes@, pos as int),
            *event == (StdinEvent::Data(*bytes)),
        decreases bytes@.len() - pos,
    {
        if bytes[pos] == ESCAPE_KEY {
            let forward = strip_cpr_responses(&bytes.as_slice()[0..pos]);
            return StdinAction { forward, shutdown: true, done: true };
        }
        pos += 1;
    }
    StdinAction { forward: strip_cpr_responses(bytes.as_slice()), shutdown: false, done: false }
}

/// Input without escape bytes reaches the guest as it is.
pub proof fn law_plain_input_passes(s: Seq<u8>, i: int)
    requires
        0 <= i <= s.len(),
        forall|k: int| i <= k < s.len() ==> #[trigger] s[k] != 0x1b,
    ensures
        stripped(s, i) == s.subrange(i, s.len() as int),
    decreases s.len() - i,
{
    if i < s.len() {
        law_plain_input_passes(s, i + 1);
        assert(s[i] != 0x1b);
        assert(s.subrange(i, s.len() as int) =~= seq![s[i]] + s.subrange(i + 1, s.len() as int));
    } else {
        assert(s.subrange(i, s.len() as int) =~= Seq::empty());
    }
}

proof fn lemma_parameters_run(s: Seq<u8>, j: int, end: int)
    requires
        0 <= j <= end < s.len(),
        forall|k: int| j <= k < end ==> is_parameter(#[trigger] s[k]),
        !is_parameter(s[end]),
    ensures
        parameters_end(s, j) == end,
    decreases end - j,
{
    if j < end {
        assert(is_parameter(s[j]));
        lemma_parameters_run(s, j + 1, end);
    }
}

/// A cursor position report between two pieces of input is dropped whole: what
/// follows it is treated as if it were not there.
pub proof fn law_report_is_dropped(parameters: Seq<u8>, rest: Seq<u8>)
    requires
        parameters.len() > 0,
        forall|k: int| 0 <= k < parameters.len() ==> is_parameter(#[trigger] parameters[k]),
    ensures
        stripped(seq![0x1bu8, 91u8] + parameters + seq![82u8] + rest, 0) == stripped(rest, 0),
{
    let s = seq![0x1bu8, 91u8] + parameters + seq![82u8] + rest;
    let end = 2 + parameters.len() as int;
    assert forall|k: int| 2 <= k < end implies is_parameter(#[trigger] s[k]) by {
        assert(s[k] == parameters[k - 2]);
    }
    assert(s[end] == 82);
    lemma_parameters_run(s, 2, end);
    assert(report_end(s, 0) == Some(end + 1));
    lemma_stripped_suffix(s, rest, end + 1, 0);
}

/// What is stripped from a position on depends on the bytes from there on only.
proof fn lemma_stripped_suffix(s: Seq<u8>, t: Seq<u8>, shift: int, i: int)
    requires
        0 <= shift,
        0 <= i,
        s.len() == shift + t.len(),
        forall|k: int| 0 <= k < t.len() ==> s[shift + k] == #[trigger] t[k],
    ensures
        stripped(s, shift + i) == stripped(t, i),
    decreases t.len() - i,
{
    if i < t.len() {
        lemma_parameters_suffix(s, t, shift, i + 2);
        lemma_parameters_end(t, i + 2);
        assert(s[shift + i] == t[i]);
        if i + 2 < t.len() {
            assert(s[shift + (i + 1)] == t[i + 1]);
            let j = parameters_end(t, i + 2);
            if j < t.len() {
                assert(s[shift + j] == t[j]);
            }
        }
        match report_end(t, i) {
            Some(end) => {
                assert(report_end(s, shift + i) == Some(shift + end));
                lemma_stripped_suffix(s, t, shift, end);
            },
            None => {
                assert(report_end(s, shift + i) is None);
                lemma_stripped_suffix(s, t, shift, i + 1);
            },
        }
    }
}

proof fn lemma_parameters_suffix(s: Seq<u8>, t: Seq<u8>, shift: int, j: int)
    requires
        0 <= shift,
        0 <= j,
        s.len() == shift + t.len(),
        forall|k: int| 0 <= k < t.len() ==> s[shift + k] == #[trigger] t[k],
    ensures
        parameters_end(s, shift + j) == shift + parameters_end(t, j),
    decreases t.len() - j,
{
    if j < t.len() {
        assert(s[shift + j] == t[j]);
        if is_parameter(t[j]) {
            lemma_parameters_suffix(s, t, shift, j + 1);
        }
    }
}

/// Nothing that follows the key that ends the machine reaches the guest.
pub proof fn law_nothing_after_the_escape_key(before: Seq<u8>, after: Seq<u8>)
    requires
        forall|k: int| 0 <= k < before.len() ==> #[trigger] before[k] != ESCAPE_KEY,
    ensures
        input_action(before + seq![ESCAPE_KEY] + after) == (stripped(before, 0), true),
{
    let s = before + seq![ESCAPE_KEY] + after;
    lemma_escape_at(s, 0, before.len() as int);
    assert(s.subrange(0, before.len() as int) =~= before);
}

proof fn lemma_escape_at(s: Seq<u8>, i: int, k: int)
    requires
        0 <= i <= k < s.len(),
        s[k] == ESCAPE_KEY,
        forall|j: int| i <= j < k ==> #[trigger] s[j] != ESCAPE_KEY,
    ensures
        escape_from(s, i) == Some(k),
    decreases k - i,
{
    if i < k {
        assert(s[i] != ESCAPE_KEY);
        lemma_escape_at(s, i + 1, k);
    }
}

} // verus!
