use whp_vmm::terminal::{raw_input_mode, stdin_step, strip_cpr_responses, vt_output_mode, StdinEvent};

#[test]
fn plain_input_passes() {
    assert_eq!(strip_cpr_responses(b"ls -l\r"), b"ls -l\r".to_vec());
    assert_eq!(strip_cpr_responses(b""), Vec::<u8>::new());
}

#[test]
fn cursor_reports_are_dropped() {
    assert_eq!(strip_cpr_responses(b"\x1b[30;5R"), Vec::<u8>::new());
    assert_eq!(strip_cpr_responses(b"a\x1b[1;1Rb\x1b[24;80R"), b"ab".to_vec());
}

#[test]
fn other_sequences_stay() {
    assert_eq!(strip_cpr_responses(b"\x1b[A"), b"\x1b[A".to_vec());
    assert_eq!(strip_cpr_responses(b"\x1b[R"), b"\x1b[R".to_vec());
    assert_eq!(strip_cpr_responses(b"\x1b[12;"), b"\x1b[12;".to_vec());
    assert_eq!(strip_cpr_responses(b"\x1b["), b"\x1b[".to_vec());
    assert_eq!(strip_cpr_responses(b"\x1b"), b"\x1b".to_vec());
}

#[test]
fn the_escape_key_ends_the_machine() {
    let r = stdin_step(&StdinEvent::Data(b"ab\x1d cd".to_vec()));
    assert_eq!(r.forward, b"ab".to_vec());
    assert!(r.shutdown && r.done);
    let r = stdin_step(&StdinEvent::Data(b"\x1d".to_vec()));
    assert!(r.forward.is_empty() && r.shutdown && r.done);
}

#[test]
fn input_goes_on_until_it_ends() {
    let r = stdin_step(&StdinEvent::Data(b"x\x1b[2;2Ry".to_vec()));
    assert_eq!(r.forward, b"xy".to_vec());
    assert!(!r.shutdown && !r.done);
    let r = stdin_step(&StdinEvent::Eof);
    assert!(r.forward.is_empty() && !r.shutdown && r.done);
    let r = stdin_step(&StdinEvent::Failed);
    assert!(r.forward.is_empty() && !r.shutdown && r.done);
}

#[test]
fn console_modes() {
    assert_eq!(raw_input_mode(0x1F7), 0x3F0);
    assert_eq!(raw_input_mode(0), 0x200);
    assert_eq!(vt_output_mode(0x2), 0x7);
}
