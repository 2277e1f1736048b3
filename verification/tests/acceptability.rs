//! The RFC 793 acceptability table, row by row, with the zero-window
//! boundary cases.

use trust::conn::segment_acceptable;

const NXT: u32 = 5000;

/// Against a zero window, exactly the empty segment at RCV.NXT is
/// acceptable.
#[test]
fn zero_window_accepts_only_empty_at_nxt() {
    assert!(segment_acceptable(NXT, 0, NXT, 0, false, false));
    assert!(!segment_acceptable(NXT, 0, NXT.wrapping_sub(1), 0, false, false));
    assert!(!segment_acceptable(NXT, 0, NXT.wrapping_add(1), 0, false, false));
}

/// Any other zero-window segment is not: one payload byte, a SYN or a FIN
/// all make it non-empty.
#[test]
fn zero_window_rejects_everything_else() {
    assert!(!segment_acceptable(NXT, 0, NXT, 1, false, false));
    assert!(!segment_acceptable(NXT, 0, NXT, 0, true, false));
    assert!(!segment_acceptable(NXT, 0, NXT, 0, false, true));
    assert!(!segment_acceptable(NXT, 0, NXT, 100, true, true));
}

#[test]
fn empty_segment_against_open_window() {
    assert!(segment_acceptable(NXT, 1024, NXT, 0, false, false));
    assert!(segment_acceptable(NXT, 1024, NXT + 1023, 0, false, false));
    assert!(!segment_acceptable(NXT, 1024, NXT + 1024, 0, false, false));
    assert!(!segment_acceptable(NXT, 1024, NXT - 1, 0, false, false));
}

#[test]
fn data_segment_overlapping_the_window() {
    // starts in the window
    assert!(segment_acceptable(NXT, 1024, NXT, 5, false, false));
    // starts before it but reaches in with its last byte
    assert!(segment_acceptable(NXT, 1024, NXT - 2, 3, false, false));
    // fully old
    assert!(!segment_acceptable(NXT, 1024, NXT - 5, 3, false, false));
    // fully past the window end
    assert!(!segment_acceptable(NXT, 1024, NXT + 1024, 3, false, false));
    // the FIN's virtual byte can be what reaches the window
    assert!(segment_acceptable(NXT, 1024, NXT - 2, 2, false, true));
    assert!(!segment_acceptable(NXT, 1024, NXT - 2, 2, false, false));
}
