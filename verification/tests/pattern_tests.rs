use pe_recon::pattern::{check_pattern, is_blank_pattern};

#[test]
fn blank_patterns_are_detected() {
    assert!(is_blank_pattern(""));
    assert!(is_blank_pattern(" \t\r\n "));
    assert!(!is_blank_pattern("48"));
    assert!(!is_blank_pattern(" x "));
}

#[test]
fn well_formed_patterns_are_accepted() {
    assert!(check_pattern("48 8B 05"));
    assert!(check_pattern("48 ?? 8b ? ff"));
    assert!(check_pattern("  0A\t0b  "));
    assert!(check_pattern("00"));
}

#[test]
fn malformed_patterns_are_rejected() {
    assert!(!check_pattern(""));
    assert!(!check_pattern("   "));
    assert!(!check_pattern("GG"));
    assert!(!check_pattern("4"));
    assert!(!check_pattern("123"));
    assert!(!check_pattern("48 8"));
    assert!(!check_pattern("???"));
}
