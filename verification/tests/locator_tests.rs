use pe_recon::locator::{find_all_pattern, Error, OffsetLocator};
use pe_recon::json::OffsetLocatorJson;
use pe_recon::sections::{resolve_symbol, Section};

fn section(file_offset: u32, file_size: u32, virtual_address: u32, virtual_size: u32) -> Section {
    Section {
        name: [0u8; 8],
        file_offset,
        file_size,
        virtual_address,
        virtual_size,
    }
}

const BASE: usize = 0x400000;

fn data() -> Vec<u8> {
    vec![0x10, 0x20, 0x48, 0x8B, 0x05, 0x99, 0x20, 0x30]
}

fn full_section() -> Vec<Section> {
    vec![section(0, 8, 0x1000, 0x2000)]
}

fn locator(full: &str, partials: &[&str], allow: bool) -> OffsetLocator {
    OffsetLocator {
        name: String::from("probe"),
        partial_match: partials.iter().map(|p| String::from(*p)).collect(),
        full_match: String::from(full),
        skip_offset_print: false,
        allow_multiple_matches: allow,
    }
}

#[test]
fn resolve_symbol_inside_section() {
    let secs = full_section();
    assert_eq!(resolve_symbol(BASE, &secs, 5), Some(BASE + 0x1000 + 5));
}

#[test]
fn resolve_symbol_outside_every_section() {
    let secs = vec![section(0, 4, 0x1000, 0x2000)];
    assert_eq!(resolve_symbol(BASE, &secs, 5), None);
}

#[test]
fn resolve_symbol_first_containing_section_wins() {
    let secs = vec![
        section(0, 8, 0x1000, 0x2000),
        section(0, 8, 0x5000, 0x2000),
    ];
    assert_eq!(resolve_symbol(BASE, &secs, 3), Some(BASE + 0x1000 + 3));
}

#[test]
fn single_match_resolves_regardless_of_multiple_flag() {
    let d = data();
    let secs = full_section();
    for allow in [false, true] {
        let l = locator("48 8B 05", &[], allow);
        let (off, addr, used_full) = l.find_offset(BASE, &secs, &d).unwrap();
        assert_eq!(off, 2);
        assert_eq!(addr, BASE + 0x1000 + 2);
        assert!(used_full);
    }
}

#[test]
fn wildcard_tokens_match_any_byte() {
    let d = data();
    let secs = full_section();
    let l = locator("48 ?? 05", &[], false);
    let (off, _, used_full) = l.find_offset(BASE, &secs, &d).unwrap();
    assert_eq!(off, 2);
    assert!(used_full);
    let l = locator("? 8B", &[], false);
    let (off, _, _) = l.find_offset(BASE, &secs, &d).unwrap();
    assert_eq!(off, 2);
}

#[test]
fn no_pattern_matches_not_found() {
    let d = data();
    let secs = full_section();
    let l = locator("AA BB", &["CC DD"], false);
    match l.find_offset(BASE, &secs, &d) {
        Err(Error::NotFound(name)) => assert_eq!(name, "probe"),
        other => panic!("expected NotFound, got {:?}", other.map(|_| ())),
    }
}

#[test]
fn second_partial_supplies_the_match() {
    let d = data();
    let secs = full_section();
    let l = locator("AA BB", &["CC DD", "99 20 30"], false);
    let (off, addr, used_full) = l.find_offset(BASE, &secs, &d).unwrap();
    assert_eq!(off, 5);
    assert_eq!(addr, BASE + 0x1000 + 5);
    assert!(!used_full);
}

#[test]
fn ambiguous_match_fails_without_tolerance() {
    let d = data();
    let secs = full_section();
    let l = locator("20", &[], false);
    match l.find_offset(BASE, &secs, &d) {
        Err(Error::TooManyMatches(name)) => assert_eq!(name, "probe"),
        other => panic!("expected TooManyMatches, got {:?}", other.map(|_| ())),
    }
}

#[test]
fn ambiguous_match_returns_first_with_tolerance() {
    let d = data();
    let secs = full_section();
    let l = locator("20", &[], true);
    let (off, addr, used_full) = l.find_offset(BASE, &secs, &d).unwrap();
    assert_eq!(off, 1);
    assert_eq!(addr, BASE + 0x1000 + 1);
    assert!(used_full);
}

#[test]
fn match_outside_sections_is_a_resolution_error() {
    let d = data();
    let secs = vec![section(0, 4, 0x1000, 0x2000)];
    let l = locator("99", &[], false);
    match l.find_offset(BASE, &secs, &d) {
        Err(Error::AddressResolutionFailed(off)) => assert_eq!(off, 5),
        other => panic!("expected AddressResolutionFailed, got {:?}", other.map(|_| ())),
    }
}

#[test]
fn malformed_pattern_is_a_scanner_error() {
    let d = data();
    let secs = full_section();
    let l = locator("GG", &[], false);
    match l.find_offset(BASE, &secs, &d) {
        Err(Error::PatternScanner(p)) => assert_eq!(p, "GG"),
        other => panic!("expected PatternScanner, got {:?}", other.map(|_| ())),
    }
}

#[test]
fn all_partials_collects_every_matching_pattern() {
    let d = data();
    let secs = full_section();
    let l = locator("AA BB", &["AA", "20", "FF", "30"], false);
    let m = l.find_all_partial_only(BASE, &secs, &d).unwrap();
    assert_eq!(m.len(), 2);
    assert_eq!(
        m.get(&1).unwrap(),
        &vec![(1, BASE + 0x1000 + 1), (6, BASE + 0x1000 + 6)]
    );
    assert_eq!(m.get(&3).unwrap(), &vec![(7, BASE + 0x1000 + 7)]);
    assert!(m.get(&0).is_none());
    assert!(m.get(&2).is_none());
}

#[test]
fn all_partials_with_no_match_is_not_found() {
    let d = data();
    let secs = full_section();
    let l = locator("AA BB", &["AA", "FF"], false);
    match l.find_all_partial_only(BASE, &secs, &d) {
        Err(Error::NotFound(name)) => assert_eq!(name, "probe"),
        other => panic!("expected NotFound, got {:?}", other.map(|_| ())),
    }
}

#[test]
fn ambiguous_fallback_match_also_fails_without_tolerance() {
    let d = data();
    let secs = full_section();
    let l = locator("AA BB", &["CC DD", "20"], false);
    match l.find_offset(BASE, &secs, &d) {
        Err(Error::TooManyMatches(name)) => assert_eq!(name, "probe"),
        other => panic!("expected TooManyMatches, got {:?}", other.map(|_| ())),
    }
}

#[test]
fn wildcard_only_pattern_matches_every_offset() {
    let d = data();
    let secs = full_section();
    let l = locator("AA BB", &["??"], false);
    let m = l.find_all_partial_only(BASE, &secs, &d).unwrap();
    let all = m.get(&0).unwrap();
    assert_eq!(all.len(), 8);
    for (i, (off, addr)) in all.iter().enumerate() {
        assert_eq!(*off, i);
        assert_eq!(*addr, BASE + 0x1000 + i);
    }
}

#[test]
fn all_matches_of_one_pattern_lists_every_candidate() {
    let d = data();
    let secs = full_section();
    let all = find_all_pattern(BASE, &secs, &d, "20", "probe").unwrap();
    assert_eq!(all, vec![(1, BASE + 0x1000 + 1), (6, BASE + 0x1000 + 6)]);
}

#[test]
fn json_form_converts_to_locator() {
    let j = OffsetLocatorJson {
        name: String::from("from_json"),
        partial_match: vec![String::from("AA BB")],
        full_match: String::from("48 8B 05"),
        skip_offset_print: true,
        allow_multiple_matches: false,
    };
    let l = OffsetLocator::from(j);
    assert_eq!(l.name, "from_json");
    assert_eq!(l.partial_match, vec![String::from("AA BB")]);
    assert_eq!(l.full_match, "48 8B 05");
    assert!(l.skip_offset_print);
    assert!(!l.allow_multiple_matches);

    let d = data();
    let secs = full_section();
    let (off, _, used_full) = l.find_offset(BASE, &secs, &d).unwrap();
    assert_eq!(off, 2);
    assert!(used_full);
}
