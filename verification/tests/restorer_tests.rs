use pe_recon::restorer::{restore_raw, virtual_image_end, Error};
use pe_recon::sections::Section;

fn section(file_offset: u32, file_size: u32, virtual_address: u32, virtual_size: u32) -> Section {
    Section {
        name: [0u8; 8],
        file_offset,
        file_size,
        virtual_address,
        virtual_size,
    }
}

const ALIGN: u32 = 0x1000;

#[test]
fn restore_places_each_section_and_zeroes_the_rest() {
    let mut dump = vec![0u8; 64];
    for j in 0..8 {
        dump[j] = 0xA0 + j as u8;
    }
    dump[32..36].copy_from_slice(&[1, 2, 3, 4]);
    dump[40..44].copy_from_slice(&[5, 6, 7, 8]);
    let secs = vec![section(16, 4, 32, 4), section(24, 4, 40, 4)];

    let (out, eof) = restore_raw(&dump, 8, ALIGN, &secs).unwrap();
    assert_eq!(out.len(), 64);
    assert_eq!(&out[0..8], &dump[0..8]);
    assert_eq!(&out[16..20], &[1, 2, 3, 4]);
    assert_eq!(&out[24..28], &[5, 6, 7, 8]);
    for j in 8..16 {
        assert_eq!(out[j], 0);
    }
    for j in 20..24 {
        assert_eq!(out[j], 0);
    }
    for j in 28..64 {
        assert_eq!(out[j], 0);
    }
    assert_eq!(eof, 28);
}

#[test]
fn restore_with_no_sections_keeps_only_the_header() {
    let dump = vec![9u8; 16];
    let (out, eof) = restore_raw(&dump, 4, ALIGN, &[]).unwrap();
    assert_eq!(&out[0..4], &[9, 9, 9, 9]);
    for j in 4..16 {
        assert_eq!(out[j], 0);
    }
    assert_eq!(eof, 0);
}

#[test]
fn header_region_larger_than_snapshot_is_out_of_bounds() {
    let dump = vec![0u8; 8];
    match restore_raw(&dump, 9, ALIGN, &[]) {
        Err(Error::OutOfBounds) => {}
        other => panic!("expected OutOfBounds, got {:?}", other.map(|_| ())),
    }
}

#[test]
fn virtual_range_past_snapshot_end_is_out_of_bounds() {
    let dump = vec![0u8; 32];
    let secs = vec![section(0, 8, 28, 8)];
    match restore_raw(&dump, 0, ALIGN, &secs) {
        Err(Error::OutOfBounds) => {}
        other => panic!("expected OutOfBounds, got {:?}", other.map(|_| ())),
    }
}

#[test]
fn file_range_past_snapshot_end_is_out_of_bounds() {
    let dump = vec![0u8; 32];
    let secs = vec![section(28, 8, 0, 8)];
    match restore_raw(&dump, 0, ALIGN, &secs) {
        Err(Error::OutOfBounds) => {}
        other => panic!("expected OutOfBounds, got {:?}", other.map(|_| ())),
    }
}

#[test]
fn later_section_overwrites_an_earlier_one() {
    let mut dump = vec![0u8; 32];
    dump[16] = 0x11;
    dump[20] = 0x22;
    let secs = vec![section(0, 1, 16, 1), section(0, 1, 20, 1)];
    let (out, eof) = restore_raw(&dump, 0, ALIGN, &secs).unwrap();
    assert_eq!(out[0], 0x22);
    assert_eq!(eof, 1);
}

#[test]
fn virtual_image_end_is_the_highest_virtual_reach() {
    assert_eq!(virtual_image_end(&[]), 0);
    let secs = vec![section(0, 4, 32, 4), section(8, 16, 40, 16), section(24, 2, 16, 2)];
    assert_eq!(virtual_image_end(&secs), 56);
}
