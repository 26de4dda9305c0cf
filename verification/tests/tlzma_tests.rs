use pe_recon::tlzma::{Error, TlzmaHeader};

const PROPS_XK: u8 = 0x9d ^ 0xf3;
const PROPS_AK: u8 = 0x65 ^ 0xa2;
const USIZE_XK: u32 = 0x218d5a0a ^ 0xab8832cb;
const USIZE_AK: u32 = 0x5e98c630 ^ 0x66e44294;
const CSIZE_XK: u32 = 0x6dfc36ff ^ 0xfc4c53bf;
const CSIZE_AK: u32 = 0xc68dd929 ^ 0x78bdb6e9;
const GOOD_PROPS: u32 = 0xcd386d0f ^ 0x996f3a58;

fn obfuscate_props_byte(b: u8) -> u8 {
    (b ^ PROPS_XK).wrapping_add(PROPS_AK)
}

fn obfuscate_u32(v: u32, xk: u32, ak: u32) -> u32 {
    (v ^ xk).wrapping_add(ak)
}

/// The stored form of a header with the given plain field values.
fn stored_header(props: [u8; 5], reserved: [u8; 3], unpacked: u32, packed: u32) -> [u8; 16] {
    let mut out = [0u8; 16];
    for i in 0..5 {
        out[i] = obfuscate_props_byte(props[i]);
    }
    out[5..8].copy_from_slice(&reserved);
    out[8..12].copy_from_slice(&obfuscate_u32(unpacked, USIZE_XK, USIZE_AK).to_le_bytes());
    out[12..16].copy_from_slice(&obfuscate_u32(packed, CSIZE_XK, CSIZE_AK).to_le_bytes());
    out
}

#[test]
fn de_obfuscation_subtracts_then_undoes_the_xor() {
    // stored byte (0 XOR X) + A must decode to 0, and an all-zero stored
    // byte decodes to (0 - A) XOR X
    let stored = stored_header([0; 5], [0; 3], 0, 0);
    let h = TlzmaHeader::parse_header(&stored);
    assert_eq!(h.props, [0; 5]);
    assert_eq!(h.uncompressed_size, 0);
    assert_eq!(h.compressed_size, 0);

    let zeros = [0u8; 16];
    let h = TlzmaHeader::parse_header(&zeros);
    assert_eq!(h.props[0], 0u8.wrapping_sub(PROPS_AK) ^ PROPS_XK);
    assert_eq!(h.uncompressed_size, 0u32.wrapping_sub(USIZE_AK) ^ USIZE_XK);
    assert_eq!(h.compressed_size, 0u32.wrapping_sub(CSIZE_AK) ^ CSIZE_XK);
}

#[test]
fn parse_header_undoes_the_field_obfuscation() {
    let plain_props = [93, 0x00, 0x10, 0x00, 0x00];
    let stored = stored_header(plain_props, [7, 8, 9], 300, 123);
    let h = TlzmaHeader::parse_header(&stored);
    assert_eq!(h.props, plain_props);
    assert_eq!(h.reserved, [7, 8, 9]);
    assert_eq!(h.uncompressed_size, 300);
    assert_eq!(h.compressed_size, 123);
}

#[test]
fn obfuscation_round_trips_on_extreme_values() {
    for b in [0u8, 1, 0x7f, 0xff] {
        let h_in = [b; 16];
        let mut stored = [0u8; 16];
        for i in 0..5 {
            stored[i] = obfuscate_props_byte(h_in[i]);
        }
        let h = TlzmaHeader::parse_header(&stored);
        assert_eq!(h.props, [b; 5]);
    }
    for v in [0u32, 1, 0x8000_0000, u32::MAX] {
        let stored = stored_header([0; 5], [0; 3], v, v);
        let h = TlzmaHeader::parse_header(&stored);
        assert_eq!(h.uncompressed_size, v);
        assert_eq!(h.compressed_size, v);
    }
}

#[test]
fn arbitrary_bytes_are_not_a_valid_header() {
    let data = [0xABu8; 16];
    assert!(!TlzmaHeader::tlzma_test_header(&data).unwrap());
}

#[test]
fn stored_signature_bytes_make_a_valid_header() {
    let mut data = [0u8; 16];
    data[1..5].copy_from_slice(&GOOD_PROPS.to_le_bytes());
    assert!(TlzmaHeader::tlzma_test_header(&data).unwrap());
}

#[test]
fn properties_byte_decomposes_and_dictionary_clamps() {
    let h = TlzmaHeader {
        props: [0x5D, 0x00, 0x01, 0x00, 0x00],
        reserved: [0; 3],
        uncompressed_size: 10,
        compressed_size: 10,
    };
    let p = h.get_params_from_props().unwrap();
    assert_eq!(p.lc, 3);
    assert_eq!(p.lp, 0);
    assert_eq!(p.pb, 2);
    assert_eq!(p.dict_size, 4096);
    assert_eq!(p.unpacked_size, 10);
}

#[test]
fn properties_byte_at_the_limit_is_rejected() {
    let h = TlzmaHeader {
        props: [225, 0, 0, 0, 0],
        reserved: [0; 3],
        uncompressed_size: 4,
        compressed_size: 4,
    };
    match h.get_params_from_props() {
        Err(Error::PropsTooBig(v)) => assert_eq!(v, 225),
        _ => panic!("expected PropsTooBig"),
    }
    let input = vec![0u8; 64];
    match h.lzma_decode(&input, 0) {
        Err(Error::PropsTooBig(v)) => assert_eq!(v, 225),
        _ => panic!("expected PropsTooBig from lzma_decode"),
    }
}

#[test]
fn payload_past_buffer_end_is_out_of_bounds() {
    let h = TlzmaHeader {
        props: [93, 0, 0x10, 0, 0],
        reserved: [0; 3],
        uncompressed_size: 100,
        compressed_size: 100,
    };
    let input = vec![0u8; 32];
    match h.lzma_decode(&input, 0) {
        Err(Error::OutOfBounds) => {}
        _ => panic!("expected OutOfBounds"),
    }
}

#[test]
fn corrupt_stream_is_a_decompression_error() {
    let h = TlzmaHeader {
        props: [93, 0, 0x10, 0, 0],
        reserved: [0; 3],
        uncompressed_size: 64,
        compressed_size: 4,
    };
    let mut input = vec![0u8; 16];
    input.extend_from_slice(&[0xFF; 4]);
    match h.lzma_decode(&input, 0) {
        Err(Error::Lzma(_)) => {}
        other => panic!("expected Lzma error, got {:?}", other.map(|_| ())),
    }
}

/// A chunk whose payload really is LZMA data: compress a known payload,
/// strip the stream header, and decode it back through the chunk decoder.
#[test]
fn lzma_decode_round_trips_a_compressed_chunk() {
    let payload: Vec<u8> = (0..200u32).map(|i| (i % 7) as u8).collect();
    let mut compressed = Vec::new();
    lzma_rs::lzma_compress(&mut std::io::Cursor::new(&payload), &mut compressed).unwrap();
    // the stream header: one properties byte, a 4-byte dictionary size,
    // then an 8-byte unpacked size
    let props_byte = compressed[0];
    let dict = &compressed[1..5];
    let raw = &compressed[13..];

    let mut props = [0u8; 5];
    props[0] = props_byte;
    props[1..5].copy_from_slice(dict);
    let h = TlzmaHeader {
        props,
        reserved: [0; 3],
        uncompressed_size: payload.len() as u32,
        compressed_size: raw.len() as u32,
    };

    let mut input = vec![0u8; 16];
    input.extend_from_slice(raw);
    let (out, n) = h.lzma_decode(&input, 0).unwrap();
    assert_eq!(out, payload);
    assert_eq!(n, payload.len() as u32);
}

#[test]
fn next_chunk_offset_follows_a_stored_header() {
    let h = TlzmaHeader {
        props: [93, 0, 0x10, 0, 0],
        reserved: [0; 3],
        uncompressed_size: 50,
        compressed_size: 8,
    };
    // chunk at offset 4: header (16 bytes), payload (8 bytes), then a
    // window holding a genuine stored header
    let mut data = vec![0u8; 4 + 16 + 8 + 16];
    let tmp = 4 + 16 + 8;
    data[tmp + 1..tmp + 5].copy_from_slice(&GOOD_PROPS.to_le_bytes());
    assert_eq!(h.get_next_chunk_offset(4, &data).unwrap(), tmp);
}

#[test]
fn next_chunk_offset_falls_back_to_uncompressed_size() {
    let h = TlzmaHeader {
        props: [93, 0, 0x10, 0, 0],
        reserved: [0; 3],
        uncompressed_size: 50,
        compressed_size: 8,
    };
    let data = vec![0u8; 4 + 16 + 8 + 16];
    assert_eq!(h.get_next_chunk_offset(4, &data).unwrap(), 4 + 50);
}
