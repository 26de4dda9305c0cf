use vstd::prelude::*;

use lzma_rs::error::Error as LzmaRsError;

verus! {

/// One more than the largest packed LZMA properties byte.
pub const LZMA_PROP_MAX: u32 = 9 * 5 * 5;

/// The smallest dictionary size the decoder is given.
pub const LZMA_DIC_MIN: u32 = 1 << 12;

/// XOR and additive constants of the properties-bytes transform.
pub const PROPS_XK: u8 = 0x9d ^ 0xf3;

pub const PROPS_AK: u8 = 0x65 ^ 0xa2;

/// XOR and additive constants of the uncompressed-size transform.
pub const USIZE_XK: u32 = 0x218d5a0a ^ 0xab8832cb;

pub const USIZE_AK: u32 = 0x5e98c630 ^ 0x66e44294;

/// XOR and additive constants of the compressed-size transform.
pub const CSIZE_XK: u32 = 0x6dfc36ff ^ 0xfc4c53bf;

pub const CSIZE_AK: u32 = 0xc68dd929 ^ 0x78bdb6e9;

/// The stored form of the four signature bytes of a genuine chunk header.
pub const GOOD_PROPS: u32 = 0xcd386d0f ^ 0x996f3a58;

/// The size of a stored chunk header in bytes.
pub const TLZMA_HEADER_LEN: usize = 16;

/// An outside type carried in this module's error values.
#[verifier::external_type_specification]
#[verifier::external_body]
pub struct ExLzmaError(LzmaRsError);

/// Why decoding a chunk failed.
#[derive(Debug)]
pub enum Error {
    /// The underlying LZMA stream is corrupt, as the decoder reported it.
    Lzma(LzmaRsError),
    /// The packed properties byte is out of range.
    PropsTooBig(u32),
    /// The chunk's compressed payload reaches past the buffer's end.
    OutOfBounds,
}

/// De-obfuscate one stored properties byte: the stored form is
/// `(plain XOR X) + A`, so decoding subtracts `A` and undoes the XOR.
pub open spec fn deob_props_byte(b: u8) -> u8 {
    let t = b - PROPS_AK;
    (if t < 0 {
        (t + 256) as u8
    } else {
        t as u8
    }) ^ PROPS_XK
}

/// Obfuscate one properties byte into its stored form
/// `(plain XOR X) + A`.
pub open spec fn ob_props_byte(b: u8) -> u8 {
    let t = (b ^ PROPS_XK) + PROPS_AK;
    if t > 255 {
        (t - 256) as u8
    } else {
        t as u8
    }
}

/// De-obfuscate a stored size field with the given field constants:
/// the stored form is `(plain XOR X) + A`, decoded as
/// `(stored - A) XOR X`.
pub open spec fn deob_u32(v: u32, xk: u32, ak: u32) -> u32 {
    let t = v - ak;
    (if t < 0 {
        (t + 0x100000000) as u32
    } else {
        t as u32
    }) ^ xk
}

/// Obfuscate a size field into its stored form `(plain XOR X) + A`.
pub open spec fn ob_u32(v: u32, xk: u32, ak: u32) -> u32 {
    let t = (v ^ xk) + ak;
    if t > u32::MAX {
        (t - 0x100000000) as u32
    } else {
        t as u32
    }
}

/// The little-endian 32-bit value of four bytes.
pub open spec fn le32(b0: u8, b1: u8, b2: u8, b3: u8) -> u32 {
    (b0 + b1 * 0x100 + b2 * 0x10000 + b3 * 0x1000000) as u32
}

/// A genuine chunk header starts at `off`: the four stored signature
/// bytes there hold the fixed constant.
pub open spec fn valid_header_at(d: Seq<u8>, off: int) -> bool {
    le32(d[off + 1], d[off + 2], d[off + 3], d[off + 4]) == GOOD_PROPS
}

/// Obfuscation round trip for the properties-byte transform:
/// de-obfuscating the stored form gives the byte back, and storing a
/// de-obfuscated byte gives the stored form back.
pub proof fn lemma_props_byte_round_trip(b: u8)
    ensures
        deob_props_byte(ob_props_byte(b)) == b,
        ob_props_byte(deob_props_byte(b)) == b,
{
    lemma_xor_cancel_u8(b, PROPS_XK);
    assert(deob_props_byte(ob_props_byte(b)) == b);
    let t = b - PROPS_AK;
    let x = if t < 0 {
        (t + 256) as u8
    } else {
        t as u8
    };
    lemma_xor_cancel_u8(x, PROPS_XK);
    assert(ob_props_byte(deob_props_byte(b)) == b);
}

proof fn lemma_xor_cancel_u8(x: u8, k: u8)
    ensures
        (x ^ k) ^ k == x,
{
    assert((x ^ k) ^ k == x) by (bit_vector);
}

proof fn lemma_xor_cancel_u32(x: u32, k: u32)
    ensures
        (x ^ k) ^ k == x,
{
    assert((x ^ k) ^ k == x) by (bit_vector);
}

/// Obfuscation round trip for a size-field transform: the same pair of
/// constants undoes itself; the uncompressed-size and compressed-size
/// transforms are the instances with their field constants.
pub proof fn lemma_size_field_round_trip(v: u32, xk: u32, ak: u32)
    ensures
        deob_u32(ob_u32(v, xk, ak), xk, ak) == v,
        ob_u32(deob_u32(v, xk, ak), xk, ak) == v,
{
    lemma_xor_cancel_u32(v, xk);
    assert(deob_u32(ob_u32(v, xk, ak), xk, ak) == v);
    let t = v - ak;
    let x = if t < 0 {
        (t + 0x100000000) as u32
    } else {
        t as u32
    };
    lemma_xor_cancel_u32(x, xk);
    assert(ob_u32(deob_u32(v, xk, ak), xk, ak) == v);
}

/// A chunk header, as read back out of its obfuscated stored form:
/// LZMA properties and dictionary size packed in five bytes, three
/// reserved bytes, then the chunk's uncompressed and compressed sizes.
#[derive(Debug)]
pub struct TlzmaHeader {
    pub props: [u8; 5],
    pub reserved: [u8; 3],
    pub uncompressed_size: u32,
    pub compressed_size: u32,
}

/// The decompression parameters a header's properties denote.
pub struct ChunkParams {
    pub lc: u32,
    pub lp: u32,
    pub pb: u32,
    pub dict_size: u32,
    pub unpacked_size: u32,
}

/// Literal context bits: the packed byte modulo 9.
pub open spec fn props_lc(p: u8) -> u32 {
    ((p as int) % 9) as u32
}

/// Literal position bits: the packed byte over 9, modulo 5.
pub open spec fn props_lp(p: u8) -> u32 {
    (((p as int) / 9) % 5) as u32
}

/// Position bits: the packed byte over 9, then over 5.
pub open spec fn props_pb(p: u8) -> u32 {
    (((p as int) / 9) / 5) as u32
}

/// The dictionary size, floored to the minimum.
pub open spec fn clamped_dict(d: u32) -> u32 {
    if d < LZMA_DIC_MIN {
        LZMA_DIC_MIN
    } else {
        d
    }
}

/// What raw LZMA decompression returns for given parameters and input.
/// Relied upon only through the decompression call below.
pub uninterp spec fn lzma_output_of(
    lc: u32,
    lp: u32,
    pb: u32,
    dict_size: u32,
    unpacked_size: u32,
    data: Seq<u8>,
) -> Seq<u8>;

/// Whether raw LZMA decompression succeeds for given parameters and
/// input. Relied upon only through the decompression call below.
pub uninterp spec fn lzma_ok_of(
    lc: u32,
    lp: u32,
    pb: u32,
    dict_size: u32,
    unpacked_size: u32,
    data: Seq<u8>,
) -> bool;

/// Relies on lzma_rs::decompress::raw::LzmaDecoder::decompress: raw LZMA
/// decoding, with the memory limit left unbounded, is a function of the
/// parameters and the input bytes alone — both whether it succeeds and
/// what it writes. The decoder asserts lc <= 8, lp <= 4 and pb <= 4 when
/// built, and its window buffer takes remainders by the dictionary size,
/// so that size must be at least one.
#[verifier::external_body]
fn lzma_decompress(
    lc: u32,
    lp: u32,
    pb: u32,
    dict_size: u32,
    unpacked_size: u32,
    input: &[u8],
) -> (r: Result<Vec<u8>, LzmaRsError>)
    requires
        lc <= 8,
        lp <= 4,
        pb <= 4,
        dict_size >= 1,
    ensures
        r is Ok <==> lzma_ok_of(lc, lp, pb, dict_size, unpacked_size, input@),
        r matches Ok(out) ==> out@ == lzma_output_of(lc, lp, pb, dict_size, unpacked_size, input@),
{
    let props = lzma_rs::decompress::raw::LzmaProperties { lc, lp, pb };
    let params = lzma_rs::decompress::raw::LzmaParams::new(
        props,
        dict_size,
        Some(unpacked_size as u64),
    );
    let mut decoder = lzma_rs::decompress::raw::LzmaDecoder::new(params, None)?;
    let mut cursor = std::io::Cursor::new(input);
    let mut output: Vec<u8> = Vec::with_capacity(unpacked_size as usize);
    decoder.decompress(&mut cursor, &mut output)?;
    Ok(output)
}

fn deob_byte(b: u8) -> (r: u8)
    ensures
        r == deob_props_byte(b),
{
    b.wrapping_sub(PROPS_AK) ^ PROPS_XK
}

fn u32_le(b0: u8, b1: u8, b2: u8, b3: u8) -> (r: u32)
    ensures
        r == le32(b0, b1, b2, b3),
{
    b0 as u32 + b1 as u32 * 0x100 + b2 as u32 * 0x10000 + b3 as u32 * 0x1000000
}

impl TlzmaHeader {
    /// Peek at a header-sized window without consuming it: does a genuine
    /// chunk header start here? The stored signature bytes are compared
    /// directly against their known stored form.
    pub fn tlzma_test_header(data: &[u8]) -> (r: Result<bool, Error>)
        requires
            data@.len() >= 16,
        ensures
            r matches Ok(b) && b == valid_header_at(data@, 0),
    {
        let sig = u32_le(data[1], data[2], data[3], data[4]);
        Ok(sig == GOOD_PROPS)
    }

    /// De-obfuscate a stored chunk header, field by field.
    pub fn parse_header(data: &[u8]) -> (h: TlzmaHeader)
        requires
            data@.len() >= 16,
        ensures
            forall|i: int| 0 <= i < 5 ==> h.props@[i] == deob_props_byte(data@[i]),
            h.reserved@[0] == data@[5],
            h.reserved@[1] == data@[6],
            h.reserved@[2] == data@[7],
            h.uncompressed_size == deob_u32(
                le32(data@[8], data@[9], data@[10], data@[11]),
                USIZE_XK,
                USIZE_AK,
            ),
            h.compressed_size == deob_u32(
                le32(data@[12], data@[13], data@[14], data@[15]),
                CSIZE_XK,
                CSIZE_AK,
            ),
    {
        let props = [
            deob_byte(data[0]),
            deob_byte(data[1]),
            deob_byte(data[2]),
            deob_byte(data[3]),
            deob_byte(data[4]),
        ];
        let reserved = [data[5], data[6], data[7]];
        let uncompressed_size = u32_le(data[8], data[9], data[10], data[11]).wrapping_sub(
            USIZE_AK,
        ) ^ USIZE_XK;
        let compressed_size = u32_le(data[12], data[13], data[14], data[15]).wrapping_sub(
            CSIZE_AK,
        ) ^ CSIZE_XK;
        TlzmaHeader { props, reserved, uncompressed_size, compressed_size }
    }

    /// The decompression parameters this header's properties denote, or
    /// an error when the packed byte is out of range.
    pub fn get_params_from_props(&self) -> (r: Result<ChunkParams, Error>)
        ensures
            self.props@[0] as int >= LZMA_PROP_MAX ==> (r matches Err(Error::PropsTooBig(v)) && v
                == self.props@[0] as u32),
            (self.props@[0] as int) < LZMA_PROP_MAX ==> (r matches Ok(p) && p.lc == props_lc(
                self.props@[0],
            ) && p.lp == props_lp(self.props@[0]) && p.pb == props_pb(self.props@[0]) && p.dict_size
                == clamped_dict(le32(self.props@[1], self.props@[2], self.props@[3], self.props@[4]))
                && p.unpacked_size == self.uncompressed_size),
    {
        let mut pb = self.props[0] as u32;
        if pb >= LZMA_PROP_MAX {
            return Err(Error::PropsTooBig(pb));
        }
        let mut dic = u32_le(self.props[1], self.props[2], self.props[3], self.props[4]);
        if dic < LZMA_DIC_MIN {
            dic = LZMA_DIC_MIN;
        }
        let lc: u32 = pb % 9;
        pb = pb / 9;
        let lp: u32 = pb % 5;
        pb = pb / 5;
        Ok(
            ChunkParams {
                lc,
                lp,
                pb,
                dict_size: dic,
                unpacked_size: self.uncompressed_size,
            },
        )
    }

    /// Where the next chunk starts: just past this chunk's compressed
    /// payload when a genuine header is stored there; otherwise, as a
    /// best-effort fallback, this chunk's offset plus its uncompressed
    /// size. The caller must leave a header-sized window to peek at.
    pub fn get_next_chunk_offset(&self, offset: usize, data: &[u8]) -> (r: Result<usize, Error>)
        requires
            offset + 16 + self.compressed_size + 16 <= data@.len(),
            offset + self.uncompressed_size <= usize::MAX,
        ensures
            r matches Ok(o) && o as int == ({
                let tmp = offset + 16 + self.compressed_size;
                if valid_header_at(data@, tmp) {
                    tmp
                } else {
                    offset + self.uncompressed_size
                }
            }),
    {
        let dlen = data.len();
        proof {
            assert(offset + 16 + self.compressed_size + 16 <= dlen);
        }
        let tmp = offset + TLZMA_HEADER_LEN + self.compressed_size as usize;
        let window = vstd::slice::slice_subrange(data, tmp, tmp + 16);
        proof {
            assert(window@[1] == data@[tmp + 1]);
            assert(window@[2] == data@[tmp + 2]);
            assert(window@[3] == data@[tmp + 3]);
            assert(window@[4] == data@[tmp + 4]);
        }
        match Self::tlzma_test_header(window) {
            Ok(true) => Ok(tmp),
            Ok(false) => Ok(offset + self.uncompressed_size as usize),
            Err(e) => Err(e),
        }
    }

    /// Decompress this chunk's payload, which starts one header past
    /// `offset` and is `compressed_size` bytes long, into a buffer of
    /// `uncompressed_size` bytes. A packed properties byte out of range
    /// fails before any decompression is attempted.
    pub fn lzma_decode(&self, input: &[u8], offset: usize) -> (r: Result<(Vec<u8>, u32), Error>)
        ensures
            self.props@[0] as int >= LZMA_PROP_MAX ==> (r matches Err(Error::PropsTooBig(v)) && v
                == self.props@[0] as u32),
            (self.props@[0] as int) < LZMA_PROP_MAX && offset + 16 + self.compressed_size
                > input@.len() ==> r matches Err(Error::OutOfBounds),
            (self.props@[0] as int) < LZMA_PROP_MAX && offset + 16 + self.compressed_size
                <= input@.len() ==> ({
                let lc = props_lc(self.props@[0]);
                let lp = props_lp(self.props@[0]);
                let pb = props_pb(self.props@[0]);
                let dict = clamped_dict(
                    le32(self.props@[1], self.props@[2], self.props@[3], self.props@[4]),
                );
                let window = input@.subrange(offset + 16, offset + 16 + self.compressed_size);
                &&& (r is Ok <==> lzma_ok_of(lc, lp, pb, dict, self.uncompressed_size, window))
                &&& (r matches Ok(p) ==> p.0@ == lzma_output_of(
                    lc,
                    lp,
                    pb,
                    dict,
                    self.uncompressed_size,
                    window,
                ) && p.1 == self.uncompressed_size)
                &&& (!lzma_ok_of(lc, lp, pb, dict, self.uncompressed_size, window) ==> r matches Err(
                    Error::Lzma(_),
                ))
            }),
    {
        let params = match self.get_params_from_props() {
            Ok(p) => p,
            Err(e) => {
                return Err(e);
            },
        };
        let len = input.len();
        if len < TLZMA_HEADER_LEN || offset > len - TLZMA_HEADER_LEN || (self.compressed_size
            as u64) > ((len - TLZMA_HEADER_LEN - offset) as u64) {
            return Err(Error::OutOfBounds);
        }
        let start = offset + TLZMA_HEADER_LEN;
        let end = start + self.compressed_size as usize;
        let window = vstd::slice::slice_subrange(input, start, end);
        proof {
            assert(1u32 << 12u32 == 4096u32) by (bit_vector);
            assert(params.dict_size >= LZMA_DIC_MIN);
        }
        match lzma_decompress(
            params.lc,
            params.lp,
            params.pb,
            params.dict_size,
            params.unpacked_size,
            window,
        ) {
            Ok(out) => Ok((out, self.uncompressed_size)),
            Err(e) => Err(Error::Lzma(e)),
        }
    }
}

} // verus!
