//! Reading back what writing stores: the bytes a header is written as
//! parse back to the header, and a valid BMP written out reads back as
//! itself.
use vstd::prelude::*;
use crate::raw::le::{
    lemma_i32_roundtrip, lemma_u16_roundtrip, lemma_u32_roundtrip, spec_i32_at, spec_i32_le, spec_u16_at,
    spec_u16_le, spec_u32_at, spec_u32_le,
};
use crate::raw::headers::{
    spec_cie_xyz_at, spec_cie_xyz_bytes, BitmapCoreHeader, BitmapHeader, BitmapInfoHeader, BitmapV4Header,
    BitmapV5Header, FileHeader,
};
use crate::raw::masks::RgbMasks;
use crate::raw::types::{FixedPoint16Dot16, FixedPoint2Dot30, RgbQuad, RgbTriple};
use crate::raw::bmp::{
    lemma_file_header_at_unique, lemma_header_at_unique, spec_file_header_of, spec_header_of, spec_icc,
    spec_read_body_outcome, spec_read_outcome, spec_read_result, spec_table_pos, MAX_COLOR_TABLE_ENTRIES,
    spec_entry_size, spec_mask_block_len, spec_min_pixel_offset, spec_pixel_end, spec_validate_info_masks,
    spec_validate_pixel_data_size, Bmp, MAX_ICC_PROFILE_BYTES, MAX_PIXEL_BYTES, spec_pad, spec_quads_at, spec_quads_bytes, spec_triples_at, spec_triples_bytes, spec_write_at,
};

verus! {

/// Bytes `o..o + f.len()` of `b` stored at `p` lie at `p + o`.
proof fn lemma_piece(s: Seq<u8>, p: int, b: Seq<u8>, o: int, f: Seq<u8>)
    requires
        0 <= p,
        p + b.len() <= s.len(),
        s.subrange(p, p + b.len()) == b,
        0 <= o,
        o + f.len() <= b.len(),
        b.subrange(o, o + f.len()) == f,
    ensures
        s.subrange(p + o, p + o + f.len()) == f,
{
    assert forall|k: int| 0 <= k < f.len() implies s.subrange(p + o, p + o + f.len())[k] == f[k] by {
        assert(s.subrange(p, p + b.len())[o + k] == b[o + k]);
        assert(b.subrange(o, o + f.len())[k] == b[o + k]);
    }
    assert(s.subrange(p + o, p + o + f.len()) =~= f);
}

/// A `u32` reads back from its little-endian bytes.
proof fn lemma_u32_at(s: Seq<u8>, p: int, n: u32)
    requires
        0 <= p,
        p + 4 <= s.len(),
        s.subrange(p, p + 4) == spec_u32_le(n),
    ensures
        spec_u32_at(s, p) == n,
{
    lemma_u32_roundtrip(n);
    assert(s[p] == s.subrange(p, p + 4)[0]);
    assert(s[p + 1] == s.subrange(p, p + 4)[1]);
    assert(s[p + 2] == s.subrange(p, p + 4)[2]);
    assert(s[p + 3] == s.subrange(p, p + 4)[3]);
}

/// A `u16` reads back from its little-endian bytes.
proof fn lemma_u16_at(s: Seq<u8>, p: int, n: u16)
    requires
        0 <= p,
        p + 2 <= s.len(),
        s.subrange(p, p + 2) == spec_u16_le(n),
    ensures
        spec_u16_at(s, p) == n,
{
    lemma_u16_roundtrip(n);
    assert(s[p] == s.subrange(p, p + 2)[0]);
    assert(s[p + 1] == s.subrange(p, p + 2)[1]);
}

/// An `i32` reads back from its little-endian bytes.
proof fn lemma_i32_at(s: Seq<u8>, p: int, n: i32)
    requires
        0 <= p,
        p + 4 <= s.len(),
        s.subrange(p, p + 4) == spec_i32_le(n),
    ensures
        spec_i32_at(s, p) == n,
{
    lemma_i32_roundtrip(n);
    lemma_u32_at(s, p, n as u32);
}

/// A `u32` field at offset `o` of bytes `b` stored at `p` reads back.
proof fn lemma_u32_field(s: Seq<u8>, p: int, b: Seq<u8>, o: int, n: u32)
    requires
        0 <= p,
        p + b.len() <= s.len(),
        s.subrange(p, p + b.len()) == b,
        0 <= o,
        o + 4 <= b.len(),
        b.subrange(o, o + 4) == spec_u32_le(n),
    ensures
        spec_u32_at(s, p + o) == n,
{
    lemma_piece(s, p, b, o, spec_u32_le(n));
    lemma_u32_at(s, p + o, n);
}

/// A `u16` field at offset `o` of bytes `b` stored at `p` reads back.
proof fn lemma_u16_field(s: Seq<u8>, p: int, b: Seq<u8>, o: int, n: u16)
    requires
        0 <= p,
        p + b.len() <= s.len(),
        s.subrange(p, p + b.len()) == b,
        0 <= o,
        o + 2 <= b.len(),
        b.subrange(o, o + 2) == spec_u16_le(n),
    ensures
        spec_u16_at(s, p + o) == n,
{
    lemma_piece(s, p, b, o, spec_u16_le(n));
    lemma_u16_at(s, p + o, n);
}

/// An `i32` field at offset `o` of bytes `b` stored at `p` reads back.
proof fn lemma_i32_field(s: Seq<u8>, p: int, b: Seq<u8>, o: int, n: i32)
    requires
        0 <= p,
        p + b.len() <= s.len(),
        s.subrange(p, p + b.len()) == b,
        0 <= o,
        o + 4 <= b.len(),
        b.subrange(o, o + 4) == spec_i32_le(n),
    ensures
        spec_i32_at(s, p + o) == n,
{
    lemma_piece(s, p, b, o, spec_i32_le(n));
    lemma_i32_at(s, p + o, n);
}

/// The stored file header parses back.
pub proof fn lemma_file_header_bytes_at(h: FileHeader, s: Seq<u8>, p: int)
    requires
        0 <= p,
        p + 14 <= s.len(),
        s.subrange(p, p + 14) == h.spec_bytes(),
    ensures
        h.spec_at(s, p),
{
    let b = h.spec_bytes();
    assert(b.len() == 14);
    assert(b.subrange(0, 2) =~= h.signature@);
    lemma_piece(s, p, b, 0, h.signature@);
    assert(b.subrange(2, 6) =~= spec_u32_le(h.file_size));
    lemma_u32_field(s, p, b, 2, h.file_size);
    assert(b.subrange(6, 8) =~= h.reserved_1@);
    lemma_piece(s, p, b, 6, h.reserved_1@);
    assert(b.subrange(8, 10) =~= h.reserved_2@);
    lemma_piece(s, p, b, 8, h.reserved_2@);
    assert(b.subrange(10, 14) =~= spec_u32_le(h.pixel_data_offset));
    lemma_u32_field(s, p, b, 10, h.pixel_data_offset);
}

/// The stored CORE header body parses back.
proof fn lemma_core_bytes_at(h: BitmapCoreHeader, s: Seq<u8>, p: int)
    requires
        0 <= p,
        p + 8 <= s.len(),
        s.subrange(p, p + 8) == h.spec_bytes(),
        !(h.bit_count is Other),
    ensures
        h.spec_at(s, p),
{
    let b = h.spec_bytes();
    assert(b.len() == 8);
    assert(b.subrange(0, 2) =~= spec_u16_le(h.width));
    lemma_u16_field(s, p, b, 0, h.width);
    assert(b.subrange(2, 4) =~= spec_u16_le(h.height));
    lemma_u16_field(s, p, b, 2, h.height);
    assert(b.subrange(4, 6) =~= spec_u16_le(h.planes));
    lemma_u16_field(s, p, b, 4, h.planes);
    assert(b.subrange(6, 8) =~= spec_u16_le(h.bit_count.spec_bit_count()));
    lemma_u16_field(s, p, b, 6, h.bit_count.spec_bit_count());
}

/// The stored INFO header body parses back.
proof fn lemma_info_bytes_at(h: BitmapInfoHeader, s: Seq<u8>, p: int)
    requires
        0 <= p,
        p + 36 <= s.len(),
        s.subrange(p, p + 36) == h.spec_bytes(),
        !(h.bit_count is Other),
        !(h.compression is Other),
    ensures
        h.spec_at(s, p),
{
    let b = h.spec_bytes();
    assert(b.len() == 36);
    assert(b.subrange(0, 4) =~= spec_i32_le(h.width));
    lemma_i32_field(s, p, b, 0, h.width);
    assert(b.subrange(4, 8) =~= spec_i32_le(h.height));
    lemma_i32_field(s, p, b, 4, h.height);
    assert(b.subrange(8, 10) =~= spec_u16_le(h.planes));
    lemma_u16_field(s, p, b, 8, h.planes);
    assert(b.subrange(10, 12) =~= spec_u16_le(h.bit_count.spec_bit_count()));
    lemma_u16_field(s, p, b, 10, h.bit_count.spec_bit_count());
    assert(b.subrange(12, 16) =~= spec_u32_le(h.compression.spec_value()));
    lemma_u32_field(s, p, b, 12, h.compression.spec_value());
    assert(b.subrange(16, 20) =~= spec_u32_le(h.image_size));
    lemma_u32_field(s, p, b, 16, h.image_size);
    assert(b.subrange(20, 24) =~= spec_i32_le(h.x_resolution_ppm));
    lemma_i32_field(s, p, b, 20, h.x_resolution_ppm);
    assert(b.subrange(24, 28) =~= spec_i32_le(h.y_resolution_ppm));
    lemma_i32_field(s, p, b, 24, h.y_resolution_ppm);
    assert(b.subrange(28, 32) =~= spec_u32_le(h.colors_used));
    lemma_u32_field(s, p, b, 28, h.colors_used);
    assert(b.subrange(32, 36) =~= spec_u32_le(h.colors_important));
    lemma_u32_field(s, p, b, 32, h.colors_important);
}


/// A stored CIE XYZ endpoint parses back.
proof fn lemma_cie_field(s: Seq<u8>, p: int, b: Seq<u8>, o: int, c: crate::raw::types::CieXyz)
    requires
        0 <= p,
        p + b.len() <= s.len(),
        s.subrange(p, p + b.len()) == b,
        0 <= o,
        o + 12 <= b.len(),
        b.subrange(o, o + 12) == spec_cie_xyz_bytes(c),
    ensures
        spec_cie_xyz_at(c, s, p + o),
{
    broadcast use FixedPoint2Dot30::lemma_from_raw_of_raw;

    let f = spec_cie_xyz_bytes(c);
    assert(f.subrange(0, 4) =~= spec_u32_le(c.x.spec_raw()));
    assert(f.subrange(4, 8) =~= spec_u32_le(c.y.spec_raw()));
    assert(f.subrange(8, 12) =~= spec_u32_le(c.z.spec_raw()));
    assert(b.subrange(o, o + 4) =~= f.subrange(0, 4));
    assert(b.subrange(o + 4, o + 8) =~= f.subrange(4, 8));
    assert(b.subrange(o + 8, o + 12) =~= f.subrange(8, 12));
    lemma_u32_field(s, p, b, o, c.x.spec_raw());
    lemma_u32_field(s, p, b, o + 4, c.y.spec_raw());
    lemma_u32_field(s, p, b, o + 8, c.z.spec_raw());
}

/// The stored V4 header body parses back.
proof fn lemma_v4_bytes_at(h: BitmapV4Header, s: Seq<u8>, p: int)
    requires
        0 <= p,
        p + 104 <= s.len(),
        s.subrange(p, p + 104) == h.spec_bytes(),
        !(h.info.bit_count is Other),
        !(h.info.compression is Other),
        !(h.cs_type is Other),
    ensures
        h.spec_at(s, p),
{
    broadcast use FixedPoint16Dot16::lemma_from_raw_of_raw;

    let b = h.spec_bytes();
    assert(b.len() == 104);
    assert(b.subrange(0, 36) =~= h.info.spec_bytes());
    lemma_piece(s, p, b, 0, h.info.spec_bytes());
    lemma_info_bytes_at(h.info, s, p);
    assert(b.subrange(36, 40) =~= spec_u32_le(h.masks.red_mask));
    lemma_u32_field(s, p, b, 36, h.masks.red_mask);
    assert(b.subrange(40, 44) =~= spec_u32_le(h.masks.green_mask));
    lemma_u32_field(s, p, b, 40, h.masks.green_mask);
    assert(b.subrange(44, 48) =~= spec_u32_le(h.masks.blue_mask));
    lemma_u32_field(s, p, b, 44, h.masks.blue_mask);
    assert(b.subrange(48, 52) =~= spec_u32_le(h.masks.alpha_mask));
    lemma_u32_field(s, p, b, 48, h.masks.alpha_mask);
    assert(b.subrange(52, 56) =~= spec_u32_le(h.cs_type.spec_value()));
    lemma_u32_field(s, p, b, 52, h.cs_type.spec_value());
    assert(b.subrange(56, 68) =~= spec_cie_xyz_bytes(h.endpoints.red));
    lemma_cie_field(s, p, b, 56, h.endpoints.red);
    assert(b.subrange(68, 80) =~= spec_cie_xyz_bytes(h.endpoints.green));
    lemma_cie_field(s, p, b, 68, h.endpoints.green);
    assert(b.subrange(80, 92) =~= spec_cie_xyz_bytes(h.endpoints.blue));
    lemma_cie_field(s, p, b, 80, h.endpoints.blue);
    assert(b.subrange(92, 96) =~= spec_u32_le(h.gamma.red.spec_raw()));
    lemma_u32_field(s, p, b, 92, h.gamma.red.spec_raw());
    assert(b.subrange(96, 100) =~= spec_u32_le(h.gamma.green.spec_raw()));
    lemma_u32_field(s, p, b, 96, h.gamma.green.spec_raw());
    assert(b.subrange(100, 104) =~= spec_u32_le(h.gamma.blue.spec_raw()));
    lemma_u32_field(s, p, b, 100, h.gamma.blue.spec_raw());
}

/// The stored V5 header body parses back.
proof fn lemma_v5_bytes_at(h: BitmapV5Header, s: Seq<u8>, p: int)
    requires
        0 <= p,
        p + 120 <= s.len(),
        s.subrange(p, p + 120) == h.spec_bytes(),
        !(h.v4.info.bit_count is Other),
        !(h.v4.info.compression is Other),
        !(h.v4.cs_type is Other),
    ensures
        h.spec_at(s, p),
{
    let b = h.spec_bytes();
    assert(b.len() == 120);
    assert(b.subrange(0, 104) =~= h.v4.spec_bytes());
    lemma_piece(s, p, b, 0, h.v4.spec_bytes());
    lemma_v4_bytes_at(h.v4, s, p);
    assert(b.subrange(104, 108) =~= spec_u32_le(h.intent));
    lemma_u32_field(s, p, b, 104, h.intent);
    assert(b.subrange(108, 112) =~= spec_u32_le(h.profile_data));
    lemma_u32_field(s, p, b, 108, h.profile_data);
    assert(b.subrange(112, 116) =~= spec_u32_le(h.profile_size));
    lemma_u32_field(s, p, b, 112, h.profile_size);
    assert(b.subrange(116, 120) =~= h.reserved@);
    lemma_piece(s, p, b, 116, h.reserved@);
}

/// The header generation's raw values are the known ones.
pub open spec fn spec_canonical_header(h: BitmapHeader) -> bool {
    match h {
        BitmapHeader::Core(c) => !(c.bit_count is Other),
        BitmapHeader::Info(i) => !(i.bit_count is Other) && !(i.compression is Other),
        BitmapHeader::V4(v) => !(v.info.bit_count is Other) && !(v.info.compression is Other) && !(
        v.cs_type is Other),
        BitmapHeader::V5(v) => !(v.v4.info.bit_count is Other) && !(v.v4.info.compression is Other) && !(
        v.v4.cs_type is Other),
    }
}

/// A stored DIB header, size field first, parses back.
pub proof fn lemma_header_bytes_at(h: BitmapHeader, s: Seq<u8>, p: int)
    requires
        0 <= p,
        p + h.spec_size() <= s.len(),
        s.subrange(p, p + h.spec_size()) == h.spec_bytes(),
        spec_canonical_header(h),
    ensures
        h.spec_at(s, p),
{
    let b = h.spec_bytes();
    let n = h.spec_size() as int;
    assert(b.len() == n);
    assert(b.subrange(0, 4) =~= spec_u32_le(h.spec_size()));
    lemma_u32_field(s, p, b, 0, h.spec_size());
    match h {
        BitmapHeader::Core(c) => {
            assert(b.subrange(4, 12) =~= c.spec_bytes());
            lemma_piece(s, p, b, 4, c.spec_bytes());
            lemma_core_bytes_at(c, s, p + 4);
        },
        BitmapHeader::Info(i) => {
            assert(b.subrange(4, 40) =~= i.spec_bytes());
            lemma_piece(s, p, b, 4, i.spec_bytes());
            lemma_info_bytes_at(i, s, p + 4);
        },
        BitmapHeader::V4(v) => {
            assert(b.subrange(4, 108) =~= v.spec_bytes());
            lemma_piece(s, p, b, 4, v.spec_bytes());
            lemma_v4_bytes_at(v, s, p + 4);
        },
        BitmapHeader::V5(v) => {
            assert(b.subrange(4, 124) =~= v.spec_bytes());
            lemma_piece(s, p, b, 4, v.spec_bytes());
            lemma_v5_bytes_at(v, s, p + 4);
        },
    }
}

/// A CORE color table's bytes hold each entry blue, green, red.
proof fn lemma_triples_bytes(t: Seq<RgbTriple>)
    ensures
        spec_triples_bytes(t).len() == 3 * t.len(),
        forall|i: int|
            0 <= i < t.len() ==> {
                &&& #[trigger] spec_triples_bytes(t)[3 * i] == t[i].blue
                &&& spec_triples_bytes(t)[3 * i + 1] == t[i].green
                &&& spec_triples_bytes(t)[3 * i + 2] == t[i].red
            },
    decreases t.len(),
{
    if t.len() > 0 {
        lemma_triples_bytes(t.drop_last());
        let n = t.len() - 1;
        assert forall|i: int| 0 <= i < t.len() implies {
            &&& #[trigger] spec_triples_bytes(t)[3 * i] == t[i].blue
            &&& spec_triples_bytes(t)[3 * i + 1] == t[i].green
            &&& spec_triples_bytes(t)[3 * i + 2] == t[i].red
        } by {
            if i < n {
                assert(spec_triples_bytes(t.drop_last())[3 * i] == t.drop_last()[i].blue);
            }
        }
    }
}

/// An INFO-or-later color table's bytes hold each entry blue, green, red,
/// reserved.
proof fn lemma_quads_bytes(t: Seq<RgbQuad>)
    ensures
        spec_quads_bytes(t).len() == 4 * t.len(),
        forall|i: int|
            0 <= i < t.len() ==> {
                &&& #[trigger] spec_quads_bytes(t)[4 * i] == t[i].blue
                &&& spec_quads_bytes(t)[4 * i + 1] == t[i].green
                &&& spec_quads_bytes(t)[4 * i + 2] == t[i].red
                &&& spec_quads_bytes(t)[4 * i + 3] == t[i].reserved
            },
    decreases t.len(),
{
    if t.len() > 0 {
        lemma_quads_bytes(t.drop_last());
        let n = t.len() - 1;
        assert forall|i: int| 0 <= i < t.len() implies {
            &&& #[trigger] spec_quads_bytes(t)[4 * i] == t[i].blue
            &&& spec_quads_bytes(t)[4 * i + 1] == t[i].green
            &&& spec_quads_bytes(t)[4 * i + 2] == t[i].red
            &&& spec_quads_bytes(t)[4 * i + 3] == t[i].reserved
        } by {
            if i < n {
                assert(spec_quads_bytes(t.drop_last())[4 * i] == t.drop_last()[i].blue);
            }
        }
    }
}

/// A stored CORE color table reads back.
proof fn lemma_triples_read(s: Seq<u8>, q: int, t: Seq<RgbTriple>)
    requires
        0 <= q,
        q + 3 * t.len() <= s.len(),
        s.subrange(q, q + 3 * t.len()) == spec_triples_bytes(t),
    ensures
        spec_triples_at(s, q, t.len() as int) == t,
{
    lemma_triples_bytes(t);
    let r = spec_triples_at(s, q, t.len() as int);
    assert forall|i: int| 0 <= i < t.len() implies r[i] == t[i] by {
        let b = spec_triples_bytes(t);
        assert(b[3 * i] == t[i].blue);
        assert(s.subrange(q, q + 3 * t.len())[3 * i] == s[q + 3 * i]);
        assert(s.subrange(q, q + 3 * t.len())[3 * i + 1] == s[q + 3 * i + 1]);
        assert(s.subrange(q, q + 3 * t.len())[3 * i + 2] == s[q + 3 * i + 2]);
    }
    assert(r =~= t);
}

/// A stored INFO-or-later color table reads back.
proof fn lemma_quads_read(s: Seq<u8>, q: int, t: Seq<RgbQuad>)
    requires
        0 <= q,
        q + 4 * t.len() <= s.len(),
        s.subrange(q, q + 4 * t.len()) == spec_quads_bytes(t),
    ensures
        spec_quads_at(s, q, t.len() as int) == t,
{
    lemma_quads_bytes(t);
    let r = spec_quads_at(s, q, t.len() as int);
    assert forall|i: int| 0 <= i < t.len() implies r[i] == t[i] by {
        let b = spec_quads_bytes(t);
        assert(b[4 * i] == t[i].blue);
        assert(s.subrange(q, q + 4 * t.len())[4 * i] == s[q + 4 * i]);
        assert(s.subrange(q, q + 4 * t.len())[4 * i + 1] == s[q + 4 * i + 1]);
        assert(s.subrange(q, q + 4 * t.len())[4 * i + 2] == s[q + 4 * i + 2]);
        assert(s.subrange(q, q + 4 * t.len())[4 * i + 3] == s[q + 4 * i + 3]);
    }
    assert(r =~= t);
}

/// Writing `b` at `pos` stores it there, keeps the other bytes and grows
/// the buffer to cover it.
proof fn lemma_write_at(s: Seq<u8>, pos: int, b: Seq<u8>)
    requires
        0 <= pos,
    ensures
        spec_write_at(s, pos, b).len() == (if s.len() >= pos + b.len() {
            s.len() as int
        } else {
            pos + b.len()
        }),
        forall|k: int| pos <= k < pos + b.len() ==> #[trigger] spec_write_at(s, pos, b)[k] == b[k - pos],
        forall|k: int|
            0 <= k < s.len() && !(pos <= k < pos + b.len()) ==> #[trigger] spec_write_at(s, pos, b)[k] == s[k],
{
    let t = spec_pad(s, pos);
    assert(forall|k: int| 0 <= k < s.len() ==> t[k] == s[k]);
}

/// Where the declared place of a V5 ICC profile shares bytes with the pixel
/// data, the profile holds the same bytes as the pixel data there.
pub open spec fn spec_icc_agrees_with_pixels(b: Bmp) -> bool {
    match b {
        Bmp::V5(d) => match d.icc_profile {
            Some(p) => {
                let poff = 14 + d.bmp_header.profile_data;
                let off = d.file_header.pixel_data_offset as int;
                forall|j: int|
                    0 <= j < p@.len() && off <= poff + j < off + d.bitmap_array@.len() ==> #[trigger] p@[j]
                        == d.bitmap_array@[poff + j - off]
            },
            None => true,
        },
        _ => true,
    }
}

/// The length of the metadata that precedes the pixel data.
pub open spec fn spec_meta_len(b: Bmp) -> int {
    let h = b.spec_bitmap_header();
    14 + h.spec_size() + spec_mask_block_len(h) + b.spec_color_table_len() * spec_entry_size(h)
}

/// What a valid BMP's validation establishes about its layout.
#[verifier::spinoff_prover]
#[verifier::rlimit(40)]
proof fn lemma_valid_layout(b: Bmp)
    requires
        b.spec_validate() is Ok,
        b.spec_bitmap_array().len() <= usize::MAX,
    ensures
        spec_canonical_header(b.spec_bitmap_header()),
        b.spec_bitmap_header().spec_color_table_size() == Some(b.spec_color_table_len() as u32),
        b.spec_bitmap_header().spec_pixel_data_size() == Some(b.spec_bitmap_array().len() as u32),
        b.spec_bitmap_array().len() <= MAX_PIXEL_BYTES,
        b.spec_mask_bytes().len() == spec_mask_block_len(b.spec_bitmap_header()),
        b.spec_file_header().pixel_data_offset >= spec_meta_len(b),
        b.spec_file_header().pixel_data_offset + b.spec_bitmap_array().len() <= b.spec_file_header().file_size,
        b.spec_validate_write_layout() is Ok,
        match b {
            Bmp::V5(d) => if d.bmp_header.v4.cs_type.spec_is_profile() {
                &&& d.icc_profile is Some
                &&& d.icc_profile->Some_0@.len() == d.bmp_header.profile_size
                &&& d.bmp_header.profile_size <= MAX_ICC_PROFILE_BYTES
                &&& 14 + d.bmp_header.profile_data >= spec_meta_len(b)
                &&& 14 + d.bmp_header.profile_data + d.bmp_header.profile_size <= d.file_header.file_size
                &&& (d.file_header.file_size == d.file_header.pixel_data_offset + d.bitmap_array@.len()
                    || d.file_header.file_size == 14 + d.bmp_header.profile_data + d.bmp_header.profile_size)
            } else {
                &&& d.icc_profile is None
                &&& d.file_header.file_size == d.file_header.pixel_data_offset + d.bitmap_array@.len()
            },
            _ => b.spec_file_header().file_size == b.spec_file_header().pixel_data_offset
                + b.spec_bitmap_array().len(),
        },
{
    let fh = b.spec_file_header();
    let h = b.spec_bitmap_header();
    let ts = h.spec_color_table_size()->Some_0;
    let ps = h.spec_pixel_data_size()->Some_0;
    assert(b.spec_validate_layout(ts, ps) is Ok);
    let (dib, entry, extra) = b.spec_layout_sizes();
    assert(dib == h.spec_size());
    assert(entry == spec_entry_size(h));
    assert(b.spec_validate_table(ts as usize) is Ok);
    assert(b.spec_color_table_len() == ts);
    assert(spec_validate_pixel_data_size(b.spec_bitmap_array().len() as usize, ps as usize) is Ok);
    if b is Info {
        let d = b->Info_0;
        assert(spec_validate_info_masks(d.bmp_header, d.color_masks) is Ok);
        assert(extra == spec_mask_block_len(h));
    }
    assert(extra == spec_mask_block_len(h));
    assert(spec_min_pixel_offset(dib, b.spec_color_table_len(), entry, extra) is Some);
    let mo = spec_min_pixel_offset(dib, b.spec_color_table_len(), entry, extra)->Some_0;
    assert(mo == spec_meta_len(b));
    assert(spec_pixel_end(fh.pixel_data_offset, mo, ps as usize) is Ok);
}

/// A stored file header takes 14 bytes.
proof fn lemma_file_header_len(h: FileHeader)
    ensures
        h.spec_bytes().len() == 14,
{
    broadcast use vstd::array::group_array_axioms;

}

/// A stored DIB header takes as many bytes as its size field says.
proof fn lemma_header_len(h: BitmapHeader)
    ensures
        h.spec_bytes().len() == h.spec_size(),
{
    broadcast use vstd::array::group_array_axioms;

    match h {
        BitmapHeader::Core(c) => assert(c.spec_bytes().len() == 8),
        BitmapHeader::Info(i) => assert(i.spec_bytes().len() == 36),
        BitmapHeader::V4(v) => assert(v.spec_bytes().len() == 104),
        BitmapHeader::V5(v) => {
            assert(v.v4.spec_bytes().len() == 104);
            assert(v.spec_bytes().len() == 120);
        },
    }
}

/// The metadata is the file header, the DIB header, the mask block and the
/// color table, back to back.
proof fn lemma_meta_len(b: Bmp)
    requires
        b.spec_mask_bytes().len() == spec_mask_block_len(b.spec_bitmap_header()),
    ensures
        b.spec_file_header().spec_bytes().len() == 14,
        b.spec_bitmap_header().spec_bytes().len() == b.spec_bitmap_header().spec_size(),
        b.spec_table_bytes().len() == b.spec_color_table_len() * spec_entry_size(b.spec_bitmap_header()),
        b.spec_meta_bytes().len() == spec_meta_len(b),
{
    lemma_file_header_len(b.spec_file_header());
    lemma_header_len(b.spec_bitmap_header());
    match b {
        Bmp::Core(d) => lemma_triples_bytes(d.color_table@),
        Bmp::Info(d) => lemma_quads_bytes(d.color_table@),
        Bmp::V4(d) => lemma_quads_bytes(d.color_table@),
        Bmp::V5(d) => lemma_quads_bytes(d.color_table@),
    }
}

/// Where the written bytes of a valid BMP hold its metadata, pixel data
/// and ICC profile, and how long they are.
#[verifier::spinoff_prover]
#[verifier::rlimit(40)]
proof fn lemma_written_layout(b: Bmp)
    requires
        b.spec_validate() is Ok,
        b.spec_bitmap_array().len() <= usize::MAX,
        spec_icc_agrees_with_pixels(b),
    ensures
        ({
            let s = b.spec_written(Seq::empty());
            let m = spec_meta_len(b);
            let off = b.spec_file_header().pixel_data_offset as int;
            let pds = b.spec_bitmap_array().len() as int;
            &&& s.len() == b.spec_file_header().file_size
            &&& m <= s.len()
            &&& s.subrange(0, m) == b.spec_meta_bytes()
            &&& s.subrange(off, off + pds) == b.spec_bitmap_array()
            &&& (b matches Bmp::V5(d) ==> (d.icc_profile is Some ==> {
                let p = d.icc_profile->Some_0@;
                let poff = 14 + d.bmp_header.profile_data;
                s.subrange(poff, poff + p.len()) == p
            }))
        }),
{
    lemma_valid_layout(b);
    lemma_meta_len(b);
    let meta = b.spec_meta_bytes();
    let m = spec_meta_len(b);
    let fh = b.spec_file_header();
    let off = fh.pixel_data_offset as int;
    let px = b.spec_bitmap_array();
    let pds = px.len() as int;
    let w0 = Seq::<u8>::empty() + meta;
    assert(w0 =~= meta);
    let w1 = spec_write_at(w0, off, px);
    lemma_write_at(w0, off, px);
    assert(w1.len() == off + pds);
    let s = b.spec_written(Seq::empty());
    match b {
        Bmp::V5(d) => {
            match d.icc_profile {
                Some(pv) => {
                    let p = pv@;
                    let poff = 14 + d.bmp_header.profile_data;
                    assert(s == spec_write_at(w1, poff, p));
                    lemma_write_at(w1, poff, p);
                    assert(d.bmp_header.v4.cs_type.spec_is_profile());
                    assert forall|k: int| 0 <= k < m implies #[trigger] s.subrange(0, m)[k] == meta[k] by {
                        assert(s[k] == w1[k]);
                        assert(w1[k] == w0[k]);
                    }
                    assert(s.subrange(0, m) =~= meta);
                    assert forall|k: int| 0 <= k < pds implies #[trigger] s.subrange(off, off + pds)[k] == px[k] by {
                        let i = off + k;
                        if poff <= i < poff + p.len() {
                            assert(p[i - poff] == px[poff + (i - poff) - off]);
                        } else {
                            assert(s[i] == w1[i]);
                        }
                    }
                    assert(s.subrange(off, off + pds) =~= px);
                    assert(s.subrange(poff, poff + p.len()) =~= p);
                },
                None => {
                    assert(s == w1);
                    assert(s.subrange(0, m) =~= meta);
                    assert(s.subrange(off, off + pds) =~= px);
                },
            }
        },
        _ => {
            assert(s == w1);
            assert(s.subrange(0, m) =~= meta);
            assert(s.subrange(off, off + pds) =~= px);
        },
    }
}

/// Two BMPs of the same generation with equal headers, mask blocks, color
/// tables, pixel data and ICC profiles.
pub open spec fn spec_same_bmp(a: Bmp, c: Bmp) -> bool {
    &&& a.spec_file_header() == c.spec_file_header()
    &&& a.spec_bitmap_header() == c.spec_bitmap_header()
    &&& a.spec_bitmap_array() == c.spec_bitmap_array()
    &&& match (a, c) {
        (Bmp::Core(x), Bmp::Core(y)) => x.color_table@ == y.color_table@,
        (Bmp::Info(x), Bmp::Info(y)) => x.color_table@ == y.color_table@ && x.color_masks == y.color_masks,
        (Bmp::V4(x), Bmp::V4(y)) => x.color_table@ == y.color_table@,
        (Bmp::V5(x), Bmp::V5(y)) => x.color_table@ == y.color_table@ && spec_icc(x.icc_profile) == spec_icc(
            y.icc_profile,
        ),
        _ => false,
    }
}

/// What reading yields from given bytes is determined by them.
pub proof fn lemma_read_result_unique(a: Bmp, c: Bmp, s: Seq<u8>)
    requires
        spec_read_result(a, s),
        spec_read_result(c, s),
    ensures
        spec_same_bmp(a, c),
{
}

/// The written headers of a valid BMP parse back as its headers.
#[verifier::spinoff_prover]
#[verifier::rlimit(40)]
proof fn lemma_written_headers(b: Bmp)
    requires
        b.spec_validate() is Ok,
        b.spec_bitmap_array().len() <= usize::MAX,
        spec_icc_agrees_with_pixels(b),
    ensures
        b.spec_file_header().spec_at(b.spec_written(Seq::empty()), 0),
        b.spec_bitmap_header().spec_at(b.spec_written(Seq::empty()), 14),
        spec_file_header_of(b.spec_written(Seq::empty())) == b.spec_file_header(),
        spec_header_of(b.spec_written(Seq::empty())) == b.spec_bitmap_header(),
{
    lemma_valid_layout(b);
    lemma_written_layout(b);
    lemma_meta_len(b);
    let s = b.spec_written(Seq::empty());
    let fh = b.spec_file_header();
    let h = b.spec_bitmap_header();
    let meta = b.spec_meta_bytes();
    let hs = h.spec_size() as int;
    assert(meta.subrange(0, 14) =~= fh.spec_bytes());
    lemma_piece(s, 0, meta, 0, fh.spec_bytes());
    lemma_file_header_bytes_at(fh, s, 0);
    lemma_file_header_at_unique(fh, s, 0);
    assert(meta.subrange(14, 14 + hs) =~= h.spec_bytes());
    lemma_piece(s, 0, meta, 14, h.spec_bytes());
    lemma_header_bytes_at(h, s, 14);
    lemma_header_at_unique(h, s, 14);
}

/// The written mask block and color table of a valid BMP read back.
#[verifier::spinoff_prover]
#[verifier::rlimit(40)]
proof fn lemma_written_table(b: Bmp)
    requires
        b.spec_validate() is Ok,
        b.spec_bitmap_array().len() <= usize::MAX,
        spec_icc_agrees_with_pixels(b),
    ensures
        ({
            let s = b.spec_written(Seq::empty());
            let q = spec_table_pos(b.spec_bitmap_header());
            let n = b.spec_color_table_len() as int;
            match b {
                Bmp::Core(d) => d.color_table@ == spec_triples_at(s, q, n),
                Bmp::Info(d) => d.color_table@ == spec_quads_at(s, q, n) && (d.bmp_header.compression is BitFields
                    ==> d.color_masks == Some(
                    RgbMasks {
                        red_mask: spec_u32_at(s, 54),
                        green_mask: spec_u32_at(s, 58),
                        blue_mask: spec_u32_at(s, 62),
                    },
                )),
                Bmp::V4(d) => d.color_table@ == spec_quads_at(s, q, n),
                Bmp::V5(d) => d.color_table@ == spec_quads_at(s, q, n),
            }
        }),
{
    lemma_valid_layout(b);
    lemma_written_layout(b);
    lemma_meta_len(b);
    let s = b.spec_written(Seq::empty());
    let h = b.spec_bitmap_header();
    let meta = b.spec_meta_bytes();
    let m = spec_meta_len(b);
    let mb = b.spec_mask_bytes();
    let tb = b.spec_table_bytes();
    let q = spec_table_pos(h);
    assert(meta.subrange(q, m) =~= tb);
    lemma_piece(s, 0, meta, q, tb);
    match b {
        Bmp::Core(d) => {
            lemma_triples_read(s, q, d.color_table@);
        },
        Bmp::Info(d) => {
            lemma_quads_read(s, q, d.color_table@);
            if d.bmp_header.compression is BitFields {
                let mk = d.color_masks->Some_0;
                assert(meta.subrange(54, 58) =~= spec_u32_le(mk.red_mask));
                assert(meta.subrange(58, 62) =~= spec_u32_le(mk.green_mask));
                assert(meta.subrange(62, 66) =~= spec_u32_le(mk.blue_mask));
                lemma_u32_field(s, 0, meta, 54, mk.red_mask);
                lemma_u32_field(s, 0, meta, 58, mk.green_mask);
                lemma_u32_field(s, 0, meta, 62, mk.blue_mask);
            }
        },
        Bmp::V4(d) => {
            lemma_quads_read(s, q, d.color_table@);
        },
        Bmp::V5(d) => {
            lemma_quads_read(s, q, d.color_table@);
        },
    }
}

/// Reading the written bytes of a valid BMP passes every structural check.
#[verifier::spinoff_prover]
#[verifier::rlimit(40)]
proof fn lemma_written_outcome(b: Bmp)
    requires
        b.spec_validate() is Ok,
        b.spec_bitmap_array().len() <= usize::MAX,
        b.spec_color_table_len() <= MAX_COLOR_TABLE_ENTRIES,
        spec_icc_agrees_with_pixels(b),
    ensures
        spec_read_outcome(b.spec_written(Seq::empty())) is Ok,
{
    lemma_valid_layout(b);
    lemma_written_layout(b);
    lemma_meta_len(b);
    lemma_written_headers(b);
    let s = b.spec_written(Seq::empty());
    let h = b.spec_bitmap_header();
    let fh = b.spec_file_header();
    assert(spec_u32_at(s, 2) == fh.file_size);
    assert(spec_u32_at(s, 10) == fh.pixel_data_offset);
    assert(spec_u32_at(s, 14) == h.spec_size());
    assert(spec_read_outcome(s) == spec_read_body_outcome(s, h));
}

/// What reading the written bytes of a valid BMP yields is the BMP itself.
#[verifier::spinoff_prover]
#[verifier::rlimit(40)]
proof fn lemma_written_result(b: Bmp)
    requires
        b.spec_validate() is Ok,
        b.spec_bitmap_array().len() <= usize::MAX,
        spec_icc_agrees_with_pixels(b),
    ensures
        spec_read_result(b, b.spec_written(Seq::empty())),
{
    let s = b.spec_written(Seq::empty());
    let h = b.spec_bitmap_header();
    let q = spec_table_pos(h);
    let n = h.spec_color_table_size()->Some_0 as int;
    let off = spec_u32_at(s, 10) as int;
    let pds = h.spec_pixel_data_size()->Some_0 as int;
    assert(b.spec_file_header() == spec_file_header_of(s) && h == spec_header_of(s)
        && off == b.spec_file_header().pixel_data_offset) by {
        lemma_written_headers(b);
    }
    assert(b.spec_bitmap_array() == s.subrange(off, off + pds)) by {
        lemma_valid_layout(b);
        lemma_written_layout(b);
    }
    assert(n == b.spec_color_table_len()) by {
        lemma_valid_layout(b);
    }
    assert(match b {
        Bmp::Core(d) => d.color_table@ == spec_triples_at(s, q, n),
        Bmp::Info(d) => d.color_table@ == spec_quads_at(s, q, n) && d.color_masks == (if d.bmp_header.compression is BitFields {
            Some(
                RgbMasks {
                    red_mask: spec_u32_at(s, 54),
                    green_mask: spec_u32_at(s, 58),
                    blue_mask: spec_u32_at(s, 62),
                },
            )
        } else {
            None
        }),
        Bmp::V4(d) => d.color_table@ == spec_quads_at(s, q, n),
        Bmp::V5(d) => d.color_table@ == spec_quads_at(s, q, n),
    }) by {
        lemma_valid_layout(b);
        lemma_written_table(b);
    }
    assert(b matches Bmp::V5(d) ==> spec_icc(d.icc_profile) == (if d.bmp_header.v4.cs_type.spec_is_profile() {
        Some(
            s.subrange(
                d.bmp_header.profile_data + 14,
                d.bmp_header.profile_data + 14 + d.bmp_header.profile_size,
            ),
        )
    } else {
        None
    })) by {
        lemma_valid_layout(b);
        lemma_written_layout(b);
    }
}

/// A valid BMP, written out, reads back as itself: the preflight checks of
/// writing pass, reading the written bytes succeeds, and every BMP that
/// reading can yield from them has this BMP's headers, mask block, color
/// table, pixel data and ICC profile. Reading bounds the color table at
/// `MAX_COLOR_TABLE_ENTRIES` entries, and where the declared place of a V5
/// ICC profile overlaps the pixel data, the two must hold the same bytes.
pub proof fn lemma_write_read_roundtrip(b: Bmp)
    requires
        b.spec_validate() is Ok,
        b.spec_bitmap_array().len() <= usize::MAX,
        b.spec_color_table_len() <= MAX_COLOR_TABLE_ENTRIES,
        spec_icc_agrees_with_pixels(b),
    ensures
        b.spec_validate_write_layout() is Ok,
        spec_read_outcome(b.spec_written(Seq::empty())) is Ok,
        spec_read_result(b, b.spec_written(Seq::empty())),
        forall|r: Bmp| spec_read_result(r, b.spec_written(Seq::empty())) ==> spec_same_bmp(r, b),
{
    lemma_valid_layout(b);
    lemma_written_outcome(b);
    lemma_written_result(b);
    let s = b.spec_written(Seq::empty());
    assert forall|r: Bmp| spec_read_result(r, s) implies spec_same_bmp(r, b) by {
        lemma_read_result_unique(r, b, s);
    }
}

} // verus!
