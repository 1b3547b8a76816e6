//! What decoding a run-length stream of palette indices paints: the
//! stream pieces the encoder emits (encoded runs, absolute runs, line
//! ends and the bitmap end) each advance the decoder over the pixels they
//! stand for, so a whole encoded stream decodes to the indexed image.
use vstd::prelude::*;
use vstd::arithmetic::div_mod::{lemma_fundamental_div_mod, lemma_fundamental_div_mod_converse};
use crate::runtime::decode::{spec_abs_index, spec_rle_abs, spec_rle_fill, spec_rle_from, spec_rle_put, spec_src_row};

verus! {

/// The RGBA bytes of a `width x height` image whose pixel `p` has
/// palette entry `indices[p]`.
pub open spec fn spec_indexed_rgba(indices: Seq<u8>, palette: Seq<[u8; 4]>, width: int, height: int) -> Seq<u8> {
    Seq::new((width * height * 4) as nat, |i: int| palette[indices[i / 4] as int]@[i % 4])
}

/// Whether pixel `p` is painted once a bottom-up stream has covered its
/// rows below stream row `ys` and the first `x` pixels of stream row `ys`.
pub open spec fn spec_covered(p: int, width: int, height: int, ys: int, x: int) -> bool {
    let yd = height - 1 - p / width;
    yd < ys || (yd == ys && p % width < x)
}

/// The RGBA buffer of a bottom-up stream that has painted the pixels it
/// covered (see [`spec_covered`]); the others are still zero.
pub open spec fn spec_painted(
    indices: Seq<u8>,
    palette: Seq<[u8; 4]>,
    width: int,
    height: int,
    ys: int,
    x: int,
) -> Seq<u8> {
    Seq::new(
        (width * height * 4) as nat,
        |i: int|
            if spec_covered(i / 4, width, height, ys, x) {
                palette[indices[i / 4] as int]@[i % 4]
            } else {
                0u8
            },
    )
}

/// Whether every index of `indices` names a palette entry.
pub open spec fn spec_indices_in(indices: Seq<u8>, palette: Seq<[u8; 4]>) -> bool {
    forall|i: int| 0 <= i < indices.len() ==> (#[trigger] indices[i] as int) < palette.len()
}

/// Painting pixel `x` of stream row `ys` extends the painted buffer by
/// that pixel.
proof fn lemma_put(indices: Seq<u8>, palette: Seq<[u8; 4]>, width: int, height: int, ys: int, x: int)
    requires
        0 <= ys < height,
        0 <= x < width,
        indices.len() == width * height,
        spec_indices_in(indices, palette),
    ensures
        spec_rle_put(
            spec_painted(indices, palette, width, height, ys, x),
            width,
            height,
            false,
            palette,
            x,
            ys,
            indices[(height - 1 - ys) * width + x] as int,
        ) == Ok::<Seq<u8>, crate::runtime::decode::DecodeError>(
            spec_painted(indices, palette, width, height, ys, x + 1),
        ),
{
    let yi = height - 1 - ys;
    let p = yi * width + x;
    assert(0 <= yi * width) by (nonlinear_arith)
        requires
            0 <= yi,
            0 < width,
    ;
    assert(p < width * height) by (nonlinear_arith)
        requires
            p == yi * width + x,
            0 <= yi < height,
            0 <= x < width,
    ;
    let idx = indices[p] as int;
    assert(idx < palette.len());
    let old_buf = spec_painted(indices, palette, width, height, ys, x);
    let new_buf = spec_painted(indices, palette, width, height, ys, x + 1);
    let dst = (spec_src_row(ys, height, false) * width + x) * 4;
    assert(dst == p * 4);
    let c = palette[idx]@;
    let r = old_buf.update(dst, c[0]).update(dst + 1, c[1]).update(dst + 2, c[2]).update(dst + 3, c[3]);
    lemma_fundamental_div_mod_converse(p, width, yi, x);
    assert forall|i: int| 0 <= i < new_buf.len() implies #[trigger] r[i] == new_buf[i] by {
        let q = i / 4;
        if dst <= i < dst + 4 {
            lemma_fundamental_div_mod_converse(i, 4, p, i - dst);
        } else {
            lemma_fundamental_div_mod(q, width);
            if spec_covered(q, width, height, ys, x + 1) != spec_covered(q, width, height, ys, x) {
                assert(q / width == yi && q % width == x);
                assert(q == p) by (nonlinear_arith)
                    requires
                        q == width * (q / width) + q % width,
                        q / width == yi,
                        q % width == x,
                        p == yi * width + x,
                ;
                lemma_fundamental_div_mod(i, 4);
            }
        }
    }
    assert(r =~= new_buf);
}

/// An encoded run of index `v` over pixels `k..n` from column `x0 + k`
/// paints them and ends at column `x0 + n`.
proof fn lemma_fill(
    indices: Seq<u8>,
    palette: Seq<[u8; 4]>,
    width: int,
    height: int,
    ys: int,
    x0: int,
    v: int,
    k: int,
    n: int,
)
    requires
        0 <= ys < height,
        0 <= x0,
        0 <= k <= n,
        x0 + n <= width,
        indices.len() == width * height,
        spec_indices_in(indices, palette),
        forall|j: int|
            (height - 1 - ys) * width + x0 + k <= j < (height - 1 - ys) * width + x0 + n ==> #[trigger] indices[j]
                as int == v,
    ensures
        spec_rle_fill(
            spec_painted(indices, palette, width, height, ys, x0 + k),
            width,
            height,
            false,
            palette,
            x0 + k,
            ys,
            v,
            v,
            k,
            n,
        ) == Ok::<(Seq<u8>, int), crate::runtime::decode::DecodeError>(
            (spec_painted(indices, palette, width, height, ys, x0 + n), x0 + n),
        ),
    decreases n - k,
{
    if k < n {
        let j = (height - 1 - ys) * width + x0 + k;
        assert(indices[j] as int == v);
        lemma_put(indices, palette, width, height, ys, x0 + k);
        lemma_fill(indices, palette, width, height, ys, x0, v, k + 1, n);
    }
}

/// An absolute run over pixels `p..n` from column `x0 + p`, whose stored
/// indices are those of the pixels, paints them and ends at column
/// `x0 + n`.
proof fn lemma_abs(
    indices: Seq<u8>,
    palette: Seq<[u8; 4]>,
    width: int,
    height: int,
    ys: int,
    x0: int,
    data: Seq<u8>,
    four: bool,
    start: int,
    p: int,
    n: int,
)
    requires
        0 <= ys < height,
        0 <= x0,
        0 <= p <= n,
        x0 + n <= width,
        indices.len() == width * height,
        spec_indices_in(indices, palette),
        forall|q: int|
            p <= q < n ==> #[trigger] spec_abs_index(data, four, start, q) == indices[(height - 1 - ys) * width + x0
                + q] as int,
    ensures
        spec_rle_abs(
            spec_painted(indices, palette, width, height, ys, x0 + p),
            width,
            height,
            false,
            palette,
            data,
            four,
            start,
            x0 + p,
            ys,
            p,
            n,
        ) == Ok::<(Seq<u8>, int), crate::runtime::decode::DecodeError>(
            (spec_painted(indices, palette, width, height, ys, x0 + n), x0 + n),
        ),
    decreases n - p,
{
    if p < n {
        assert(spec_abs_index(data, four, start, p) == indices[(height - 1 - ys) * width + x0 + p] as int);
        lemma_put(indices, palette, width, height, ys, x0 + p);
        lemma_abs(indices, palette, width, height, ys, x0, data, four, start, p + 1, n);
    }
}

/// The zero buffer decoding starts from.
pub open spec fn spec_zeros(width: int, height: int) -> Seq<u8> {
    Seq::new((width * height * 4) as nat, |k: int| 0u8)
}

/// Whether every stream that starts with `s` decodes as the decoder that
/// has read `s` continues: at column `x` of stream row `ys`, with the
/// pixels covered so far painted.
pub open spec fn spec_resumes(
    s: Seq<u8>,
    indices: Seq<u8>,
    palette: Seq<[u8; 4]>,
    four: bool,
    width: int,
    height: int,
    x: int,
    ys: int,
) -> bool {
    forall|d: Seq<u8>|
        #![trigger spec_rle_from(d, four, width, height, false, palette, 0, 0, 0, spec_zeros(width, height))]
        s.len() <= d.len() && d.subrange(0, s.len() as int) == s ==> spec_rle_from(
            d,
            four,
            width,
            height,
            false,
            palette,
            0,
            0,
            0,
            spec_zeros(width, height),
        ) == spec_rle_from(
            d,
            four,
            width,
            height,
            false,
            palette,
            s.len() as int,
            x,
            ys,
            spec_painted(indices, palette, width, height, ys, x),
        )
}

/// A stream that extends `s + t` extends `s`, and holds `t` after it.
proof fn lemma_extends(d: Seq<u8>, s: Seq<u8>, t: Seq<u8>)
    requires
        (s + t).len() <= d.len(),
        d.subrange(0, (s + t).len() as int) == s + t,
    ensures
        s.len() <= d.len(),
        d.subrange(0, s.len() as int) == s,
        forall|k: int| 0 <= k < t.len() ==> d[s.len() + k] == #[trigger] t[k],
{
    assert forall|k: int| 0 <= k < s.len() implies d.subrange(0, s.len() as int)[k] == s[k] by {
        assert(d.subrange(0, (s + t).len() as int)[k] == (s + t)[k]);
    }
    assert(d.subrange(0, s.len() as int) =~= s);
    assert forall|k: int| 0 <= k < t.len() implies d[s.len() + k] == #[trigger] t[k] by {
        let m = s.len() + k;
        assert(d.subrange(0, (s + t).len() as int)[m] == d[m]);
        assert((s + t)[m] == t[k]);
        assert(d.subrange(0, (s + t).len() as int)[m] == (s + t)[m]);
    }
}

/// Nothing is covered before the stream starts.
pub(crate) proof fn lemma_resumes_start(indices: Seq<u8>, palette: Seq<[u8; 4]>, four: bool, width: int, height: int)
    requires
        0 < width,
        0 < height,
    ensures
        spec_resumes(Seq::empty(), indices, palette, four, width, height, 0, 0),
{
    let z = spec_painted(indices, palette, width, height, 0, 0);
    assert forall|i: int| 0 <= i < z.len() implies z[i] == 0u8 by {
        let q = i / 4;
        assert(0 <= q < width * height);
        assert(q / width < height) by (nonlinear_arith)
            requires
                0 <= q < width * height,
                0 < width,
        ;
    }
    assert(z =~= spec_zeros(width, height));
}

/// An encoded run of `n` pixels of index `v` (stored in `byte`) continues
/// the stream.
pub(crate) proof fn lemma_step_run(
    s: Seq<u8>,
    indices: Seq<u8>,
    palette: Seq<[u8; 4]>,
    four: bool,
    width: int,
    height: int,
    x: int,
    ys: int,
    n: u8,
    byte: u8,
    v: int,
)
    requires
        spec_resumes(s, indices, palette, four, width, height, x, ys),
        0 <= ys < height,
        0 <= x,
        1 <= n,
        x + n <= width,
        indices.len() == width * height,
        spec_indices_in(indices, palette),
        four ==> (byte >> 4u8) as int == v && (byte & 0x0fu8) as int == v,
        !four ==> byte as int == v,
        forall|j: int|
            (height - 1 - ys) * width + x <= j < (height - 1 - ys) * width + x + n ==> #[trigger] indices[j] as int
                == v,
    ensures
        spec_resumes(s + seq![n, byte], indices, palette, four, width, height, x + n, ys),
{
    let t = seq![n, byte];
    assert forall|d: Seq<u8>|
        (s + t).len() <= d.len() && d.subrange(0, (s + t).len() as int) == s + t implies #[trigger] spec_rle_from(
        d,
        four,
        width,
        height,
        false,
        palette,
        0,
        0,
        0,
        spec_zeros(width, height),
    ) == spec_rle_from(
        d,
        four,
        width,
        height,
        false,
        palette,
        (s + t).len() as int,
        x + n,
        ys,
        spec_painted(indices, palette, width, height, ys, x + n),
    ) by {
        lemma_extends(d, s, t);
        assert(d[s.len() as int] == t[0]);
        assert(d[s.len() as int + 1] == t[1]);
        lemma_fill(indices, palette, width, height, ys, x, v, 0, n as int);
    }
}

/// The number of bytes an absolute run of `n` indices stores: one per
/// index, or one per two 4-bit indices.
pub open spec fn spec_abs_bytes(four: bool, n: int) -> int {
    if four {
        (n + 1) / 2
    } else {
        n
    }
}

/// An absolute run of `n` pixels, stored as `payload` and padded to an
/// even length, continues the stream.
pub(crate) proof fn lemma_step_abs(
    s: Seq<u8>,
    indices: Seq<u8>,
    palette: Seq<[u8; 4]>,
    four: bool,
    width: int,
    height: int,
    x: int,
    ys: int,
    n: u8,
    payload: Seq<u8>,
    pad: Seq<u8>,
)
    requires
        spec_resumes(s, indices, palette, four, width, height, x, ys),
        0 <= ys < height,
        0 <= x,
        3 <= n,
        x + n <= width,
        indices.len() == width * height,
        spec_indices_in(indices, palette),
        payload.len() == spec_abs_bytes(four, n as int),
        pad.len() == payload.len() % 2,
        forall|q: int|
            0 <= q < n ==> #[trigger] spec_abs_index(payload, four, 0, q) == indices[(height - 1 - ys) * width + x
                + q] as int,
    ensures
        spec_resumes(s + (seq![0u8, n] + payload + pad), indices, palette, four, width, height, x + n, ys),
{
    let t = seq![0u8, n] + payload + pad;
    let bytes = payload.len() as int;
    assert forall|m: int| 0 <= m < bytes implies t[2 + m] == #[trigger] payload[m] by {
        assert((seq![0u8, n] + payload)[2 + m] == payload[m]);
    }
    assert forall|d: Seq<u8>|
        (s + t).len() <= d.len() && d.subrange(0, (s + t).len() as int) == s + t implies #[trigger] spec_rle_from(
        d,
        four,
        width,
        height,
        false,
        palette,
        0,
        0,
        0,
        spec_zeros(width, height),
    ) == spec_rle_from(
        d,
        four,
        width,
        height,
        false,
        palette,
        (s + t).len() as int,
        x + n,
        ys,
        spec_painted(indices, palette, width, height, ys, x + n),
    ) by {
        lemma_extends(d, s, t);
        let i = s.len() as int;
        let j = i + 2;
        assert(d[i] == t[0]);
        assert(d[i + 1] == t[1]);
        assert forall|q: int| 0 <= q < n implies #[trigger] spec_abs_index(d, four, j, q) == indices[(height - 1
            - ys) * width + x + q] as int by {
            assert(spec_abs_index(payload, four, 0, q) == indices[(height - 1 - ys) * width + x + q] as int);
            if four {
                let m = q / 2;
                assert(m < bytes);
                assert(d[s.len() + (2 + m)] == t[2 + m]);
                assert(t[2 + m] == payload[m]);
            } else {
                assert(d[s.len() + (2 + q)] == t[2 + q]);
                assert(t[2 + q] == payload[q]);
            }
        }
        lemma_abs(indices, palette, width, height, ys, x, d, four, j, 0, n as int);
    }
}

/// A line end after a full stream row moves to the start of the next.
pub(crate) proof fn lemma_step_eol(
    s: Seq<u8>,
    indices: Seq<u8>,
    palette: Seq<[u8; 4]>,
    four: bool,
    width: int,
    height: int,
    ys: int,
)
    requires
        spec_resumes(s, indices, palette, four, width, height, width, ys),
        0 < width,
        0 <= ys,
        ys + 1 < height,
    ensures
        spec_resumes(s + seq![0u8, 0u8], indices, palette, four, width, height, 0, ys + 1),
{
    let t = seq![0u8, 0u8];
    let a = spec_painted(indices, palette, width, height, ys, width);
    let b = spec_painted(indices, palette, width, height, ys + 1, 0);
    assert forall|i: int| 0 <= i < a.len() implies a[i] == b[i] by {
        let q = i / 4;
        lemma_fundamental_div_mod(q, width);
    }
    assert(a =~= b);
    assert forall|d: Seq<u8>|
        (s + t).len() <= d.len() && d.subrange(0, (s + t).len() as int) == s + t implies #[trigger] spec_rle_from(
        d,
        four,
        width,
        height,
        false,
        palette,
        0,
        0,
        0,
        spec_zeros(width, height),
    ) == spec_rle_from(
        d,
        four,
        width,
        height,
        false,
        palette,
        (s + t).len() as int,
        0,
        ys + 1,
        b,
    ) by {
        lemma_extends(d, s, t);
        assert(d[s.len() as int] == t[0]);
        assert(d[s.len() as int + 1] == t[1]);
    }
}

/// The bitmap end after the last stream row ends decoding with the whole
/// image painted.
pub(crate) proof fn lemma_finish(
    s: Seq<u8>,
    indices: Seq<u8>,
    palette: Seq<[u8; 4]>,
    four: bool,
    width: int,
    height: int,
)
    requires
        spec_resumes(s, indices, palette, four, width, height, width, height - 1),
        0 < width,
        0 < height,
        indices.len() == width * height,
    ensures
        spec_rle_from(s + seq![0u8, 1u8], four, width, height, false, palette, 0, 0, 0, spec_zeros(width, height))
            == Ok::<Seq<u8>, crate::runtime::decode::DecodeError>(spec_indexed_rgba(indices, palette, width, height)),
{
    let t = seq![0u8, 1u8];
    let d = s + t;
    assert(d.subrange(0, d.len() as int) =~= d);
    lemma_extends(d, s, t);
    assert(d[s.len() as int] == t[0]);
    assert(d[s.len() as int + 1] == t[1]);
    let a = spec_painted(indices, palette, width, height, height - 1, width);
    assert forall|i: int| 0 <= i < a.len() implies a[i] == spec_indexed_rgba(indices, palette, width, height)[i] by {
        let q = i / 4;
        assert(0 <= q < width * height);
        lemma_fundamental_div_mod(q, width);
        assert(q / width < height) by (nonlinear_arith)
            requires
                0 <= q < width * height,
                0 < width,
        ;
    }
    assert(a =~= spec_indexed_rgba(indices, palette, width, height));
}

} // verus!
