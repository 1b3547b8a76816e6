//! The byte layout of RGBA rasters, shared by the transforms that move or
//! recolour pixels: an image is given by the byte `f(x, y, c)` of channel
//! `c` of each pixel `(x, y)`, and is built row by row.
use vstd::prelude::*;
use vstd::arithmetic::div_mod::lemma_fundamental_div_mod_converse;

verus! {

/// The bytes of a `width x height` RGBA image whose channel `c` of pixel
/// `(x, y)` is `f(x, y, c)`, rows top to bottom.
pub open spec fn spec_image(width: int, height: int, f: spec_fn(int, int, int) -> u8) -> Seq<u8> {
    Seq::new((width * height * 4) as nat, |i: int| f((i / 4) % width, (i / 4) / width, i % 4))
}

/// Row `y` of such an image.
pub open spec fn spec_row(width: int, y: int, f: spec_fn(int, int, int) -> u8) -> Seq<u8> {
    Seq::new((width * 4) as nat, |j: int| f(j / 4, y, j % 4))
}

/// Channel `c` of pixel `(x, y)` of a `width`-pixel-wide RGBA buffer.
pub open spec fn spec_px(src: Seq<u8>, width: int, x: int, y: int, c: int) -> u8 {
    src[(y * width + x) * 4 + c]
}

/// Byte `(y * width + x) * 4 + c` of an image is channel `c` of pixel
/// `(x, y)`.
pub proof fn lemma_image_index(width: int, height: int, x: int, y: int, c: int)
    requires
        0 <= x < width,
        0 <= y < height,
        0 <= c < 4,
    ensures
        0 <= (y * width + x) * 4 + c < width * height * 4,
        ((y * width + x) * 4 + c) / 4 == y * width + x,
        (((y * width + x) * 4 + c) / 4) % width == x,
        (((y * width + x) * 4 + c) / 4) / width == y,
        ((y * width + x) * 4 + c) % 4 == c,
{
    let p = y * width + x;
    crate::runtime::decode::lemma_pixel_bounds(width, height, x, y);
    lemma_fundamental_div_mod_converse(p * 4 + c, 4, p, c);
    lemma_fundamental_div_mod_converse(p, width, y, x);
    assert((y * width + x) * 4 + c < width * height * 4) by (nonlinear_arith)
        requires
            y * width + x + 1 <= width * height,
            0 <= c < 4,
    ;
}

/// Row `y` of an image is the bytes `y * width * 4 .. (y + 1) * width * 4`.
pub proof fn lemma_row_of_image(width: int, height: int, y: int, f: spec_fn(int, int, int) -> u8)
    requires
        0 <= y < height,
        0 <= width,
    ensures
        y * width * 4 + width * 4 <= width * height * 4,
        (y + 1) * width * 4 == y * width * 4 + width * 4,
        spec_image(width, height, f).subrange(y * width * 4, y * width * 4 + width * 4) == spec_row(
            width,
            y,
            f,
        ),
{
    assert(y * width * 4 + width * 4 <= width * height * 4 && (y + 1) * width * 4 == y * width * 4 + width
        * 4) by (nonlinear_arith)
        requires
            0 <= y < height,
            0 <= width,
    ;
    let img = spec_image(width, height, f);
    let row = spec_row(width, y, f);
    assert forall|j: int| 0 <= j < width * 4 implies #[trigger] img.subrange(
        y * width * 4,
        y * width * 4 + width * 4,
    )[j] == row[j] by {
        let x = j / 4;
        let c = j % 4;
        lemma_fundamental_div_mod_converse(j, 4, x, c);
        assert(y * width * 4 + j == (y * width + x) * 4 + c) by (nonlinear_arith)
            requires
                j == x * 4 + c,
        ;
        lemma_image_index(width, height, x, y, c);
    }
    assert(img.subrange(y * width * 4, y * width * 4 + width * 4) =~= row);
}

/// Appending pixel `x` to the first `x` pixels of a row.
pub proof fn lemma_row_push(width: int, y: int, x: int, f: spec_fn(int, int, int) -> u8, px: Seq<u8>)
    requires
        0 <= x < width,
        px.len() == 4,
        forall|c: int| 0 <= c < 4 ==> px[c] == f(x, y, c),
    ensures
        spec_row(width, y, f).subrange(0, x * 4) + px == spec_row(width, y, f).subrange(0, x * 4 + 4),
{
    let row = spec_row(width, y, f);
    assert forall|j: int| x * 4 <= j < x * 4 + 4 implies row[j] == px[j - x * 4] by {
        lemma_fundamental_div_mod_converse(j, 4, x, j - x * 4);
    }
    assert(row.subrange(0, x * 4) + px =~= row.subrange(0, x * 4 + 4));
}

/// The four bytes of pixel `k / 4` of `src`, appended to `out`.
pub fn push_pixel(out: &mut Vec<u8>, src: &[u8], k: usize)
    requires
        k + 4 <= src@.len(),
    ensures
        final(out)@ == old(out)@ + src@.subrange(k as int, k + 4),
{
    out.push(src[k]);
    out.push(src[k + 1]);
    out.push(src[k + 2]);
    out.push(src[k + 3]);
    assert(final(out)@ =~= old(out)@ + src@.subrange(k as int, k + 4));
}

/// Appends the four bytes `px`.
pub fn push_bytes(out: &mut Vec<u8>, px: [u8; 4])
    ensures
        final(out)@ == old(out)@ + px@,
{
    out.push(px[0]);
    out.push(px[1]);
    out.push(px[2]);
    out.push(px[3]);
    assert(final(out)@ =~= old(out)@ + px@);
}

} // verus!
