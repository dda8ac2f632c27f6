//! Conversion of decoded image rows into the 32-bit, alpha-premultiplied
//! layout that overlay surfaces are uploaded in.
//!
//! Source rows hold 3 (RGB) or 4 (RGBA) bytes per pixel, `pix_stride` bytes
//! apart. Target rows hold 4 bytes per pixel in the order blue, green, red,
//! alpha, `out_stride` bytes apart; the bytes after the last pixel of a
//! target row are zero.

use vstd::prelude::*;
use vstd::arithmetic::div_mod::lemma_fundamental_div_mod_converse;

verus! {

/// A colour channel scaled by an alpha value, rounded down.
pub open spec fn premultiply(c: u8, a: u8) -> u8 {
    (c as int * a as int / 255) as u8
}

/// Byte `k` (blue, green, red, alpha) of the target pixel at (`row`, `col`).
/// A source without alpha gives opaque pixels.
pub open spec fn pixel_byte(
    pixels: Seq<u8>,
    channels: int,
    pix_stride: int,
    row: int,
    col: int,
    k: int,
) -> u8 {
    let base = row * pix_stride + col * channels;
    if channels == 3 {
        if k == 0 {
            pixels[base + 2]
        } else if k == 1 {
            pixels[base + 1]
        } else if k == 2 {
            pixels[base]
        } else {
            255
        }
    } else {
        let a = pixels[base + 3];
        if k == 0 {
            premultiply(pixels[base + 2], a)
        } else if k == 1 {
            premultiply(pixels[base + 1], a)
        } else if k == 2 {
            premultiply(pixels[base], a)
        } else {
            a
        }
    }
}

/// Byte `i` of the converted image.
pub open spec fn converted_byte(
    pixels: Seq<u8>,
    width: int,
    channels: int,
    pix_stride: int,
    out_stride: int,
    i: int,
) -> u8 {
    let row = i / out_stride;
    let off = i % out_stride;
    if off < 4 * width {
        pixel_byte(pixels, channels, pix_stride, row, off / 4, off % 4)
    } else {
        0
    }
}

/// The first `n` bytes of the converted image.
pub open spec fn converted(
    pixels: Seq<u8>,
    width: usize,
    channels: usize,
    pix_stride: usize,
    out_stride: usize,
    n: nat,
) -> Seq<u8> {
    Seq::new(
        n,
        |i: int|
            converted_byte(
                pixels,
                width as int,
                channels as int,
                pix_stride as int,
                out_stride as int,
                i,
            ),
    )
}

/// Whether the dimensions describe a source of `len` bytes that can be
/// converted: 3 or 4 channels, rows that hold their pixels, a source long
/// enough for its last row, and a target whose size fits a `usize`.
pub open spec fn layout_fits(
    len: int,
    width: int,
    height: int,
    channels: int,
    pix_stride: int,
    out_stride: int,
) -> bool {
    &&& channels == 3 || channels == 4
    &&& width * channels <= pix_stride
    &&& width * 4 <= out_stride
    &&& height * out_stride <= usize::MAX
    &&& height > 0 ==> (height - 1) * pix_stride + width * channels <= len
}

fn premultiply_channel(c: u8, a: u8) -> (r: u8)
    ensures
        r == premultiply(c, a),
{
    assert(c as int * a as int <= 255 * 255) by (nonlinear_arith)
        requires
            c <= 255,
            a <= 255,
    ;
    let p: u32 = c as u32 * a as u32;
    assert(p / 255 <= 255) by (nonlinear_arith)
        requires
            p == c as int * a as int,
            c <= 255,
            a <= 255,
    ;
    (p / 255) as u8
}

proof fn lemma_next_byte(
    pixels: Seq<u8>,
    width: int,
    channels: int,
    pix_stride: int,
    out_stride: int,
    row: int,
    off: int,
)
    requires
        0 <= off < out_stride,
        0 <= row,
    ensures
        converted_byte(pixels, width, channels, pix_stride, out_stride, row * out_stride + off)
            == if off < 4 * width {
            pixel_byte(pixels, channels, pix_stride, row, off / 4, off % 4)
        } else {
            0
        },
{
    lemma_fundamental_div_mod_converse(row * out_stride + off, out_stride, row, off);
}

/// Converts `height` rows of `width` pixels. `None` exactly when the
/// dimensions do not fit the source (see `layout_fits`).
pub fn convert_pixels(
    pixels: &Vec<u8>,
    width: usize,
    height: usize,
    channels: usize,
    pix_stride: usize,
    out_stride: usize,
) -> (r: Option<Vec<u8>>)
    ensures
        r is Some <==> layout_fits(
            pixels@.len() as int,
            width as int,
            height as int,
            channels as int,
            pix_stride as int,
            out_stride as int,
        ),
        r is Some ==> r->0@ == converted(
            pixels@,
            width,
            channels,
            pix_stride,
            out_stride,
            (height * out_stride) as nat,
        ),
{
    let len = pixels.len();
    if channels != 3 && channels != 4 {
        return None;
    }
    let row_bytes = match width.checked_mul(channels) {
        Some(v) => v,
        None => return None,
    };
    if row_bytes > pix_stride {
        return None;
    }
    let pixel_bytes = match width.checked_mul(4) {
        Some(v) => v,
        None => return None,
    };
    if pixel_bytes > out_stride {
        return None;
    }
    match height.checked_mul(out_stride) {
        Some(_) => {},
        None => return None,
    }
    if height > 0 {
        let last = match (height - 1).checked_mul(pix_stride) {
            Some(v) => v,
            None => {
                assert(width * channels >= 0) by (nonlinear_arith);
                return None;
            },
        };
        match last.checked_add(row_bytes) {
            Some(end) => {
                if end > len {
                    return None;
                }
            },
            None => return None,
        }
    }
    let mut out: Vec<u8> = Vec::new();
    let mut row: usize = 0;
    while row < height
        invariant
            layout_fits(
                pixels@.len() as int,
                width as int,
                height as int,
                channels as int,
                pix_stride as int,
                out_stride as int,
            ),
            row_bytes == width * channels,
            pixel_bytes == width * 4,
            len == pixels@.len(),
            row <= height,
            out@ == converted(
                pixels@,
                width,
                channels,
                pix_stride,
                out_stride,
                (row * out_stride) as nat,
            ),
        decreases height - row,
    {
        assert(row * pix_stride <= (height - 1) * pix_stride) by (nonlinear_arith)
            requires
                row < height,
        ;
        assert((row + 1) * out_stride <= height * out_stride) by (nonlinear_arith)
            requires
                row < height,
        ;
        assert((row + 1) * out_stride == row * out_stride + out_stride) by (nonlinear_arith);
        let src_row = row * pix_stride;
        let dst_row = row * out_stride;
        let mut col: usize = 0;
        while col < width
            invariant
                layout_fits(
                    pixels@.len() as int,
                    width as int,
                    height as int,
                    channels as int,
                    pix_stride as int,
                    out_stride as int,
                ),
                row_bytes == width * channels,
                pixel_bytes == width * 4,
                row < height,
                src_row == row * pix_stride,
                dst_row == row * out_stride,
                src_row + row_bytes <= pixels@.len(),
                len == pixels@.len(),
                dst_row + out_stride <= usize::MAX,
                col <= width,
                out@ == converted(
                    pixels@,
                    width,
                    channels,
                    pix_stride,
                    out_stride,
                    (dst_row + col * 4) as nat,
                ),
            decreases width - col,
        {
            assert(col * channels + channels <= width * channels) by (nonlinear_arith)
                requires
                    col < width,
            ;
            let base = src_row + col * channels;
            let (b, g, r, a) = if channels == 3 {
                (pixels[base + 2], pixels[base + 1], pixels[base], 255u8)
            } else {
                let a = pixels[base + 3];
                (
                    premultiply_channel(pixels[base + 2], a),
                    premultiply_channel(pixels[base + 1], a),
                    premultiply_channel(pixels[base], a),
                    a,
                )
            };
            let ghost start = dst_row + col * 4;
            proof {
                let (w, c) = (width as int, channels as int);
                let (ps, os) = (pix_stride as int, out_stride as int);
                lemma_next_byte(pixels@, w, c, ps, os, row as int, col * 4);
                lemma_next_byte(pixels@, w, c, ps, os, row as int, col * 4 + 1);
                lemma_next_byte(pixels@, w, c, ps, os, row as int, col * 4 + 2);
                lemma_next_byte(pixels@, w, c, ps, os, row as int, col * 4 + 3);
            }
            out.push(b);
            out.push(g);
            out.push(r);
            out.push(a);
            assert(out@ =~= converted(
                pixels@,
                width,
                channels,
                pix_stride,
                out_stride,
                (start + 4) as nat,
            ));
            col += 1;
        }
        let mut off: usize = pixel_bytes;
        while off < out_stride
            invariant
                row < height,
                dst_row == row * out_stride,
                dst_row + out_stride <= usize::MAX,
                pixel_bytes == width * 4,
                pixel_bytes <= off <= out_stride,
                out@ == converted(
                    pixels@,
                    width,
                    channels,
                    pix_stride,
                    out_stride,
                    (dst_row + off) as nat,
                ),
            decreases out_stride - off,
        {
            proof {
                lemma_next_byte(
                    pixels@,
                    width as int,
                    channels as int,
                    pix_stride as int,
                    out_stride as int,
                    row as int,
                    off as int,
                );
            }
            out.push(0);
            assert(out@ =~= converted(
                pixels@,
                width,
                channels,
                pix_stride,
                out_stride,
                (dst_row + off + 1) as nat,
            ));
            off += 1;
        }
        assert((row + 1) * out_stride == row * out_stride + out_stride) by (nonlinear_arith);
        row += 1;
    }
    Some(out)
}

} // verus!
