//! The layout of a pixel buffer: rows from the top, four bytes a pixel in the
//! order red, green, blue, alpha, with nothing between the rows.

use vstd::prelude::*;

verus! {

/// Number of bytes of a buffer of `width` by `height` pixels.
pub open spec fn byte_len(width: int, height: int) -> int {
    width * height * 4
}

/// Whether `(x, y)` names a pixel of a buffer of `width` by `height` pixels.
pub open spec fn in_frame(width: int, height: int, x: int, y: int) -> bool {
    0 <= x < width && 0 <= y < height
}

/// Index of the first byte of pixel `(x, y)` in a buffer `width` pixels wide.
pub open spec fn offset(width: int, x: int, y: int) -> int {
    (y * width + x) * 4
}

/// Column of the pixel that byte `k` belongs to.
pub open spec fn column(width: int, k: int) -> int {
    (k / 4) % width
}

/// Row of the pixel that byte `k` belongs to.
pub open spec fn row(width: int, k: int) -> int {
    (k / 4) / width
}

/// Channel of byte `k`: `0` red, `1` green, `2` blue, `3` alpha.
pub open spec fn channel(k: int) -> int {
    k % 4
}

/// The alpha byte of pixel `(x, y)`.
pub open spec fn alpha_at(frame: Seq<u8>, width: int, x: int, y: int) -> u8 {
    frame[offset(width, x, y) + 3]
}

/// Every byte of a pixel of the frame lies within the buffer, and the byte
/// leads back to its pixel and channel.
pub proof fn lemma_offset(width: int, height: int, x: int, y: int, c: int)
    requires
        in_frame(width, height, x, y),
        0 <= c < 4,
    ensures
        0 <= offset(width, x, y),
        offset(width, x, y) + c < byte_len(width, height),
        column(width, offset(width, x, y) + c) == x,
        row(width, offset(width, x, y) + c) == y,
        channel(offset(width, x, y) + c) == c,
{
    let p = y * width + x;
    assert(0 <= y * width) by (nonlinear_arith)
        requires
            0 <= y,
            0 < width,
    ;
    assert(p < width * height) by (nonlinear_arith)
        requires
            0 <= x < width,
            0 <= y < height,
            p == y * width + x,
    ;
    assert((p * 4 + c) / 4 == p);
    assert(p / width == y && p % width == x) by {
        vstd::arithmetic::div_mod::lemma_fundamental_div_mod_converse(p, width, y, x);
    }
}

/// Every byte of the buffer belongs to one pixel of the frame, and is found
/// again from that pixel and its channel.
pub proof fn lemma_pixel_of(width: int, height: int, k: int)
    requires
        0 <= k < byte_len(width, height),
        0 <= width,
        0 <= height,
    ensures
        in_frame(width, height, column(width, k), row(width, k)),
        0 <= channel(k) < 4,
        offset(width, column(width, k), row(width, k)) + channel(k) == k,
{
    assert(width > 0 && height > 0) by (nonlinear_arith)
        requires
            0 <= k < width * height * 4,
            0 <= width,
            0 <= height,
    ;
    let p = k / 4;
    assert(p < width * height);
    vstd::arithmetic::div_mod::lemma_fundamental_div_mod(p, width);
    vstd::arithmetic::div_mod::lemma_mod_bound(p, width);
    let y = p / width;
    let x = p % width;
    assert(p == width * y + x);
    assert(width * y == y * width) by (nonlinear_arith);
    assert(0 <= y) by {
        vstd::arithmetic::div_mod::lemma_div_pos_is_pos(p, width);
    }
    assert(y < height) by (nonlinear_arith)
        requires
            y * width + x < width * height,
            0 <= x,
            0 < width,
    ;
}

/// The byte that channel `c` of a pixel holds when its three colours are
/// `shade` and its alpha is `alpha`.
pub open spec fn tone(c: int, shade: u8, alpha: u8) -> u8 {
    if c == 3 {
        alpha
    } else {
        shade
    }
}

/// The buffer with pixel `(x, y)` set to the grey `shade` at `alpha`.
pub open spec fn with_pixel(frame: Seq<u8>, width: int, x: int, y: int, shade: u8, alpha: u8) -> Seq<
    u8,
> {
    Seq::new(
        frame.len(),
        |k: int|
            if column(width, k) == x && row(width, k) == y {
                tone(channel(k), shade, alpha)
            } else {
                frame[k]
            },
    )
}

/// A buffer of `len` zero bytes: every pixel black and transparent.
pub open spec fn blank(len: int) -> Seq<u8> {
    Seq::new(len as nat, |k: int| 0u8)
}

/// Zeroes every byte of the buffer.
pub fn clear(frame: &mut [u8])
    ensures
        final(frame)@ == blank(old(frame)@.len() as int),
{
    let n: usize = frame.len();
    let mut i: usize = 0;
    while i < n
        invariant
            i <= n,
            frame@.len() == n,
            forall|j: int| 0 <= j < i ==> frame@[j] == 0u8,
        decreases n - i,
    {
        frame[i] = 0;
        i += 1;
    }
    assert(frame@ =~= blank(n as int));
}

/// Index of the first byte of pixel `(x, y)`.
pub fn offset_of(width: usize, height: usize, x: usize, y: usize) -> (r: usize)
    requires
        in_frame(width as int, height as int, x as int, y as int),
        byte_len(width as int, height as int) <= usize::MAX,
    ensures
        r == offset(width as int, x as int, y as int),
        r + 3 < byte_len(width as int, height as int),
{
    proof {
        lemma_offset(width as int, height as int, x as int, y as int, 3);
        assert(0 <= y * width) by (nonlinear_arith);
    }
    (y * width + x) * 4
}

/// The alpha byte of pixel `(x, y)`.
pub fn alpha_of(frame: &[u8], width: usize, height: usize, x: usize, y: usize) -> (r: u8)
    requires
        in_frame(width as int, height as int, x as int, y as int),
        frame@.len() == byte_len(width as int, height as int),
    ensures
        r == alpha_at(frame@, width as int, x as int, y as int),
{
    proof {
        vstd::slice::axiom_spec_len(frame);
    }
    let at: usize = offset_of(width, height, x, y);
    frame[at + 3]
}

/// Sets pixel `(x, y)` to the grey `shade` at `alpha`.
pub fn put_pixel(
    frame: &mut [u8],
    width: usize,
    height: usize,
    x: usize,
    y: usize,
    shade: u8,
    alpha: u8,
)
    requires
        in_frame(width as int, height as int, x as int, y as int),
        old(frame)@.len() == byte_len(width as int, height as int),
    ensures
        final(frame)@ == with_pixel(old(frame)@, width as int, x as int, y as int, shade, alpha),
{
    proof {
        vstd::slice::axiom_spec_len(&*frame);
    }
    let at: usize = offset_of(width, height, x, y);
    frame[at] = shade;
    frame[at + 1] = shade;
    frame[at + 2] = shade;
    frame[at + 3] = alpha;
    proof {
        let w = width as int;
        let h = height as int;
        let target = with_pixel(old(frame)@, w, x as int, y as int, shade, alpha);
        assert forall|k: int| 0 <= k < frame@.len() implies frame@[k] == target[k] by {
            lemma_pixel_of(w, h, k);
            lemma_offset(w, h, x as int, y as int, 0);
            lemma_offset(w, h, x as int, y as int, 1);
            lemma_offset(w, h, x as int, y as int, 2);
            lemma_offset(w, h, x as int, y as int, 3);
        }
        assert(frame@ =~= target);
    }
}

} // verus!
