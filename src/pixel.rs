use vstd::prelude::*;

verus! {

/// One RGBA pixel, eight bits per channel.
#[derive(Clone, Copy, Debug, PartialEq, Eq, Structural)]
pub struct Pixel {
    pub r: u8,
    pub g: u8,
    pub b: u8,
    pub a: u8,
}

/// The pixel every colour-cache slot holds before anything is written to it.
pub open spec fn clear_pixel() -> Pixel {
    Pixel { r: 0, g: 0, b: 0, a: 0 }
}

/// The "previous pixel" at the start of a decode: opaque black.
pub open spec fn start_pixel() -> Pixel {
    Pixel { r: 0, g: 0, b: 0, a: 255 }
}

/// Slot of the colour cache that a pixel hashes to.
pub open spec fn hash_of(p: Pixel) -> int {
    (p.r as int * 3 + p.g as int * 5 + p.b as int * 7 + p.a as int * 11) % 64
}

/// Channel `c` (0 = red, 1 = green, 2 = blue, otherwise alpha) of a pixel.
pub open spec fn channel(p: Pixel, c: int) -> u8 {
    if c == 0 {
        p.r
    } else if c == 1 {
        p.g
    } else if c == 2 {
        p.b
    } else {
        p.a
    }
}

/// The raw RGBA byte layout of a sequence of pixels: four bytes per pixel, in order.
pub open spec fn pixel_bytes(ps: Seq<Pixel>) -> Seq<u8> {
    Seq::new(4 * ps.len(), |j: int| channel(ps[j / 4], j % 4))
}

/// `n` copies of the pixel `p`.
pub open spec fn repeat_pixel(p: Pixel, n: nat) -> Seq<Pixel> {
    Seq::new(n, |_j: int| p)
}

pub proof fn lemma_bytes_single(p: Pixel)
    ensures
        pixel_bytes(seq![p]) == seq![p.r, p.g, p.b, p.a],
{
    assert(pixel_bytes(seq![p]) =~= seq![p.r, p.g, p.b, p.a]);
}

/// The byte layout of a concatenation is the concatenation of the byte layouts.
pub proof fn lemma_bytes_append(xs: Seq<Pixel>, ys: Seq<Pixel>)
    ensures
        pixel_bytes(xs + ys) == pixel_bytes(xs) + pixel_bytes(ys),
{
    let n = xs.len() as int;
    assert forall|j: int| 4 * n <= j < 4 * (n + ys.len()) implies #[trigger] (xs + ys)[j / 4] == ys[(
    j - 4 * n) / 4] && j % 4 == (j - 4 * n) % 4 by {
        assert((j - 4 * n) / 4 == j / 4 - n);
        assert((j - 4 * n) % 4 == j % 4);
    }
    assert(pixel_bytes(xs + ys) =~= pixel_bytes(xs) + pixel_bytes(ys));
}

/// Keeping the first `4 * k` bytes keeps exactly the first `k` pixels.
pub proof fn lemma_bytes_take(ps: Seq<Pixel>, k: int)
    requires
        0 <= k <= ps.len(),
    ensures
        pixel_bytes(ps).subrange(0, 4 * k) == pixel_bytes(ps.take(k)),
{
    assert(pixel_bytes(ps).subrange(0, 4 * k) =~= pixel_bytes(ps.take(k)));
}

/// Computes the colour-cache slot of `p`.
pub fn color_hash(p: Pixel) -> (slot: usize)
    ensures
        slot == hash_of(p),
        slot < 64,
{
    let sum: u32 = p.r as u32 * 3 + p.g as u32 * 5 + p.b as u32 * 7 + p.a as u32 * 11;
    (sum % 64) as usize
}

/// Appends the four RGBA bytes of `p` to `out`.
pub fn push_pixel(out: &mut Vec<u8>, p: Pixel)
    ensures
        final(out)@ == old(out)@ + pixel_bytes(seq![p]),
{
    out.push(p.r);
    out.push(p.g);
    out.push(p.b);
    out.push(p.a);
    proof {
        lemma_bytes_single(p);
    }
    assert(out@ =~= old(out)@ + pixel_bytes(seq![p]));
}

} // verus!
