use vstd::prelude::*;
use vstd::arithmetic::div_mod::lemma_add_mod_noop_right;
use crate::cache::ColorCache;
use crate::error::DecodeError;
use crate::pixel::{Pixel, pixel_bytes, repeat_pixel, push_pixel, lemma_bytes_append};

verus! {

/// Opcode of an RGB instruction.
pub const OP_RGB: u8 = 0xFE;

/// Opcode of an RGBA instruction.
pub const OP_RGBA: u8 = 0xFF;

/// Reduces an integer to a channel value, wrapping modulo 256.
pub open spec fn wrap(x: int) -> u8 {
    (x % 256) as u8
}

/// The two-bit tag in the top bits of an opcode byte.
pub open spec fn tag_of(op: u8) -> int {
    op as int / 64
}

/// RGB: new red, green and blue from the three bytes after the opcode; alpha kept.
pub open spec fn rgb_pixel(prev: Pixel, data: Seq<u8>, i: int) -> Pixel {
    Pixel { r: data[i + 1], g: data[i + 2], b: data[i + 3], a: prev.a }
}

/// RGBA: all four channels from the four bytes after the opcode.
pub open spec fn rgba_pixel(data: Seq<u8>, i: int) -> Pixel {
    Pixel { r: data[i + 1], g: data[i + 2], b: data[i + 3], a: data[i + 4] }
}

/// DIFF `01rrggbb`: each two-bit field less a bias of 2 is added to its channel.
pub open spec fn diff_pixel(prev: Pixel, op: u8) -> Pixel {
    Pixel {
        r: wrap(prev.r + (op as int / 16) % 4 - 2),
        g: wrap(prev.g + (op as int / 4) % 4 - 2),
        b: wrap(prev.b + op as int % 4 - 2),
        a: prev.a,
    }
}

/// LUMA `10gggggg rrrrbbbb`: green moves by the six-bit field less 32; red and blue
/// move by that amount plus their four-bit field less 8.
pub open spec fn luma_pixel(prev: Pixel, op: u8, second: u8) -> Pixel {
    let dg = op as int % 64 - 32;
    Pixel {
        r: wrap(prev.r + dg + second as int / 16 - 8),
        g: wrap(prev.g + dg),
        b: wrap(prev.b + dg + second as int % 16 - 8),
        a: prev.a,
    }
}

/// RUN `11llllll`: the number of copies, the six-bit field plus one.
pub open spec fn run_length(op: u8) -> nat {
    (op as int % 64 + 1) as nat
}

/// A LUMA instruction whose three fields all sit at their bias leaves red, green
/// and blue unchanged.
pub proof fn lemma_luma_neutral(prev: Pixel)
    ensures
        luma_pixel(prev, 0xa0, 0x88) == prev,
{
}

/// RGB instruction at `i`: fails when fewer than three bytes follow the opcode.
pub fn handle_rgb(data: &[u8], pixels: &mut Vec<u8>, prev: &mut Pixel, i: usize) -> (r: Result<
    usize,
    DecodeError,
>)
    requires
        i < data@.len(),
    ensures
        i + 3 >= data@.len() ==> r == Err::<usize, DecodeError>(DecodeError::TruncatedChunk)
            && *final(prev) == *old(prev) && final(pixels)@ == old(pixels)@,
        i + 3 < data@.len() ==> r == Ok::<usize, DecodeError>(4) && *final(prev) == rgb_pixel(
            *old(prev),
            data@,
            i as int,
        ) && final(pixels)@ == old(pixels)@ + pixel_bytes(seq![*final(prev)]),
{
    if data.len() - i <= 3 {
        return Err(DecodeError::TruncatedChunk);
    }
    *prev = Pixel { r: data[i + 1], g: data[i + 2], b: data[i + 3], a: prev.a };
    push_pixel(pixels, *prev);
    Ok(4)
}

/// RGBA instruction at `i`: fails when fewer than four bytes follow the opcode.
pub fn handle_rgba(data: &[u8], pixels: &mut Vec<u8>, prev: &mut Pixel, i: usize) -> (r: Result<
    usize,
    DecodeError,
>)
    requires
        i < data@.len(),
    ensures
        i + 4 >= data@.len() ==> r == Err::<usize, DecodeError>(DecodeError::TruncatedChunk)
            && *final(prev) == *old(prev) && final(pixels)@ == old(pixels)@,
        i + 4 < data@.len() ==> r == Ok::<usize, DecodeError>(5) && *final(prev) == rgba_pixel(
            data@,
            i as int,
        ) && final(pixels)@ == old(pixels)@ + pixel_bytes(seq![*final(prev)]),
{
    if data.len() - i <= 4 {
        return Err(DecodeError::TruncatedChunk);
    }
    *prev = Pixel { r: data[i + 1], g: data[i + 2], b: data[i + 3], a: data[i + 4] };
    push_pixel(pixels, *prev);
    Ok(5)
}

/// INDEX `00iiiiii`: the pixel in cache slot `i`.
pub fn handle_index(cache: &ColorCache, pixels: &mut Vec<u8>, prev: &mut Pixel, op: u8) -> (r:
    usize)
    requires
        op < 64,
        cache.view().len() == 64,
    ensures
        r == 1,
        *final(prev) == cache.view()[op as int],
        final(pixels)@ == old(pixels)@ + pixel_bytes(seq![*final(prev)]),
{
    *prev = cache.get(op as usize);
    push_pixel(pixels, *prev);
    1
}

/// Wrapping once in the middle of a sum changes nothing modulo 256.
proof fn lemma_wrap_twice(x: int, d: int)
    ensures
        wrap(wrap(x) + d) == wrap(x + d),
{
    lemma_add_mod_noop_right(d, x, 256);
    assert(wrap(x) as int == x % 256);
}

/// Adds `field - bias` to `c`, modulo 256.
fn shift_channel(c: u8, field: u8, bias: u8) -> (r: u8)
    requires
        field <= 64,
        bias <= 64,
    ensures
        r == wrap(c + field - bias),
{
    let s: u16 = c as u16 + field as u16 + 256 - bias as u16;
    assert((c + field - bias + 256) % 256 == (c + field - bias) % 256);
    (s % 256) as u8
}

/// DIFF `01rrggbb`: small signed steps on red, green and blue.
pub fn handle_diff(pixels: &mut Vec<u8>, prev: &mut Pixel, op: u8) -> (r: usize)
    ensures
        r == 1,
        *final(prev) == diff_pixel(*old(prev), op),
        final(pixels)@ == old(pixels)@ + pixel_bytes(seq![*final(prev)]),
{
    let p = *prev;
    *prev = Pixel {
        r: shift_channel(p.r, op / 16 % 4, 2),
        g: shift_channel(p.g, op / 4 % 4, 2),
        b: shift_channel(p.b, op % 4, 2),
        a: p.a,
    };
    push_pixel(pixels, *prev);
    1
}

/// LUMA `10gggggg rrrrbbbb` at `i`: fails when no second byte follows.
pub fn handle_luma(data: &[u8], pixels: &mut Vec<u8>, prev: &mut Pixel, i: usize) -> (r: Result<
    usize,
    DecodeError,
>)
    requires
        i < data@.len(),
    ensures
        i + 1 >= data@.len() ==> r == Err::<usize, DecodeError>(DecodeError::TruncatedChunk)
            && *final(prev) == *old(prev) && final(pixels)@ == old(pixels)@,
        i + 1 < data@.len() ==> r == Ok::<usize, DecodeError>(2) && *final(prev) == luma_pixel(
            *old(prev),
            data@[i as int],
            data@[i + 1],
        ) && final(pixels)@ == old(pixels)@ + pixel_bytes(seq![*final(prev)]),
{
    if data.len() - i <= 1 {
        return Err(DecodeError::TruncatedChunk);
    }
    let vg = data[i] % 64;
    let second = data[i + 1];
    let p = *prev;
    let g = shift_channel(p.g, vg, 32);
    let r_step = shift_channel(p.r, vg, 32);
    let b_step = shift_channel(p.b, vg, 32);
    *prev = Pixel {
        r: shift_channel(r_step, second / 16, 8),
        g: g,
        b: shift_channel(b_step, second % 16, 8),
        a: p.a,
    };
    proof {
        lemma_wrap_twice(p.r + vg - 32, second / 16 - 8);
        lemma_wrap_twice(p.b + vg - 32, second % 16 - 8);
    }
    push_pixel(pixels, *prev);
    Ok(2)
}

/// RUN `11llllll`: the previous pixel, repeated `run_length(op)` times.
pub fn handle_run(pixels: &mut Vec<u8>, prev: &Pixel, op: u8) -> (r: usize)
    ensures
        r == 1,
        final(pixels)@ == old(pixels)@ + pixel_bytes(repeat_pixel(*prev, run_length(op))),
{
    let count: u8 = op % 64 + 1;
    let mut k: u8 = 0;
    while k < count
        invariant
            k <= count,
            count == run_length(op),
            pixels@ == old(pixels)@ + pixel_bytes(repeat_pixel(*prev, k as nat)),
        decreases count - k,
    {
        proof {
            lemma_bytes_append(repeat_pixel(*prev, k as nat), seq![*prev]);
            assert(repeat_pixel(*prev, k as nat) + seq![*prev] =~= repeat_pixel(
                *prev,
                (k + 1) as nat,
            ));
        }
        push_pixel(pixels, *prev);
        k = k + 1;
    }
    1
}

} // verus!
