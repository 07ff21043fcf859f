use vstd::prelude::*;
use crate::cache::{ColorCache, clear_slots, slots_after, lemma_unwritten_slot_is_clear};
use crate::error::DecodeError;
use crate::header::{Qoi, parse_spec, magic_ok};
use crate::ops::{
    OP_RGB,
    OP_RGBA,
    tag_of,
    rgb_pixel,
    rgba_pixel,
    diff_pixel,
    luma_pixel,
    run_length,
    handle_rgb,
    handle_rgba,
    handle_index,
    handle_diff,
    handle_luma,
    handle_run,
};
use crate::pixel::{Pixel, clear_pixel, hash_of, start_pixel, pixel_bytes, repeat_pixel, lemma_bytes_append, lemma_bytes_take};

verus! {

/// The eight bytes that end the instruction stream.
pub open spec fn end_marker() -> Seq<u8> {
    seq![0u8, 0u8, 0u8, 0u8, 0u8, 0u8, 0u8, 1u8]
}

/// The end marker starts at `i`.
pub open spec fn marker_at(data: Seq<u8>, i: int) -> bool {
    0 <= i && i + 8 <= data.len() && data.subrange(i, i + 8) == end_marker()
}

/// Number of bytes an instruction with opcode `op` takes.
pub open spec fn op_size(op: u8) -> int {
    if op == OP_RGB {
        4
    } else if op == OP_RGBA {
        5
    } else if tag_of(op) == 2 {
        2
    } else {
        1
    }
}

/// One instruction at `i`: the new previous pixel and the pixels it emits.
pub open spec fn step(data: Seq<u8>, i: int, prev: Pixel, cache: Seq<Pixel>) -> Result<
    (Pixel, Seq<Pixel>),
    DecodeError,
> {
    let op = data[i];
    if op == OP_RGB {
        if i + 3 >= data.len() {
            Err(DecodeError::TruncatedChunk)
        } else {
            let p = rgb_pixel(prev, data, i);
            Ok((p, seq![p]))
        }
    } else if op == OP_RGBA {
        if i + 4 >= data.len() {
            Err(DecodeError::TruncatedChunk)
        } else {
            let p = rgba_pixel(data, i);
            Ok((p, seq![p]))
        }
    } else if tag_of(op) == 0 {
        let p = cache[op as int];
        Ok((p, seq![p]))
    } else if tag_of(op) == 1 {
        let p = diff_pixel(prev, op);
        Ok((p, seq![p]))
    } else if tag_of(op) == 2 {
        if i + 1 >= data.len() {
            Err(DecodeError::TruncatedChunk)
        } else {
            let p = luma_pixel(prev, op, data[i + 1]);
            Ok((p, seq![p]))
        }
    } else if tag_of(op) == 3 {
        Ok((prev, repeat_pixel(prev, run_length(op))))
    } else {
        Err(DecodeError::UnknownOpcode)
    }
}

/// Puts `xs` in front of a successful result; passes an error through.
pub open spec fn prepend(xs: Seq<Pixel>, r: Result<Seq<Pixel>, DecodeError>) -> Result<
    Seq<Pixel>,
    DecodeError,
> {
    match r {
        Ok(ys) => Ok(xs + ys),
        Err(e) => Err(e),
    }
}

/// The pixels that the instructions from `i` on emit, given the previous pixel and
/// the cache there. Stops at the end of the data or at the end marker; the cache
/// takes the new previous pixel after every instruction.
pub open spec fn stream_pixels(data: Seq<u8>, i: int, prev: Pixel, cache: Seq<Pixel>) -> Result<
    Seq<Pixel>,
    DecodeError,
>
    decreases data.len() - i,
{
    if i < 0 || i >= data.len() || marker_at(data, i) {
        Ok(seq![])
    } else {
        match step(data, i, prev, cache) {
            Err(e) => Err(e),
            Ok((next, emitted)) => prepend(
                emitted,
                stream_pixels(data, i + op_size(data[i]), next, cache.update(hash_of(next), next)),
            ),
        }
    }
}

/// The RGBA bytes that a payload decodes to for an image of `width` by `height`:
/// the emitted pixels cut to `width * height`, or `LengthMismatch` if there are fewer.
pub open spec fn decode_payload(data: Seq<u8>, width: u32, height: u32) -> Result<
    Seq<u8>,
    DecodeError,
> {
    match stream_pixels(data, 0, start_pixel(), clear_slots()) {
        Err(e) => Err(e),
        Ok(ps) => if ps.len() >= width * height {
            Ok(pixel_bytes(ps.take(width * height)))
        } else {
            Err(DecodeError::LengthMismatch)
        },
    }
}

/// The RGBA bytes that a whole file decodes to.
pub open spec fn decode_file(b: Seq<u8>) -> Result<Seq<u8>, DecodeError> {
    match parse_spec(b) {
        Err(e) => Err(e),
        Ok((h, data)) => decode_payload(data, h.width, h.height),
    }
}

/// A decode result, with the buffer seen as a sequence.
pub open spec fn bytes_result(r: Result<Vec<u8>, DecodeError>) -> Result<Seq<u8>, DecodeError> {
    match r {
        Ok(v) => Ok(v@),
        Err(e) => Err(e),
    }
}

proof fn lemma_prepend_twice(xs: Seq<Pixel>, ys: Seq<Pixel>, r: Result<Seq<Pixel>, DecodeError>)
    ensures
        prepend(xs, prepend(ys, r)) == prepend(xs + ys, r),
{
    if let Ok(zs) = r {
        assert(xs + (ys + zs) =~= (xs + ys) + zs);
    }
}

/// Whether the end marker starts at `i`.
fn at_marker(data: &[u8], i: usize) -> (r: bool)
    requires
        i <= data@.len(),
    ensures
        r == marker_at(data@, i as int),
{
    if data.len() - i < 8 {
        return false;
    }
    let hit = data[i] == 0 && data[i + 1] == 0 && data[i + 2] == 0 && data[i + 3] == 0 && data[i
        + 4] == 0 && data[i + 5] == 0 && data[i + 6] == 0 && data[i + 7] == 1;
    assert(hit <==> data@.subrange(i as int, i + 8) =~= end_marker());
    hit
}

/// Runs the instruction at `i`: classifies the opcode and calls its handler.
fn decode_step(
    data: &[u8],
    i: usize,
    prev: &mut Pixel,
    cache: &ColorCache,
    pixels: &mut Vec<u8>,
) -> (r: Result<usize, DecodeError>)
    requires
        i < data@.len(),
        cache.view().len() == 64,
    ensures
        match step(data@, i as int, *old(prev), cache.view()) {
            Err(e) => r == Err::<usize, DecodeError>(e),
            Ok((p, emitted)) => r == Ok::<usize, DecodeError>(op_size(data@[i as int]) as usize)
                && *final(prev) == p && final(pixels)@ == old(pixels)@ + pixel_bytes(emitted),
        },
{
    let op = data[i];
    if op == OP_RGB {
        handle_rgb(data, pixels, prev, i)
    } else if op == OP_RGBA {
        handle_rgba(data, pixels, prev, i)
    } else if op / 64 == 0 {
        Ok(handle_index(cache, pixels, prev, op))
    } else if op / 64 == 1 {
        Ok(handle_diff(pixels, prev, op))
    } else if op / 64 == 2 {
        handle_luma(data, pixels, prev, i)
    } else if op / 64 == 3 {
        Ok(handle_run(pixels, prev, op))
    } else {
        Err(DecodeError::UnknownOpcode)
    }
}

/// A successful decode yields exactly four bytes for each of the `width * height`
/// pixels that the header declares.
pub proof fn lemma_decoded_length(data: Seq<u8>, width: u32, height: u32)
    ensures
        decode_payload(data, width, height) is Ok ==> decode_payload(data, width, height)->Ok_0.len()
            == width * height * 4,
{
}

/// A whole file that decodes yields four bytes for each pixel its header declares.
pub proof fn lemma_decoded_file_length(b: Seq<u8>)
    ensures
        decode_file(b) is Ok ==> parse_spec(b) is Ok && decode_file(b)->Ok_0.len() == parse_spec(
            b,
        )->Ok_0.0.width * parse_spec(b)->Ok_0.0.height * 4,
{
}

/// A RUN opcode whose six-bit field is zero emits the previous pixel exactly once
/// and leaves it as it was.
pub proof fn lemma_run_of_one(data: Seq<u8>, i: int, prev: Pixel, cache: Seq<Pixel>)
    requires
        0 <= i < data.len(),
        data[i] == 0xc0,
    ensures
        step(data, i, prev, cache) == Ok::<(Pixel, Seq<Pixel>), DecodeError>((prev, seq![prev])),
{
    assert(repeat_pixel(prev, run_length(0xc0)) =~= seq![prev]);
}

/// Remembering one more pixel writes only the slot it hashes to.
pub proof fn lemma_slots_after_push(writes: Seq<Pixel>, p: Pixel)
    ensures
        slots_after(writes.push(p)) == slots_after(writes).update(hash_of(p), p),
{
    assert(writes.push(p).drop_last() =~= writes);
}

/// An INDEX opcode naming a slot that none of the remembered pixels hashed to
/// yields (0, 0, 0, 0).
pub proof fn lemma_index_unwritten_slot(
    data: Seq<u8>,
    i: int,
    prev: Pixel,
    writes: Seq<Pixel>,
)
    requires
        0 <= i < data.len(),
        data[i] < 64,
        forall|j: int| 0 <= j < writes.len() ==> hash_of(#[trigger] writes[j]) != data[i] as int,
    ensures
        step(data, i, prev, slots_after(writes)) == Ok::<(Pixel, Seq<Pixel>), DecodeError>(
            (clear_pixel(), seq![clear_pixel()]),
        ),
{
    lemma_unwritten_slot_is_clear(writes, data[i] as int);
}

/// At the end marker the stream stops: nothing from there on is read as an
/// instruction, whatever follows the marker.
pub proof fn lemma_marker_stops(data: Seq<u8>, i: int, prev: Pixel, cache: Seq<Pixel>)
    requires
        marker_at(data, i),
    ensures
        stream_pixels(data, i, prev, cache) == Ok::<Seq<Pixel>, DecodeError>(seq![]),
{
}

/// A file of at least fourteen bytes whose magic is not `qoif` fails with
/// `InvalidMagic`, and no pixel is produced.
pub proof fn lemma_bad_magic(b: Seq<u8>)
    requires
        b.len() >= 14,
        !magic_ok(b),
    ensures
        decode_file(b) == Err::<Seq<u8>, DecodeError>(DecodeError::InvalidMagic),
{
}

/// Decodes the instruction stream of `file` into `width * height` RGBA pixels,
/// four bytes each, row by row.
pub fn decode_pixels(file: &Qoi) -> (r: Result<Vec<u8>, DecodeError>)
    ensures
        bytes_result(r) == decode_payload(file.data@, file.header.width, file.header.height),
{
    let data = file.data.as_slice();
    let mut cache = ColorCache::new();
    let mut prev = Pixel { r: 0, g: 0, b: 0, a: 255 };
    let mut pixels: Vec<u8> = Vec::new();
    let ghost mut emitted: Seq<Pixel> = seq![];
    let mut i: usize = 0;
    while i < data.len() && !at_marker(data, i)
        invariant
            data@ == file.data@,
            i <= data@.len(),
            cache.view().len() == 64,
            pixels@ == pixel_bytes(emitted),
            prepend(emitted, stream_pixels(data@, i as int, prev, cache.view())) == stream_pixels(
                data@,
                0,
                start_pixel(),
                clear_slots(),
            ),
        decreases data@.len() - i,
    {
        let ghost before = prev;
        let ghost slots = cache.view();
        let n = match decode_step(data, i, &mut prev, &cache, &mut pixels) {
            Ok(n) => n,
            Err(e) => {
                return Err(e);
            },
        };
        let ghost em = step(data@, i as int, before, slots)->Ok_0.1;
        proof {
            lemma_prepend_twice(
                emitted,
                em,
                stream_pixels(data@, i + n, prev, slots.update(hash_of(prev), prev)),
            );
            lemma_bytes_append(emitted, em);
            emitted = emitted + em;
        }
        i = i + n;
        cache.remember(prev);
    }
    assert(stream_pixels(data@, i as int, prev, cache.view()) == Ok::<Seq<Pixel>, DecodeError>(
        seq![],
    ));
    assert(emitted + seq![] =~= emitted);
    let count: u64 = (pixels.len() / 4) as u64;
    let w = file.header.width;
    let h = file.header.height;
    assert(w as int * h as int <= 0xffff_ffff * 0xffff_ffff) by (nonlinear_arith)
        requires
            w <= 0xffff_ffff,
            h <= 0xffff_ffff,
    ;
    let total: u64 = w as u64 * h as u64;
    if count < total {
        return Err(DecodeError::LengthMismatch);
    }
    pixels.truncate(total as usize * 4);
    proof {
        lemma_bytes_take(emitted, total as int);
    }
    Ok(pixels)
}

/// Decodes a whole file: header, then instruction stream.
pub fn decode(buffer: Vec<u8>) -> (r: Result<Vec<u8>, DecodeError>)
    ensures
        bytes_result(r) == decode_file(buffer@),
{
    match Qoi::new(buffer) {
        Ok(file) => decode_pixels(&file),
        Err(e) => Err(e),
    }
}

} // verus!
