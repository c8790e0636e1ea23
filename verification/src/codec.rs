//! The byte form of a video: a fixed binary layout, written and read
//! byte-exactly.
//!
//! Layout, with multi-byte fields big-endian: a six-byte marker, then width
//! (4 bytes), height (4 bytes), frame count (4 bytes), frame rate (1 byte),
//! then `frame_count * width * height` RGB triplets, frames concatenated in
//! append order.

use vstd::prelude::*;

use crate::color::ColorU8;
use crate::video::{Video, VideoError, VideoModel};
use vstd::arithmetic::div_mod::{
    lemma_div_by_multiple, lemma_fundamental_div_mod, lemma_mod_multiples_basic,
};
use vstd::arithmetic::mul::{lemma_mul_strictly_positive, lemma_mul_upper_bound};

verus! {

/// The six-byte marker that opens every container.
pub open spec fn magic() -> Seq<u8> {
    seq![0x73u8, 0x69u8, 0x6du8, 0x76u8, 0x69u8, 0x64u8]
}

/// A 32-bit value as four big-endian bytes.
pub open spec fn be32(x: u32) -> Seq<u8> {
    seq![(x >> 24) as u8, (x >> 16) as u8, (x >> 8) as u8, x as u8]
}

/// The 32-bit value of four big-endian bytes.
pub open spec fn be32_val(b0: u8, b1: u8, b2: u8, b3: u8) -> u32 {
    ((b0 as u32) << 24) | ((b1 as u32) << 16) | ((b2 as u32) << 8) | (b3 as u32)
}

/// Pixels flattened to bytes: each pixel contributes its red, green and blue
/// bytes in order.
pub open spec fn pixel_bytes(s: Seq<ColorU8>) -> Seq<u8>
    decreases s.len(),
{
    if s.len() == 0 {
        Seq::empty()
    } else {
        pixel_bytes(s.drop_last()) + seq![s.last().r, s.last().g, s.last().b]
    }
}

/// Bytes grouped back into pixels, three at a time.
pub open spec fn pixels_of(s: Seq<u8>) -> Seq<ColorU8>
    decreases s.len(),
{
    if s.len() < 3 {
        Seq::empty()
    } else {
        pixels_of(s.take(s.len() - 3)).push(
            ColorU8 { r: s[s.len() - 3], g: s[s.len() - 2], b: s[s.len() - 1] },
        )
    }
}

/// The exact byte form of a video.
pub open spec fn spec_write_video(m: VideoModel) -> Seq<u8> {
    magic() + be32(m.width) + be32(m.height) + be32(m.frame_count() as u32) + seq![m.fps]
        + pixel_bytes(m.pixels)
}

/// What reading a byte form yields: the decoded video, or the first failure
/// the byte-by-byte read meets.
pub open spec fn spec_read_video(s: Seq<u8>) -> Result<VideoModel, VideoError> {
    if s.len() < 6 {
        Err(VideoError::Truncated)
    } else if s.subrange(0, 6) != magic() {
        Err(VideoError::InvalidFormat)
    } else if s.len() < 10 {
        Err(VideoError::Truncated)
    } else if be32_val(s[6], s[7], s[8], s[9]) == 0 {
        Err(VideoError::InvalidDimensions)
    } else if s.len() < 14 {
        Err(VideoError::Truncated)
    } else if be32_val(s[10], s[11], s[12], s[13]) == 0 {
        Err(VideoError::InvalidDimensions)
    } else if s.len() < 19 {
        Err(VideoError::Truncated)
    } else if s[18] == 0 {
        Err(VideoError::InvalidDimensions)
    } else if s.len() < 19 + 3 * (be32_val(s[14], s[15], s[16], s[17]) as int) * (be32_val(
        s[6],
        s[7],
        s[8],
        s[9],
    ) as int) * (be32_val(s[10], s[11], s[12], s[13]) as int) {
        Err(VideoError::Truncated)
    } else {
        Ok(
            VideoModel {
                width: be32_val(s[6], s[7], s[8], s[9]),
                height: be32_val(s[10], s[11], s[12], s[13]),
                fps: s[18],
                pixels: pixels_of(
                    s.subrange(
                        19,
                        19 + 3 * (be32_val(s[14], s[15], s[16], s[17]) as int) * (be32_val(
                            s[6],
                            s[7],
                            s[8],
                            s[9],
                        ) as int) * (be32_val(s[10], s[11], s[12], s[13]) as int),
                    ),
                ),
            },
        )
    }
}

/// Flattened pixels take three bytes each.
pub proof fn lemma_pixel_bytes_len(s: Seq<ColorU8>)
    ensures
        pixel_bytes(s).len() == 3 * s.len(),
    decreases s.len(),
{
    if s.len() > 0 {
        lemma_pixel_bytes_len(s.drop_last());
    }
}

/// Grouping the flattened bytes of a pixel sequence yields that sequence.
pub proof fn lemma_pixels_of_pixel_bytes(s: Seq<ColorU8>)
    ensures
        pixels_of(pixel_bytes(s)) == s,
    decreases s.len(),
{
    if s.len() == 0 {
        assert(pixels_of(pixel_bytes(s)) =~= s);
    } else {
        let pb = pixel_bytes(s);
        let pbd = pixel_bytes(s.drop_last());
        lemma_pixel_bytes_len(s);
        lemma_pixel_bytes_len(s.drop_last());
        assert(pb.take(pb.len() - 3) =~= pbd);
        lemma_pixels_of_pixel_bytes(s.drop_last());
        assert(pb[pb.len() - 3] == s.last().r);
        assert(pb[pb.len() - 2] == s.last().g);
        assert(pb[pb.len() - 1] == s.last().b);
        assert(pixels_of(pb) =~= s);
    }
}

/// Decoding the four big-endian bytes of a value gives the value back.
proof fn lemma_be32_round_trip(x: u32)
    ensures
        be32_val((x >> 24) as u8, (x >> 16) as u8, (x >> 8) as u8, x as u8) == x,
{
    assert((((((x >> 24) as u8) as u32) << 24) | ((((x >> 16) as u8) as u32) << 16) | ((((x >> 8)
        as u8) as u32) << 8) | ((x as u8) as u32)) == x) by (bit_vector);
}

/// Appends the four big-endian bytes of `x`.
fn push_be32(out: &mut Vec<u8>, x: u32)
    ensures
        final(out)@ == old(out)@ + be32(x),
{
    out.push(#[verifier::truncate] ((x >> 24) as u8));
    out.push(#[verifier::truncate] ((x >> 16) as u8));
    out.push(#[verifier::truncate] ((x >> 8) as u8));
    out.push(#[verifier::truncate] (x as u8));
    proof {
        assert(out@ =~= old(out)@ + be32(x));
    }
}

/// Reads four big-endian bytes at `off`.
fn read_u32_be(bytes: &[u8], off: usize) -> (x: u32)
    requires
        off + 4 <= bytes@.len(),
    ensures
        x == be32_val(
            bytes@[off as int],
            bytes@[off as int + 1],
            bytes@[off as int + 2],
            bytes@[off as int + 3],
        ),
{
    ((bytes[off] as u32) << 24) | ((bytes[off + 1] as u32) << 16) | ((bytes[off + 2] as u32) << 8)
        | (bytes[off + 3] as u32)
}

/// Serializes a video to its exact byte form.
pub fn write_video(video: &Video) -> (out: Vec<u8>)
    requires
        video.wf(),
    ensures
        out@ == spec_write_video(video@),
{
    let mut out: Vec<u8> = Vec::new();
    out.push(0x73);
    out.push(0x69);
    out.push(0x6d);
    out.push(0x76);
    out.push(0x69);
    out.push(0x64);
    proof {
        assert(out@ =~= magic());
    }
    push_be32(&mut out, video.width());
    push_be32(&mut out, video.height());
    let count = video.frame_count();
    push_be32(&mut out, count);
    out.push(video.fps());
    let ghost header = out@;
    proof {
        assert(count == video@.frame_count() as u32);
        assert(header =~= magic() + be32(video@.width) + be32(video@.height) + be32(
            video@.frame_count() as u32,
        ) + seq![video@.fps]);
    }
    let pixels = video.pixels_vec();
    let mut i: usize = 0;
    while i < pixels.len()
        invariant
            i <= pixels@.len(),
            out@ == header + pixel_bytes(pixels@.take(i as int)),
        decreases pixels@.len() - i,
    {
        let c = pixels[i];
        out.push(c.r);
        out.push(c.g);
        out.push(c.b);
        proof {
            let s = pixels@;
            assert(s.take(i + 1).drop_last() =~= s.take(i as int));
            assert(s.take(i + 1).last() == s[i as int]);
            assert(out@ =~= header + pixel_bytes(s.take(i + 1)));
        }
        i += 1;
    }
    proof {
        assert(pixels@.take(pixels@.len() as int) =~= pixels@);
        assert(out@ =~= spec_write_video(video@));
    }
    out
}

/// Parses a byte form back into a video, validating the marker, the nonzero
/// dimensions and frame rate, and the pixel data length. Bytes after the
/// declared pixel data are ignored, as a streamed read would leave them
/// unread.
pub fn read_video(bytes: &[u8]) -> (r: Result<Video, VideoError>)
    ensures
        match r {
            Ok(v) => v.wf() && spec_read_video(bytes@) == Ok::<VideoModel, VideoError>(v@),
            Err(e) => spec_read_video(bytes@) == Err::<VideoModel, VideoError>(e),
        },
{
    if bytes.len() < 6 {
        return Err(VideoError::Truncated);
    }
    if !(bytes[0] == 0x73 && bytes[1] == 0x69 && bytes[2] == 0x6d && bytes[3] == 0x76 && bytes[4]
        == 0x69 && bytes[5] == 0x64) {
        proof {
            let s = bytes@.subrange(0, 6);
            if s == magic() {
                assert(bytes@[0] == s[0] && bytes@[1] == s[1] && bytes@[2] == s[2] && bytes@[3]
                    == s[3] && bytes@[4] == s[4] && bytes@[5] == s[5]);
                assert(false);
            }
        }
        return Err(VideoError::InvalidFormat);
    }
    proof {
        assert(bytes@.subrange(0, 6) =~= magic());
    }
    if bytes.len() < 10 {
        return Err(VideoError::Truncated);
    }
    let width = read_u32_be(bytes, 6);
    if width == 0 {
        return Err(VideoError::InvalidDimensions);
    }
    if bytes.len() < 14 {
        return Err(VideoError::Truncated);
    }
    let height = read_u32_be(bytes, 10);
    if height == 0 {
        return Err(VideoError::InvalidDimensions);
    }
    if bytes.len() < 19 {
        return Err(VideoError::Truncated);
    }
    let count = read_u32_be(bytes, 14);
    let fps = bytes[18];
    if fps == 0 {
        return Err(VideoError::InvalidDimensions);
    }
    proof {
        lemma_mul_upper_bound(count as int, u32::MAX as int, width as int, u32::MAX as int);
        lemma_mul_upper_bound(
            (count as int) * (width as int),
            (0xffffffff as int) * (0xffffffff as int),
            height as int,
            u32::MAX as int,
        );
    }
    let pixel_count: u128 = (count as u128) * (width as u128) * (height as u128);
    let needed: u128 = 3 * pixel_count;
    let avail: u128 = (bytes.len() - 19) as u128;
    proof {
        assert(3 * ((count as int) * (width as int) * (height as int)) == 3 * (count as int) * (
        width as int) * (height as int)) by (nonlinear_arith);
    }
    if avail < needed {
        return Err(VideoError::Truncated);
    }
    let n_pixels: usize = pixel_count as usize;
    proof {
        vstd::slice::axiom_spec_len(bytes);
    }
    let mut pixels: Vec<ColorU8> = Vec::new();
    let mut i: usize = 0;
    while i < n_pixels
        invariant
            i <= n_pixels,
            bytes@.len() <= usize::MAX,
            bytes@.len() >= 19 + 3 * (n_pixels as int),
            pixels@ == pixels_of(bytes@.subrange(19, 19 + 3 * (i as int))),
            pixels@.len() == i,
        decreases n_pixels - i,
    {
        let off: usize = 19 + 3 * i;
        let c = ColorU8 { r: bytes[off], g: bytes[off + 1], b: bytes[off + 2] };
        pixels.push(c);
        proof {
            let s = bytes@.subrange(19, 19 + 3 * (i as int) + 3);
            assert(s.take(s.len() - 3) =~= bytes@.subrange(19, 19 + 3 * (i as int)));
            assert(s[s.len() - 3] == bytes@[19 + 3 * (i as int)]);
            assert(s[s.len() - 2] == bytes@[19 + 3 * (i as int) + 1]);
            assert(s[s.len() - 1] == bytes@[19 + 3 * (i as int) + 2]);
            assert(pixels@ =~= pixels_of(bytes@.subrange(19, 19 + 3 * (i + 1))));
        }
        i += 1;
    }
    let v = Video::from_parts(width, height, fps, pixels);
    proof {
        let fl = (width as int) * (height as int);
        lemma_mul_strictly_positive(width as int, height as int);
        assert((count as int) * (width as int) * (height as int) == (count as int) * ((width
            as int) * (height as int))) by (nonlinear_arith);
        lemma_mod_multiples_basic(count as int, fl);
        lemma_div_by_multiple(count as int, fl);
        assert(v.wf());
        assert(spec_read_video(bytes@) == Ok::<VideoModel, VideoError>(v@)) by {
            assert(v@ =~= (VideoModel {
                width,
                height,
                fps,
                pixels: pixels_of(
                    bytes@.subrange(
                        19,
                        19 + 3 * (count as int) * (width as int) * (height as int),
                    ),
                ),
            }));
        }
    }
    Ok(v)
}

/// Reading back the byte form of a well-formed video yields that video: the
/// codec round-trips exactly.
pub proof fn lemma_write_read_round_trip(m: VideoModel)
    requires
        m.wf(),
    ensures
        spec_read_video(spec_write_video(m)) == Ok::<VideoModel, VideoError>(m),
{
    let s = spec_write_video(m);
    lemma_pixel_bytes_len(m.pixels);
    let count = m.frame_count() as u32;
    assert(s.len() == 19 + 3 * m.pixels.len());
    assert(s.subrange(0, 6) =~= magic());
    assert(s[6] == (m.width >> 24) as u8 && s[7] == (m.width >> 16) as u8 && s[8] == (m.width >> 8)
        as u8 && s[9] == m.width as u8);
    assert(s[10] == (m.height >> 24) as u8 && s[11] == (m.height >> 16) as u8 && s[12] == (m.height
        >> 8) as u8 && s[13] == m.height as u8);
    assert(s[14] == (count >> 24) as u8 && s[15] == (count >> 16) as u8 && s[16] == (count >> 8)
        as u8 && s[17] == count as u8);
    assert(s[18] == m.fps);
    lemma_be32_round_trip(m.width);
    lemma_be32_round_trip(m.height);
    lemma_be32_round_trip(count);
    let fl = m.frame_len();
    lemma_mul_strictly_positive(m.width as int, m.height as int);
    lemma_fundamental_div_mod(m.pixels.len() as int, fl);
    assert(m.pixels.len() as int == fl * (count as int));
    assert(3 * (count as int) * (m.width as int) * (m.height as int) == 3 * ((m.width as int) * (
    m.height as int) * (count as int))) by (nonlinear_arith);
    assert(s.len() >= 19 + 3 * (count as int) * (m.width as int) * (m.height as int));
    assert(s.subrange(19, 19 + 3 * (count as int) * (m.width as int) * (m.height as int)) =~= pixel_bytes(
        m.pixels,
    ));
    lemma_pixels_of_pixel_bytes(m.pixels);
    assert(spec_read_video(s) == Ok::<VideoModel, VideoError>(m)) by {
        assert(be32_val(s[6], s[7], s[8], s[9]) == m.width);
        assert(be32_val(s[10], s[11], s[12], s[13]) == m.height);
        assert(be32_val(s[14], s[15], s[16], s[17]) == count);
        assert(spec_read_video(s) is Ok);
        assert(spec_read_video(s)->Ok_0 =~= m);
    }
}

} // verus!
