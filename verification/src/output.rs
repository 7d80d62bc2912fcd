//! What leaves the console: frames as 8-bit RGB and as PNG images, a count
//! of a frame's distinct colours, and audio as a WAV image.

use vstd::prelude::*;

verus! {

/// One RGB555 colour channel widened to 8 bits.
pub open spec fn channel8(p: u16, shift: u16) -> u8 {
    (((p >> shift) & 0x1F) << 3) as u8
}

/// The 8-bit RGB bytes of an RGB555 frame: red, green, blue per pixel.
pub open spec fn rgb8_of(fb: Seq<u16>) -> Seq<u8> {
    Seq::new(
        3 * fb.len(),
        |k: int|
            {
                let p = fb[k / 3];
                if k % 3 == 0 {
                    channel8(p, 0)
                } else if k % 3 == 1 {
                    channel8(p, 5)
                } else {
                    channel8(p, 10)
                }
            },
    )
}

/// Convert an RGB555 frame to 8-bit RGB (each channel shifted up by 3).
pub fn rgb555_to_rgb8(fb: &[u16]) -> (rgb: Vec<u8>)
    requires
        3 * fb@.len() <= usize::MAX,
    ensures
        rgb@ == rgb8_of(fb@),
{
    let mut rgb: Vec<u8> = Vec::new();
    let mut i: usize = 0;
    while i < fb.len()
        invariant
            i <= fb@.len(),
            3 * fb@.len() <= usize::MAX,
            rgb@ == rgb8_of(fb@.subrange(0, i as int)),
        decreases fb@.len() - i,
    {
        let p = fb[i];
        rgb.push(((p & 0x1F) << 3) as u8);
        rgb.push((((p >> 5) & 0x1F) << 3) as u8);
        rgb.push((((p >> 10) & 0x1F) << 3) as u8);
        proof {
            crate::bits::lemma_u16_bits(p, 0);
        }
        i = i + 1;
        assert(rgb@ =~= rgb8_of(fb@.subrange(0, i as int)));
    }
    assert(fb@.subrange(0, fb@.len() as int) =~= fb@);
    rgb
}

/// How many distinct values `s` holds.
pub open spec fn distinct_count(s: Seq<u16>) -> nat
    decreases s.len(),
{
    if s.len() == 0 {
        0
    } else {
        distinct_count(s.drop_last()) + if s.drop_last().contains(s.last()) { 0nat } else { 1nat }
    }
}

/// The number of distinct colours in a frame.
pub fn distinct_colours(fb: &[u16]) -> (n: usize)
    ensures
        n == distinct_count(fb@),
{
    let mut seen: Vec<bool> = Vec::new();
    while seen.len() < 0x1_0000
        invariant
            seen@.len() <= 0x1_0000,
            forall|v: int| 0 <= v < seen@.len() ==> !seen@[v],
        decreases 0x1_0000 - seen@.len(),
    {
        seen.push(false);
    }
    let mut n: usize = 0;
    let mut i: usize = 0;
    while i < fb.len()
        invariant
            i <= fb@.len(),
            seen@.len() == 0x1_0000,
            n <= i,
            n == distinct_count(fb@.subrange(0, i as int)),
            forall|v: u16| #[trigger] seen@[v as int] == fb@.subrange(0, i as int).contains(v),
        decreases fb@.len() - i,
    {
        let p = fb[i];
        let ghost before = fb@.subrange(0, i as int);
        let ghost after = fb@.subrange(0, i as int + 1);
        assert(after.drop_last() =~= before);
        assert(after.last() == p);
        if !seen[p as usize] {
            seen.set(p as usize, true);
            n = n + 1;
        }
        i = i + 1;
        assert forall|v: u16| #[trigger] seen@[v as int] == after.contains(v) by {
            if after.contains(v) && v != p {
                let j = choose|j: int| 0 <= j < after.len() && after[j] == v;
                assert(before[j] == v);
            }
            if v == p {
                assert(after[after.len() - 1] == p);
            }
        }
    }
    assert(fb@.subrange(0, fb@.len() as int) =~= fb@);
    n
}

/// The PNG image (8-bit RGB, default encoder settings) that the png crate
/// writes for `rgb`, `width` x `height`.
pub uninterp spec fn png_rgb8(width: u32, height: u32, rgb: Seq<u8>) -> Seq<u8>;

/// Why an image could not be encoded.
#[derive(Clone, Copy, Debug, PartialEq, Eq, Structural)]
pub enum PngError {
    Io,
    Format,
    Parameter,
    LimitsExceeded,
}

/// Encode 8-bit RGB pixels as a PNG image into memory with `png::Encoder`
/// (`write_header`, then `Writer::write_image_data`; dropping the writer
/// appends the end chunk). The contract claims: an image comes back only as
/// the name [`png_rgb8`] of the inputs; a zero width or height is an error
/// (the header check), and any other size succeeds: RGB at depth 8 is a
/// valid combination, the pixel buffer has the size the `requires` fixes,
/// and writing into a `Vec` does not fail.
#[verifier::external_body]
fn png_encode_rgb8(width: u32, height: u32, rgb: &[u8]) -> (r: Result<Vec<u8>, PngError>)
    requires
        rgb@.len() == 3 * width * height,
    ensures
        r matches Ok(bytes) ==> bytes@ == png_rgb8(width, height, rgb@),
        width == 0 || height == 0 ==> r is Err,
        width > 0 && height > 0 ==> r is Ok,
{
    let mut out: Vec<u8> = Vec::new();
    let mut enc = png::Encoder::new(&mut out, width, height);
    enc.set_color(png::ColorType::Rgb);
    enc.set_depth(png::BitDepth::Eight);
    let written = match enc.write_header() {
        Ok(mut w) => w.write_image_data(rgb),
        Err(e) => Err(e),
    };
    match written {
        Ok(()) => Ok(out),
        Err(png::EncodingError::IoError(_)) => Err(PngError::Io),
        Err(png::EncodingError::Format(_)) => Err(PngError::Format),
        Err(png::EncodingError::Parameter(_)) => Err(PngError::Parameter),
        Err(png::EncodingError::LimitsExceeded) => Err(PngError::LimitsExceeded),
    }
}

/// A frame (`crate::ppu::SCREEN_W` x `crate::ppu::SCREEN_H` RGB555 pixels)
/// as a PNG image of its 8-bit RGB conversion.
pub fn frame_png(fb: &[u16]) -> (r: Result<Vec<u8>, PngError>)
    requires
        fb@.len() == crate::ppu::SCREEN_W * crate::ppu::SCREEN_H,
    ensures
        r is Ok,
        r matches Ok(bytes) ==> bytes@ == png_rgb8(
            crate::ppu::SCREEN_W as u32,
            crate::ppu::SCREEN_H as u32,
            rgb8_of(fb@),
        ),
{
    let rgb = rgb555_to_rgb8(fb);
    png_encode_rgb8(crate::ppu::SCREEN_W as u32, crate::ppu::SCREEN_H as u32, rgb.as_slice())
}

/// The bytes of the little-endian 16-bit samples.
pub open spec fn pcm_bytes(samples: Seq<i16>) -> Seq<u8> {
    Seq::new(2 * samples.len(), |k: int| crate::state::le16(samples[k / 2] as u16)[k % 2])
}

/// A 16-bit stereo PCM WAV image of interleaved samples at `rate` Hz: the
/// RIFF header, a 16-byte `fmt ` chunk (PCM, 2 channels, `rate`, `4 * rate`
/// bytes per second, 4-byte frames, 16 bits), then the `data` chunk.
pub open spec fn wav_image(samples: Seq<i16>, rate: u32) -> Seq<u8> {
    let data_len = (2 * samples.len()) as u32;
    seq![0x52u8, 0x49, 0x46, 0x46] + crate::state::le32((36 + data_len) as u32) + seq![0x57u8, 0x41, 0x56, 0x45]
        + seq![0x66u8, 0x6D, 0x74, 0x20] + crate::state::le32(16) + crate::state::le16(1) + crate::state::le16(2)
        + crate::state::le32(rate) + crate::state::le32((4 * rate) as u32) + crate::state::le16(4)
        + crate::state::le16(16) + seq![0x64u8, 0x61, 0x74, 0x61] + crate::state::le32(data_len) + pcm_bytes(samples)
}

/// Encode interleaved stereo samples as a WAV image.
pub fn wav_bytes(samples: &[i16], rate: u32) -> (out: Vec<u8>)
    requires
        36 + 2 * samples@.len() <= u32::MAX,
        4 * rate <= u32::MAX,
    ensures
        out@ == wav_image(samples@, rate),
{
    let data_len = (samples.len() * 2) as u32;
    let mut w = crate::state::Writer { buf: Vec::new() };
    w.u8(0x52);
    w.u8(0x49);
    w.u8(0x46);
    w.u8(0x46);
    w.u32(36 + data_len);
    w.u8(0x57);
    w.u8(0x41);
    w.u8(0x56);
    w.u8(0x45);
    w.u8(0x66);
    w.u8(0x6D);
    w.u8(0x74);
    w.u8(0x20);
    w.u32(16);
    w.u16(1);
    w.u16(2);
    w.u32(rate);
    w.u32(rate * 4);
    w.u16(4);
    w.u16(16);
    w.u8(0x64);
    w.u8(0x61);
    w.u8(0x74);
    w.u8(0x61);
    w.u32(data_len);
    let ghost head = w.buf@;
    let mut i: usize = 0;
    while i < samples.len()
        invariant
            i <= samples@.len(),
            w.buf@ == head + pcm_bytes(samples@.subrange(0, i as int)),
        decreases samples@.len() - i,
    {
        w.u16(samples[i] as u16);
        i = i + 1;
        assert(w.buf@ =~= head + pcm_bytes(samples@.subrange(0, i as int)));
    }
    assert(samples@.subrange(0, samples@.len() as int) =~= samples@);
    assert(w.buf@ =~= wav_image(samples@, rate));
    w.buf
}

} // verus!
