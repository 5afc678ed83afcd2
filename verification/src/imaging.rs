use crate::text::{i64_to_string, int_str};
use vstd::prelude::*;
use vstd::string::StrSliceExecFns;
use vstd::string::StringExecFns;

verus! {

/// The PNG stream that the encoder produces for an RGBA buffer of the given
/// dimensions. Lossless: decoding it yields the exact input bytes back.
pub uninterp spec fn png_bytes_of(rgba: Seq<u8>, width: int, height: int) -> Seq<u8>;

/// An RGBA buffer is consistent with its claimed dimensions: four bytes per
/// pixel, and each dimension within the encoder's 32-bit limit.
pub open spec fn rgba_dims_ok(len: int, width: int, height: int) -> bool {
    &&& len == width * height * 4
    &&& width <= u32::MAX
    &&& height <= u32::MAX
}

/// Relies on `image::RgbaImage::from_raw` and `DynamicImage::write_to` with
/// `ImageFormat::Png`: a lossless PNG stream that is a function of the
/// buffer and dimensions alone. With an exact-length buffer `from_raw`
/// always succeeds, the PNG encoder rejects only zero dimensions, and the
/// in-memory write cannot otherwise fail, so encoding is owed whenever
/// both dimensions are non-zero.
#[verifier::external_body]
fn png_encode(bytes: &[u8], width: u32, height: u32) -> (r: Option<Vec<u8>>)
    requires
        bytes@.len() == width * height * 4,
    ensures
        width > 0 && height > 0 ==> r is Some,
        r is Some ==> r->0@ == png_bytes_of(bytes@, width as int, height as int),
{
    let img = match image::RgbaImage::from_raw(width, height, bytes.to_vec()) {
        Some(i) => i,
        None => return None,
    };
    let mut out = std::io::Cursor::new(Vec::new());
    match image::DynamicImage::ImageRgba8(img).write_to(&mut out, image::ImageFormat::Png) {
        Ok(()) => Some(out.into_inner()),
        Err(_) => None,
    }
}

/// Encodes a flat RGBA buffer into a PNG stream for disk storage.
///
/// A buffer whose length does not equal `width * height * 4`, or whose
/// dimensions overflow the encoder's limits, is rejected: nothing is
/// encoded and `None` comes back. A consistent buffer with both
/// dimensions non-zero always encodes.
pub fn encode_rgba_to_png(bytes: &[u8], width: usize, height: usize) -> (r: Option<Vec<u8>>)
    ensures
        !rgba_dims_ok(bytes@.len() as int, width as int, height as int) ==> r is None,
        rgba_dims_ok(bytes@.len() as int, width as int, height as int) && width >= 1 && height
            >= 1 ==> r is Some,
        r is Some ==> rgba_dims_ok(bytes@.len() as int, width as int, height as int) && r->0@
            == png_bytes_of(bytes@, width as int, height as int),
{
    if width as u128 > u32::MAX as u128 || height as u128 > u32::MAX as u128 {
        return None;
    }
    proof {
        assert((width as int) * (height as int) * 4 <= 0xffffffff * 0xffffffff * 4)
            by (nonlinear_arith)
            requires
                0 <= width as int <= 0xffffffff,
                0 <= height as int <= 0xffffffff,
        ;
    }
    let expected: u128 = (width as u128) * (height as u128) * 4;
    if (bytes.len() as u128) != expected {
        return None;
    }
    png_encode(bytes, width as u32, height as u32)
}

/// The stored filename for a captured image: the capture timestamp in
/// nanoseconds, an underscore, the first 12 characters of the digest, and
/// the format suffix.
pub open spec fn image_filename_spec(ts: int, hash: Seq<char>) -> Seq<char> {
    let prefix = if hash.len() <= 12 {
        hash
    } else {
        hash.take(12)
    };
    int_str(ts) + seq!['_'] + prefix + ".png"@
}

/// Builds the stored filename: timestamp first for chronological listing,
/// then a digest prefix against collisions between simultaneous captures.
pub fn build_image_filename(timestamp_nanos: i64, hash: &str) -> (r: String)
    ensures
        r@ == image_filename_spec(timestamp_nanos as int, hash@),
{
    let mut s = i64_to_string(timestamp_nanos);
    proof {
        reveal_strlit("_");
        reveal_strlit(".png");
    }
    s.append("_");
    let l = hash.unicode_len();
    let take: usize = if l <= 12 {
        l
    } else {
        12
    };
    let prefix = hash.substring_char(0, take);
    s.append(prefix);
    s.append(".png");
    proof {
        assert(hash@.take(hash@.len() as int) =~= hash@);
        assert(s@ =~= image_filename_spec(timestamp_nanos as int, hash@));
    }
    s
}

} // verus!
