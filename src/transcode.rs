//! Icon payloads: raster bytes encoded as base64 text for the interface.
//! The embedded codec is tried first; the caller's external conversion and,
//! last of all, the raw source bytes are the fallbacks.
use vstd::prelude::*;

verus! {

/// The PNG encoding of the image that `b` decodes to, if it decodes.
pub uninterp spec fn png_of(b: Seq<u8>) -> Option<Seq<u8>>;

/// Standard base64 text (with padding) of `b`.
pub uninterp spec fn base64_of(b: Seq<u8>) -> Seq<char>;

/// Largest input the encoder takes; above it the encoded length overflows.
pub open spec fn encodable(n: nat) -> bool {
    n <= usize::MAX / 2
}

/// Relies on `image::load_from_memory` and `DynamicImage::write_to` with
/// `ImageFormat::Png`: the image is decoded by guessing its format from the
/// bytes, then written out as PNG in memory; `None` when either step fails.
#[verifier::external_body]
fn reencode_png(bytes: &[u8]) -> (r: Option<Vec<u8>>)
    ensures
        r.is_some() == png_of(bytes@).is_some(),
        r.is_some() ==> r->0@ == png_of(bytes@)->0,
{
    let img = image::load_from_memory(bytes).ok()?;
    let mut out = std::io::Cursor::new(Vec::new());
    img.write_to(&mut out, image::ImageFormat::Png).ok()?;
    Some(out.into_inner())
}

/// Relies on `base64::encode` (the standard alphabet, padded): four characters
/// for each started group of three bytes. It panics only when that length
/// overflows `usize`.
#[verifier::external_body]
fn encode_base64(b: &[u8]) -> (r: String)
    requires
        encodable(b@.len()),
    ensures
        r@ == base64_of(b@),
        r@.len() == 4 * ((b@.len() + 2) / 3),
{
    #[allow(deprecated)]
    base64::encode(b)
}

/// The payload from the embedded codec: the base64 text of the PNG that the
/// icon bytes re-encode to, or `None` when the codec cannot decode them.
pub fn embedded_payload(data: &Vec<u8>) -> (r: Option<String>)
    ensures
        r.is_some() == (png_of(data@).is_some() && encodable(png_of(data@)->0.len())),
        r.is_some() ==> r->0@ == base64_of(png_of(data@)->0),
{
    match reencode_png(data.as_slice()) {
        Some(png) => {
            if png.len() <= usize::MAX / 2 {
                Some(encode_base64(png.as_slice()))
            } else {
                None
            }
        },
        None => None,
    }
}

/// The bytes that the fallback encodes: the externally converted image when
/// there is one, else the source bytes themselves.
pub open spec fn fallback_bytes(data: Seq<u8>, converted: Option<Seq<u8>>) -> Seq<u8> {
    match converted {
        Some(c) => c,
        None => data,
    }
}

/// The payload when the embedded codec failed: the base64 text of the
/// externally converted image, or of the raw source bytes when the external
/// conversion gave nothing. Non-empty whenever the encoded bytes are.
pub fn fallback_payload(data: &Vec<u8>, converted: &Option<Vec<u8>>) -> (r: String)
    requires
        encodable(data@.len()),
        converted.is_some() ==> encodable(converted->0@.len()),
    ensures
        r@ == base64_of(
            fallback_bytes(
                data@,
                match converted {
                    Some(c) => Some(c@),
                    None => None,
                },
            ),
        ),
        fallback_bytes(
            data@,
            match converted {
                Some(c) => Some(c@),
                None => None,
            },
        ).len() > 0 ==> r@.len() > 0,
{
    match converted {
        Some(c) => encode_base64(c.as_slice()),
        None => encode_base64(data.as_slice()),
    }
}

} // verus!
