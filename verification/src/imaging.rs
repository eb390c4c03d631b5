//! Decoding and scaling pictures.
use vstd::prelude::*;

verus! {

/// The name of what decoding an encoded picture gives on the machine at hand:
/// its width, its height and its pixels as RGBA bytes, or the reason why it
/// cannot be decoded. The JPEG decoder chooses among variants of its code by the
/// features of the processor; that two machines give the same pixels is not
/// claimed.
pub uninterp spec fn decoded(data: Seq<u8>) -> Result<(u32, u32, Seq<u8>), Seq<char>>;

/// Trusted: `image::load_from_memory`, with the picture turned into RGBA of
/// eight bits. There are four bytes for each pixel. Nothing is claimed of whether
/// the decoders of all formats give an error, and do not panic, on every
/// malformed picture: their sources do not settle it.
#[verifier::external_body]
pub(crate) fn decode_rgba(data: &[u8]) -> (r: Result<(u32, u32, Vec<u8>), String>)
    ensures
        match r {
            Ok((w, h, rgba)) => {
                &&& decoded(data@) == Ok::<(u32, u32, Seq<u8>), Seq<char>>((w, h, rgba@))
                &&& rgba@.len() == 4 * w * h
            },
            Err(e) => decoded(data@) == Err::<(u32, u32, Seq<u8>), Seq<char>>(e@),
        },
{
    let img = image::load_from_memory(data).map_err(|e| e.to_string())?.to_rgba8();
    let (width, height) = img.dimensions();
    Ok((width, height, img.into_raw()))
}

/// The name of what scaling RGBA pixels with a triangle filter gives.
pub uninterp spec fn scaled(w: u32, h: u32, rgba: Seq<u8>, nw: u32, nh: u32) -> Seq<u8>;

/// Trusted: `image::imageops::resize` with `FilterType::Triangle`, on the
/// picture that `image::RgbaImage::from_raw` makes of the pixels. That one
/// refuses exactly the buffers that are too small for the picture. The
/// conditions keep the picture and the weights that are made on the way within
/// what one allocation may hold, and the new picture so small that in single
/// precision each of its pixels still weighs one of the old.
#[verifier::external_body]
pub(crate) fn scale_rgba(w: u32, h: u32, rgba: Vec<u8>, nw: u32, nh: u32) -> (r: Option<Vec<u8>>)
    requires
        nw <= 0xffff,
        nh <= 0xffff,
        16 * w <= isize::MAX,
        16 * h <= isize::MAX,
        16 * w * nh <= isize::MAX,
        16 * nw * nh <= isize::MAX,
    ensures
        r is Some <==> rgba@.len() >= 4 * w * h,
        r matches Some(out) ==> out@ == scaled(w, h, rgba@, nw, nh) && out@.len() == 4 * nw * nh,
{
    let img = image::RgbaImage::from_raw(w, h, rgba)?;
    let thumb = image::imageops::resize(&img, nw, nh, image::imageops::FilterType::Triangle);
    Some(thumb.into_raw())
}

} // verus!
