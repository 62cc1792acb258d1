//! Compression and text encoding of the pixel data.

use vstd::prelude::*;

verus! {

/// The PNG file that the encoder produces for RGB8 pixel data of the given
/// dimensions at its best compression level, or `None` where it refuses them.
pub uninterp spec fn png_image(pixels: Seq<u8>, width: u32, height: u32) -> Option<Seq<u8>>;

/// The MIME flavour of base64 of a byte string: the standard alphabet, `=`
/// padding, and a line break after every 76 characters.
pub uninterp spec fn base64_mime(bytes: Seq<u8>) -> Seq<char>;

/// The longest input that the base64 encoder accepts.
pub open spec fn max_encodable() -> int {
    (usize::MAX / 512) as int
}

/// Runs `png::Encoder` (`new`, `set_color`, `set_depth`, `set_compression`,
/// `write_header`) and `png::Writer::write_image_data` on an in-memory sink.
///
/// Trusted: the encoder is a function of the pixels and the dimensions alone.
/// It fails when a dimension is zero or the data is not exactly three bytes
/// per pixel, and on nothing else: its other errors are those of the sink,
/// and a vector in memory gives none.
#[verifier::external_body]
pub(crate) fn png_encode(pixels: &Vec<u8>, width: u32, height: u32) -> (res: Result<
    Vec<u8>,
    png::EncodingError,
>)
    requires
        width * height * 3 <= usize::MAX,
    ensures
        match res {
            Ok(png) => png_image(pixels@, width, height) == Some(png@),
            Err(_) => png_image(pixels@, width, height) is None,
        },
        res.is_ok() == (width > 0 && height > 0 && pixels@.len() == width * height * 3),
{
    let mut out = Vec::<u8>::new();
    {
        let mut encoder = png::Encoder::new(std::io::Cursor::new(&mut out), width, height);
        encoder.set_color(png::ColorType::Rgb);
        encoder.set_depth(png::BitDepth::Eight);
        encoder.set_compression(png::Compression::Best);
        let mut writer = encoder.write_header()?;
        writer.write_image_data(pixels.as_slice())?;
    }
    Ok(out)
}

/// Calls `data_encoding::Encoding::encode` on `BASE64_MIME`.
///
/// Trusted: the text is a function of the bytes alone, and it holds no double
/// quote (only the base64 alphabet, `=`, carriage return and line feed).
#[verifier::external_body]
pub(crate) fn base64_mime_encode(bytes: &Vec<u8>) -> (res: String)
    requires
        bytes@.len() <= max_encodable(),
    ensures
        res@ == base64_mime(bytes@),
        !res@.contains('"'),
{
    data_encoding::BASE64_MIME.encode(bytes.as_slice())
}

} // verus!
