//! The background picture: checked once when its file is read, then decoded and scaled to
//! cover the overlay each time it is drawn.
use vstd::prelude::*;
use crate::color::Rgb;
use crate::ui::{copied_len, copy_swizzled, fill_byte, fill_solid, swizzled};

verus! {

/// A background picture: the bytes of its file, which decode to a picture of `width` by
/// `height` pixels. It is kept encoded, and decoded anew each time it is scaled, so that the
/// scaling works on the picture in the format it was stored in.
#[derive(Debug, Clone)]
pub struct Picture {
    pub encoded: Vec<u8>,
    pub width: u32,
    pub height: u32,
}

impl Picture {
    /// The bytes decode to a picture of the recorded size.
    pub open spec fn wf(self) -> bool {
        decoded_size(self.encoded@) == Some((self.width, self.height))
    }

    /// The picture can be scaled: its bytes decode to it, and it has at least one pixel.
    pub open spec fn scalable(self) -> bool {
        &&& self.wf()
        &&& self.width >= 1
        &&& self.height >= 1
    }
}

/// The size of the picture that the `image` crate decodes from the bytes of a file; nothing
/// when the bytes are no picture it reads.
pub uninterp spec fn decoded_size(bytes: Seq<u8>) -> Option<(u32, u32)>;

/// What the `image` crate makes of the picture decoded from `bytes`, scaled with a triangle
/// filter to cover `to_width` by `to_height`, cropped to that size and converted to 8-bit
/// RGBA: its bytes, row by row.
pub uninterp spec fn filled_image(bytes: Seq<u8>, to_width: u32, to_height: u32) -> Seq<u8>;

/// The size of a decoded picture, or nothing.
pub open spec fn size_view(r: Result<(u32, u32), String>) -> Option<(u32, u32)> {
    match r {
        Ok(sz) => Some(sz),
        Err(_) => None,
    }
}

/// Decodes `bytes` with `image::ImageReader::with_guessed_format` and `decode`, and gives the
/// size of the picture with `DynamicImage::width` and `height`, or the error's text. The
/// contract claims that the answer is a fixed function of the bytes, `decoded_size`; which
/// bytes decode, and the text of the error, are not stated.
#[verifier::external_body]
fn decode_size(bytes: &[u8]) -> (r: Result<(u32, u32), String>)
    ensures
        size_view(r) == decoded_size(bytes@),
{
    let reader = match image::ImageReader::new(std::io::Cursor::new(bytes)).with_guessed_format() {
        Ok(reader) => reader,
        Err(e) => return Err(e.to_string()),
    };
    match reader.decode() {
        Ok(decoded) => Ok((decoded.width(), decoded.height())),
        Err(e) => Err(e.to_string()),
    }
}

/// Decodes `bytes` as `decode_size` does, scales the picture with
/// `DynamicImage::resize_to_fill` and the triangle filter, converts the result with
/// `to_rgba8` and takes its buffer with `into_raw`. The bytes decode, as `requires` says, so
/// the error arm is never taken. The contract claims only that the answer is a fixed function
/// of the arguments, `filled_image`. Its length is not stated: `resize_to_fill` computes the
/// intermediate size in floating point and crops within it.
#[verifier::external_body]
fn fill_image(bytes: &Vec<u8>, to_width: u32, to_height: u32) -> (r: Vec<u8>)
    requires
        decoded_size(bytes@) matches Some((w, h)) && w >= 1 && h >= 1,
        to_width >= 1,
        to_height >= 1,
    ensures
        r@ == filled_image(bytes@, to_width, to_height),
{
    let reader = match image::ImageReader::new(std::io::Cursor::new(bytes.as_slice())).with_guessed_format() {
        Ok(reader) => reader,
        Err(_) => return Vec::new(),
    };
    match reader.decode() {
        Ok(picture) => picture
            .resize_to_fill(to_width, to_height, image::imageops::FilterType::Triangle)
            .to_rgba8()
            .into_raw(),
        Err(_) => Vec::new(),
    }
}

/// Read the bytes of a picture file as the background. Bytes that do not decode are refused;
/// a picture without pixels is kept as it is.
pub fn decode_picture(bytes: &[u8]) -> (r: Result<Picture, String>)
    ensures
        r is Ok <==> decoded_size(bytes@) is Some,
        r matches Ok(p) ==> p.wf() && p.encoded@ == bytes@,
{
    match decode_size(bytes) {
        Ok((width, height)) => {
            let encoded = vstd::slice::slice_to_vec(bytes);
            Ok(Picture { encoded, width, height })
        },
        Err(e) => Err(e),
    }
}

/// The RGBA bytes of a picture scaled to cover `width` by `height`.
pub fn fill_picture(picture: &Picture, width: u32, height: u32) -> (r: Vec<u8>)
    requires
        picture.scalable(),
        width >= 1,
        height >= 1,
    ensures
        r@ == filled_image(picture.encoded@, width, height),
{
    fill_image(&picture.encoded, width, height)
}

/// Paint the background of a `width` by `height` overlay: the picture scaled to cover it,
/// with red and blue swapped as the buffer stores them, or else a solid `color`.
pub fn paint_background(canvas: &mut [u8], picture: &Option<Picture>, width: u32, height: u32, color: Rgb)
    requires
        width >= 1,
        height >= 1,
        picture matches Some(p) ==> p.scalable(),
    ensures
        final(canvas)@.len() == old(canvas)@.len(),
        picture matches Some(p) ==> {
            let px = filled_image(p.encoded@, width, height);
            &&& forall|i: int| 0 <= i < copied_len(old(canvas)@.len(), px.len()) ==> #[trigger] final(canvas)@[i] == swizzled(px, i)
            &&& forall|i: int| copied_len(old(canvas)@.len(), px.len()) <= i < old(canvas)@.len() ==> #[trigger] final(canvas)@[i] == old(canvas)@[i]
        },
        picture is None ==> {
            &&& forall|i: int| 0 <= i < old(canvas)@.len() / 4 * 4 ==> #[trigger] final(canvas)@[i] == fill_byte(color, i % 4)
            &&& forall|i: int| old(canvas)@.len() / 4 * 4 <= i < old(canvas)@.len() ==> #[trigger] final(canvas)@[i] == old(canvas)@[i]
        },
{
    match picture {
        Some(p) => {
            let px = fill_picture(p, width, height);
            copy_swizzled(canvas, px.as_slice());
        },
        None => {
            fill_solid(canvas, color);
        },
    }
}

/// Paint the background as `paint_background` does, where the picture can be scaled: its
/// bytes are decoded again to check that they give the recorded size and at least one pixel.
/// A picture that cannot be scaled leaves the canvas as it was, and the answer says so.
pub fn paint_background_checked(
    canvas: &mut [u8],
    picture: &Option<Picture>,
    width: u32,
    height: u32,
    color: Rgb,
) -> (painted: bool)
    requires
        width >= 1,
        height >= 1,
    ensures
        final(canvas)@.len() == old(canvas)@.len(),
        painted == match picture {
            Some(p) => p.scalable(),
            None => true,
        },
        !painted ==> final(canvas)@ == old(canvas)@,
        painted ==> (picture matches Some(p) ==> {
            let px = filled_image(p.encoded@, width, height);
            &&& forall|i: int| 0 <= i < copied_len(old(canvas)@.len(), px.len()) ==> #[trigger] final(canvas)@[i] == swizzled(px, i)
            &&& forall|i: int| copied_len(old(canvas)@.len(), px.len()) <= i < old(canvas)@.len() ==> #[trigger] final(canvas)@[i] == old(canvas)@[i]
        }),
        picture is None ==> {
            &&& forall|i: int| 0 <= i < old(canvas)@.len() / 4 * 4 ==> #[trigger] final(canvas)@[i] == fill_byte(color, i % 4)
            &&& forall|i: int| old(canvas)@.len() / 4 * 4 <= i < old(canvas)@.len() ==> #[trigger] final(canvas)@[i] == old(canvas)@[i]
        },
{
    let scalable = match picture {
        Some(p) => match decode_size(p.encoded.as_slice()) {
            Ok((w, h)) => w == p.width && h == p.height && w >= 1 && h >= 1,
            Err(_) => false,
        },
        None => true,
    };
    if scalable {
        paint_background(canvas, picture, width, height, color);
    }
    scalable
}

} // verus!
