use vstd::prelude::*;

verus! {

/// A colour as red, green and blue.
pub type Rgb = (u8, u8, u8);

/// An image of 8-bit RGB pixels, held in a buffer of the `image` crate.
#[verifier::external_body]
pub struct RgbImage {
    inner: image::RgbImage,
}

/// The error type of the `image` crate.
#[verifier::external_type_specification]
#[verifier::external_body]
pub struct ExImageError(image::ImageError);

/// The number of pixels in a row of the image.
pub uninterp spec fn image_width(img: RgbImage) -> nat;

/// The number of rows of the image.
pub uninterp spec fn image_height(img: RgbImage) -> nat;

/// The pixels of the image, row after row: the pixel `(x, y)` stands at
/// index `y * width + x`.
pub uninterp spec fn image_pixels(img: RgbImage) -> Seq<Rgb>;

/// The JPEG file that the `image` crate writes for the given pixels at the
/// given quality, or `None` where it refuses them.
pub uninterp spec fn jpeg_encoding(pixels: Seq<Rgb>, width: nat, height: nat, quality: u8) -> Option<
    Seq<u8>,
>;

/// `image::ImageBuffer::new`: a buffer of the given size, every channel of
/// every pixel zero. The call panics where the buffer's length in bytes
/// overflows, which the precondition rules out.
#[verifier::external_body]
pub(crate) fn new_buffer(width: u32, height: u32) -> (img: RgbImage)
    requires
        3 * width * height <= isize::MAX,
    ensures
        image_width(img) == width,
        image_height(img) == height,
        image_pixels(img) == Seq::new((width * height) as nat, |k: int| (0u8, 0u8, 0u8)),
{
    RgbImage { inner: image::RgbImage::new(width, height) }
}

/// `image::ImageBuffer::width`.
#[verifier::external_body]
pub(crate) fn buffer_width(img: &RgbImage) -> (w: u32)
    ensures
        w == image_width(*img),
{
    img.inner.width()
}

/// `image::ImageBuffer::height`.
#[verifier::external_body]
pub(crate) fn buffer_height(img: &RgbImage) -> (h: u32)
    ensures
        h == image_height(*img),
{
    img.inner.height()
}

/// `image::ImageBuffer::put_pixel`: replaces the pixel `(x, y)` and nothing
/// else. The call panics for a position outside the image.
#[verifier::external_body]
pub(crate) fn buffer_put_pixel(img: &mut RgbImage, x: u32, y: u32, color: Rgb)
    requires
        x < image_width(*old(img)),
        y < image_height(*old(img)),
    ensures
        image_width(*final(img)) == image_width(*old(img)),
        image_height(*final(img)) == image_height(*old(img)),
        image_pixels(*final(img)) == image_pixels(*old(img)).update(
            y * image_width(*old(img)) + x,
            color,
        ),
{
    img.inner.put_pixel(x, y, image::Rgb([color.0, color.1, color.2]))
}

/// `image::ImageBuffer::get_pixel`: the pixel `(x, y)`. The call panics for a
/// position outside the image.
#[verifier::external_body]
pub(crate) fn buffer_get_pixel(img: &RgbImage, x: u32, y: u32) -> (color: Rgb)
    requires
        x < image_width(*img),
        y < image_height(*img),
    ensures
        color == image_pixels(*img)[y * image_width(*img) + x],
{
    let pixel = img.inner.get_pixel(x, y);
    (pixel.0[0], pixel.0[1], pixel.0[2])
}

/// `image::ImageBuffer::write_to` with `ImageOutputFormat::Jpeg`, into a
/// buffer in memory: the file that the encoder writes is a function of the
/// pixels, the size and the quality alone, and an error stands for the
/// encoder's refusal.
#[verifier::external_body]
pub(crate) fn buffer_write_jpeg(img: &RgbImage, quality: u8) -> (res: Result<
    Vec<u8>,
    image::ImageError,
>)
    ensures
        match res {
            Ok(bytes) => jpeg_encoding(
                image_pixels(*img),
                image_width(*img),
                image_height(*img),
                quality,
            ) == Some(bytes@),
            Err(_) => jpeg_encoding(
                image_pixels(*img),
                image_width(*img),
                image_height(*img),
                quality,
            ) is None,
        },
{
    let mut data = std::io::Cursor::new(Vec::new());
    match img.inner.write_to(&mut data, image::ImageOutputFormat::Jpeg(quality)) {
        Ok(()) => Ok(data.into_inner()),
        Err(e) => Err(e),
    }
}

impl RgbImage {
    /// The colour at `(x, y)`.
    pub open spec fn pixel_spec(self, x: int, y: int) -> Rgb {
        image_pixels(self)[y * image_width(self) + x]
    }

    /// The width and the height of the image.
    pub fn dimensions(&self) -> (size: (u32, u32))
        ensures
            size.0 == image_width(*self),
            size.1 == image_height(*self),
    {
        (buffer_width(self), buffer_height(self))
    }

    /// Sets the pixel at `(x, y)`; a position outside the image is left alone
    /// and reported as `false`.
    pub fn put_pixel(&mut self, x: u32, y: u32, color: Rgb) -> (inside: bool)
        ensures
            inside == (x < image_width(*old(self)) && y < image_height(*old(self))),
            image_width(*final(self)) == image_width(*old(self)),
            image_height(*final(self)) == image_height(*old(self)),
            inside ==> image_pixels(*final(self)) == image_pixels(*old(self)).update(
                y * image_width(*old(self)) + x,
                color,
            ),
            !inside ==> image_pixels(*final(self)) == image_pixels(*old(self)),
    {
        if x < buffer_width(self) && y < buffer_height(self) {
            buffer_put_pixel(self, x, y, color);
            true
        } else {
            false
        }
    }

    /// The pixel at `(x, y)`, or `None` for a position outside the image.
    pub fn get_pixel(&self, x: u32, y: u32) -> (color: Option<Rgb>)
        ensures
            color == if x < image_width(*self) && y < image_height(*self) {
                Some(self.pixel_spec(x as int, y as int))
            } else {
                None
            },
    {
        if x < buffer_width(self) && y < buffer_height(self) {
            Some(buffer_get_pixel(self, x, y))
        } else {
            None
        }
    }
}

} // verus!
