use vstd::prelude::*;

use image::RgbImage;

use crate::field::{lemma_sample_lattice, lemma_sample_of_point, sample_position};

verus! {

/// An RGB image with one byte per channel, held in an `image::RgbImage`.
#[verifier::external_body]
pub struct PixelBuffer {
    img: RgbImage,
}

/// The pixels of an image, keyed by `(x, y)`.
pub uninterp spec fn image_pixels(img: PixelBuffer) -> Map<(u32, u32), (u8, u8, u8)>;

/// The width and height of an image.
pub uninterp spec fn image_dimensions(img: PixelBuffer) -> (u32, u32);

/// Channel `c` (0 red, 1 green, 2 blue) of a colour.
pub open spec fn channel(rgb: (u8, u8, u8), c: int) -> u8 {
    if c == 0 {
        rgb.0
    } else if c == 1 {
        rgb.1
    } else {
        rgb.2
    }
}

/// The channels of a `width` by `height` image row after row (`y` outer,
/// `x` inner), three per pixel.
pub open spec fn raw_layout(pixels: Map<(u32, u32), (u8, u8, u8)>, width: u32, height: u32) -> Seq<
    u8,
> {
    Seq::new(
        (3 * width * height) as nat,
        |i: int| channel(pixels[(((i / 3) % width as int) as u32, ((i / 3) / width as int) as u32)], i % 3),
    )
}

/// The pixels of a `width` by `height` image that is black all over.
pub open spec fn blank_pixels(width: u32, height: u32) -> Map<(u32, u32), (u8, u8, u8)> {
    Map::new(|p: (u32, u32)| p.0 < width && p.1 < height, |p: (u32, u32)| (0u8, 0u8, 0u8))
}

/// Relies on image::ImageBuffer::new: a `width` by `height` image whose
/// channels are all zero. It panics only when the buffer length overflows,
/// which the requires rules out.
#[verifier::external_body]
fn blank_image(width: u32, height: u32) -> (r: PixelBuffer)
    requires
        3 * width * height <= isize::MAX,
    ensures
        image_dimensions(r) == (width, height),
        image_pixels(r) == blank_pixels(width, height),
{
    PixelBuffer { img: RgbImage::new(width, height) }
}

/// Relies on image::ImageBuffer::put_pixel: the pixel at `(x, y)` becomes
/// `c` and nothing else changes. It panics outside the image, which the
/// requires rules out.
#[verifier::external_body]
fn set_pixel(img: &mut PixelBuffer, x: u32, y: u32, c: (u8, u8, u8))
    requires
        x < image_dimensions(*old(img)).0,
        y < image_dimensions(*old(img)).1,
    ensures
        image_dimensions(*final(img)) == image_dimensions(*old(img)),
        image_pixels(*final(img)) == image_pixels(*old(img)).insert((x, y), c),
{
    img.img.put_pixel(x, y, image::Rgb([c.0, c.1, c.2]))
}

/// Relies on image::ImageBuffer::into_raw: the buffer that `new` allocated,
/// three bytes per pixel, row after row, as `put_pixel` fills it.
#[verifier::external_body]
fn raw_bytes(img: PixelBuffer) -> (r: Vec<u8>)
    ensures
        r@ == raw_layout(image_pixels(img), image_dimensions(img).0, image_dimensions(img).1),
{
    img.img.into_raw()
}

impl PixelBuffer {
    /// The channels of the image row after row, three per pixel.
    pub fn into_raw(self) -> (r: Vec<u8>)
        ensures
            r@ == raw_layout(image_pixels(self), image_dimensions(self).0, image_dimensions(self).1),
    {
        raw_bytes(self)
    }
}

#[verifier::external_type_specification]
#[verifier::external_body]
pub struct ExImageError(image::ImageError);

/// The JPEG file, at quality 255, of a `width` by `height` image with these
/// pixels.
pub uninterp spec fn jpeg_bytes(pixels: Map<(u32, u32), (u8, u8, u8)>, width: u32, height: u32) -> Seq<
    u8,
>;

/// Relies on image::ImageBuffer::write_to with ImageOutputFormat::Jpeg(255)
/// into an in-memory buffer: on success the bytes depend on the pixels and
/// the size alone. The JPEG encoder fails only when the width or the height
/// does not fit in a `u16`, or when the writer fails, which a `Cursor` over a
/// `Vec` never does.
#[verifier::external_body]
fn write_jpeg(img: &PixelBuffer) -> (r: Result<Vec<u8>, image::ImageError>)
    ensures
        image_dimensions(*img).0 <= 0xFFFF && image_dimensions(*img).1 <= 0xFFFF ==> r is Ok,
        r matches Ok(b) ==> b@ == jpeg_bytes(
            image_pixels(*img),
            image_dimensions(*img).0,
            image_dimensions(*img).1,
        ),
{
    let mut data = std::io::Cursor::new(Vec::new());
    match img.img.write_to(&mut data, image::ImageOutputFormat::Jpeg(255)) {
        Ok(()) => Ok(data.into_inner()),
        Err(e) => Err(e),
    }
}

/// Why an image cannot be assembled or encoded.
#[derive(Debug, Clone, Copy, PartialEq, Eq, Structural)]
pub enum RenderError {
    /// Fewer colours than the `grid * grid` samples of the field.
    PreconditionViolation,
    /// The image encoder refused the image.
    EncodingFailed,
}

/// Encodes an image as a JPEG file at quality 255. It succeeds whenever
/// the width and the height are at most 65535.
pub fn serialize_image(image: &PixelBuffer) -> (r: Result<Vec<u8>, RenderError>)
    ensures
        image_dimensions(*image).0 <= 0xFFFF && image_dimensions(*image).1 <= 0xFFFF ==> r is Ok,
        match r {
            Ok(b) => b@ == jpeg_bytes(
                image_pixels(*image),
                image_dimensions(*image).0,
                image_dimensions(*image).1,
            ),
            Err(e) => e == RenderError::EncodingFailed,
        },
{
    match write_jpeg(image) {
        Ok(b) => Ok(b),
        Err(_) => Err(RenderError::EncodingFailed),
    }
}

/// The pixels of a `grid` by `grid` image in which pixel `(i, j)` has the
/// colour of sample `i * grid + j`.
pub open spec fn pixel_layout(colors: Seq<(u8, u8, u8)>, grid: int) -> Map<
    (u32, u32),
    (u8, u8, u8),
> {
    Map::new(
        |p: (u32, u32)| p.0 < grid && p.1 < grid,
        |p: (u32, u32)| colors[p.0 * grid + p.1],
    )
}

/// An image of a `grid * grid` field has room in memory.
pub open spec fn image_fits(grid: int) -> bool {
    3 * grid * grid <= isize::MAX
}

/// Lays out the colours of a field's samples, given in sample order, as a
/// `grid` by `grid` image: pixel `(i, j)` gets colour `i * grid + j`. Fails
/// with `PreconditionViolation` when there are fewer than `grid * grid`
/// colours; colours past that are not used.
pub fn render_image(colors: &Vec<(u8, u8, u8)>, grid: u32) -> (r: Result<PixelBuffer, RenderError>)
    requires
        image_fits(grid as int),
    ensures
        r is Err <==> colors@.len() < grid * grid,
        r matches Err(e) ==> e == RenderError::PreconditionViolation,
        r matches Ok(img) ==> image_dimensions(img) == (grid, grid) && image_pixels(img)
            == pixel_layout(colors@, grid as int),
{
    let g = grid as usize;
    assert(g * g <= 3 * g * g) by (nonlinear_arith);
    if colors.len() < g * g {
        return Err(RenderError::PreconditionViolation);
    }
    let n = colors.len();
    let mut img = blank_image(grid, grid);
    let mut i: u32 = 0;
    while i < grid
        invariant
            g == grid,
            i <= grid,
            g * g <= n,
            n == colors@.len(),
            image_dimensions(img) == (grid, grid),
            forall|x: u32, y: u32|
                #[trigger] image_pixels(img).contains_key((x, y)) <==> x < grid && y < grid,
            forall|x: u32, y: u32|
                x < grid && y < grid ==> #[trigger] image_pixels(img)[(x, y)] == if x < i {
                    colors@[x * grid + y]
                } else {
                    (0u8, 0u8, 0u8)
                },
        decreases grid - i,
    {
        let mut j: u32 = 0;
        while j < grid
            invariant
                g == grid,
                i < grid,
                j <= grid,
                g * g <= n,
            n == colors@.len(),
                image_dimensions(img) == (grid, grid),
                forall|x: u32, y: u32|
                    #[trigger] image_pixels(img).contains_key((x, y)) <==> x < grid && y < grid,
                forall|x: u32, y: u32|
                    x < grid && y < grid ==> #[trigger] image_pixels(img)[(x, y)] == if x < i
                        || (x == i && y < j) {
                        colors@[x * grid + y]
                    } else {
                        (0u8, 0u8, 0u8)
                    },
            decreases grid - j,
        {
            proof {
                lemma_sample_of_point(grid as int, i as int, j as int);
                assert(i as int * g as int <= i as int * g as int + j as int);
            }
            let k = i as usize * g + j as usize;
            set_pixel(&mut img, i, j, colors[k]);
            j = j + 1;
        }
        i = i + 1;
    }
    assert forall|p: (u32, u32)|
        #[trigger] pixel_layout(colors@, grid as int).contains_key(p) == image_pixels(
            img,
        ).contains_key(p) && (image_pixels(img).contains_key(p) ==> image_pixels(img)[p]
            == pixel_layout(colors@, grid as int)[p]) by {
        assert(image_pixels(img).contains_key((p.0, p.1)) == (p.0 < grid && p.1 < grid));
    }
    assert(image_pixels(img).dom() =~= pixel_layout(colors@, grid as int).dom());
    assert(image_pixels(img) =~= pixel_layout(colors@, grid as int));
    Ok(img)
}

/// The image and the field agree on order: for each sample `k` of a field of
/// resolution `grid`, the pixel at the sample's lattice position has colour
/// `k`.
pub proof fn lemma_pixel_of_sample(colors: Seq<(u8, u8, u8)>, grid: int, k: int)
    requires
        0 < grid,
        0 <= k < grid * grid,
        grid * grid <= colors.len(),
        grid <= u32::MAX,
    ensures
        pixel_layout(colors, grid).contains_key(
            (sample_position(grid, k).0 as u32, sample_position(grid, k).1 as u32),
        ),
        pixel_layout(colors, grid)[(
            sample_position(grid, k).0 as u32,
            sample_position(grid, k).1 as u32,
        )] == colors[k],
{
    lemma_sample_lattice(grid, k);
}

} // verus!
