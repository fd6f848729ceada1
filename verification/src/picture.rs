//! Rendering of a buffer of iteration counts as a greyscale picture.
//!
//! The picture is an RGB image buffer of the `image` crate. The shade of a
//! count is the caller's to choose; this module gives every pixel the shade
//! of its count in all three channels.

use image::{ImageBuffer, Rgb};
use vstd::prelude::*;
use crate::schedule::grid_view;

verus! {

/// An RGB picture with eight bits per channel: an image buffer of the
/// `image` crate. The buffer's own type is bound by a trait of that crate,
/// so it is kept behind this one, and `picture_rows` says what it holds.
#[verifier::external_body]
pub struct Picture {
    inner: ImageBuffer<Rgb<u8>, Vec<u8>>,
}

/// The pixels of a picture, row by row from the top, each row from the left,
/// each pixel as its red, green and blue channel.
pub uninterp spec fn picture_rows(picture: Picture) -> Seq<Seq<(u8, u8, u8)>>;

/// The channels of a row of pixels, pixel after pixel.
pub open spec fn row_samples(row: Seq<(u8, u8, u8)>) -> Seq<u8> {
    row.map_values(|pixel: (u8, u8, u8)| seq![pixel.0, pixel.1, pixel.2]).flatten()
}

/// The channels of a picture in the order in which it stores them: row after
/// row, pixel after pixel, red before green before blue.
pub open spec fn samples(rows: Seq<Seq<(u8, u8, u8)>>) -> Seq<u8> {
    rows.map_values(|row: Seq<(u8, u8, u8)>| row_samples(row)).flatten()
}

/// `ImageBuffer::new` makes a picture of the given size with every channel
/// of every pixel at zero. It computes the length of its vector as the three
/// channels times the width, and that times the height, and panics where
/// either product is more than a `usize` can hold; the precondition rules
/// both out.
#[verifier::external_body]
fn new_picture(width: u32, height: u32) -> (picture: Picture)
    requires
        3 * width <= usize::MAX,
        3 * width * height <= usize::MAX,
    ensures
        picture_rows(picture) == Seq::new(
            height as nat,
            |y: int| Seq::new(width as nat, |x: int| (0u8, 0u8, 0u8)),
        ),
{
    Picture { inner: ImageBuffer::new(width, height) }
}

/// `ImageBuffer::get_pixel_mut`, written through: the pixel in column `x` of
/// row `y` becomes the given one and no other pixel changes. It panics for
/// a place outside the picture, which the precondition rules out.
#[verifier::external_body]
fn set_pixel(picture: &mut Picture, x: u32, y: u32, pixel: (u8, u8, u8))
    requires
        y < picture_rows(*old(picture)).len(),
        x < picture_rows(*old(picture))[y as int].len(),
    ensures
        picture_rows(*final(picture)) == picture_rows(*old(picture)).update(
            y as int,
            picture_rows(*old(picture))[y as int].update(x as int, pixel),
        ),
{
    *picture.inner.get_pixel_mut(x, y) = Rgb([pixel.0, pixel.1, pixel.2]);
}

/// `ImageBuffer::into_raw` hands out the vector in which the picture stores
/// its channels. A buffer made by `ImageBuffer::new` stores its channels and
/// nothing more, and every picture here is made by it.
#[verifier::external_body]
fn into_raw(picture: Picture) -> (raw: Vec<u8>)
    ensures
        raw@ == samples(picture_rows(picture)),
{
    picture.inner.into_raw()
}

/// The pixel is grey, and its level is a shade of `count` under the cap
/// `iterations`.
pub open spec fn grey_by<F: Fn(u32, u32) -> u8>(
    pixel: (u8, u8, u8),
    shade: F,
    count: u32,
    iterations: u32,
) -> bool {
    &&& call_ensures(shade, (count, iterations), pixel.0)
    &&& pixel.1 == pixel.0
    &&& pixel.2 == pixel.0
}

/// `rows` is the picture of `counts`: of the same shape, with each pixel
/// grey in the shade of its count.
pub open spec fn shaded_by<F: Fn(u32, u32) -> u8>(
    rows: Seq<Seq<(u8, u8, u8)>>,
    counts: Seq<Seq<u32>>,
    shade: F,
    iterations: u32,
) -> bool {
    &&& rows.len() == counts.len()
    &&& forall|y: int|
        0 <= y < counts.len() ==> (#[trigger] rows[y]).len() == counts[y].len()
    &&& forall|y: int, x: int|
        0 <= y < counts.len() && 0 <= x < counts[y].len() ==> grey_by(
            #[trigger] rows[y][x],
            shade,
            counts[y][x],
            iterations,
        )
}

/// The shade function accepts every count of the buffer under the cap.
pub open spec fn shades_all<F: Fn(u32, u32) -> u8>(
    shade: F,
    counts: Seq<Seq<u32>>,
    iterations: u32,
) -> bool {
    forall|y: int, x: int|
        0 <= y < counts.len() && 0 <= x < counts[y].len() ==> call_requires(
            shade,
            (#[trigger] counts[y][x], iterations),
        )
}

/// The buffer has `width` counts in every row.
pub open spec fn is_rectangle(counts: Seq<Seq<u32>>, width: u32) -> bool {
    forall|y: int| 0 <= y < counts.len() ==> (#[trigger] counts[y]).len() == width
}

impl Picture {
    /// Gives up the picture for its channels, in storage order.
    pub fn into_samples(self) -> (raw: Vec<u8>)
        ensures
            raw@ == samples(picture_rows(self)),
    {
        into_raw(self)
    }
}

/// Renders a buffer of counts as a picture: the pixel in column `x` of row
/// `y` is grey, in the shade of the count in column `x` of row `y`.
pub fn to_image<F: Fn(u32, u32) -> u8>(
    buffer: &Vec<Vec<u32>>,
    width: u32,
    iterations: u32,
    shade: &F,
) -> (picture: Picture)
    requires
        is_rectangle(grid_view(buffer@), width),
        3 * width <= usize::MAX,
        3 * width * buffer.len() <= usize::MAX,
        buffer.len() <= u32::MAX,
        shades_all(*shade, grid_view(buffer@), iterations),
    ensures
        shaded_by(picture_rows(picture), grid_view(buffer@), *shade, iterations),
{
    let height: u32 = buffer.len() as u32;
    let ghost counts = grid_view(buffer@);
    let mut picture = new_picture(width, height);
    let mut y: u32 = 0;
    while y < height
        invariant
            y <= height,
            height == buffer.len(),
            counts == grid_view(buffer@),
            is_rectangle(counts, width),
            shades_all(*shade, counts, iterations),
            picture_rows(picture).len() == height,
            forall|j: int| 0 <= j < height ==> (#[trigger] picture_rows(picture)[j]).len() == width,
            forall|j: int, i: int|
                0 <= j < y && 0 <= i < width ==> grey_by(
                    #[trigger] picture_rows(picture)[j][i],
                    *shade,
                    counts[j][i],
                    iterations,
                ),
        decreases height - y,
    {
        let row = &buffer[y as usize];
        let mut x: u32 = 0;
        while x < width
            invariant
                x <= width,
                y < height,
                height == buffer.len(),
                counts == grid_view(buffer@),
                row@ == counts[y as int],
                is_rectangle(counts, width),
                shades_all(*shade, counts, iterations),
                picture_rows(picture).len() == height,
                forall|j: int|
                    0 <= j < height ==> (#[trigger] picture_rows(picture)[j]).len() == width,
                forall|j: int, i: int|
                    0 <= i < width && (0 <= j < y || (j == y && i < x)) ==> grey_by(
                        #[trigger] picture_rows(picture)[j][i],
                        *shade,
                        counts[j][i],
                        iterations,
                    ),
            decreases width - x,
        {
            let count = row[x as usize];
            let level = shade(count, iterations);
            set_pixel(&mut picture, x, y, (level, level, level));
            x = x + 1;
        }
        y = y + 1;
    }
    picture
}

} // verus!
