//! Rendering: the cells of a grid as pixels, and the pixels as the bytes of
//! an image, row after row from the top.

use vstd::prelude::*;
use vstd::arithmetic::div_mod::lemma_fundamental_div_mod_converse;
use crate::color::{grayscale, grayscale_spec, terracolor, terracolor_spec, Rgb};
use crate::fixed::Fixed;
use crate::grid::Grid;

verus! {

/// The cells in terrain colors.
pub open spec fn terrain_model(cells: Seq<Seq<int>>) -> Seq<Seq<Rgb>> {
    Seq::new(cells.len(), |y: int| Seq::new(cells[y].len(), |x: int| terracolor_spec(cells[y][x])))
}

/// The cells as gray levels.
pub open spec fn gray_model(cells: Seq<Seq<int>>) -> Seq<Seq<u8>> {
    Seq::new(cells.len(), |y: int| Seq::new(cells[y].len(), |x: int| grayscale_spec(cells[y][x])))
}

/// The rows of pixels as sequences.
pub open spec fn rows_of<T>(pixels: Vec<Vec<T>>) -> Seq<Seq<T>> {
    Seq::new(pixels.len() as nat, |y: int| pixels[y]@)
}

/// Channel `k` of a color: red, green and blue are 0, 1 and 2.
pub open spec fn channel(c: Rgb, k: int) -> u8 {
    if k == 0 {
        c.r
    } else if k == 1 {
        c.g
    } else {
        c.b
    }
}

/// The bytes of an image of three channels: the rows of `width` pixels one
/// after the other, and in each pixel red, green and blue.
pub open spec fn rgb_bytes(pixels: Seq<Seq<Rgb>>, width: nat) -> Seq<u8> {
    Seq::new(
        3 * width * pixels.len(),
        |k: int| channel(pixels[k / 3 / (width as int)][k / 3 % (width as int)], k % 3),
    )
}

/// The bytes of an image of one channel: the rows of `width` pixels one
/// after the other.
pub open spec fn gray_bytes(pixels: Seq<Seq<u8>>, width: nat) -> Seq<u8> {
    Seq::new(width * pixels.len(), |k: int| pixels[k / (width as int)][k % (width as int)])
}

/// The byte of channel `k` of the pixel in column `x` of row `y` stands at
/// index `3 * (y * width + x) + k`.
pub proof fn lemma_rgb_byte_at(pixels: Seq<Seq<Rgb>>, width: nat, x: int, y: int, k: int)
    requires
        0 <= x < width,
        0 <= y < pixels.len(),
        0 <= k < 3,
    ensures
        0 <= 3 * (y * width + x) + k < rgb_bytes(pixels, width).len(),
        rgb_bytes(pixels, width)[3 * (y * width + x) + k] == channel(pixels[y][x], k),
{
    let at = y * width + x;
    assert(0 <= at < width * pixels.len()) by (nonlinear_arith)
        requires
            0 <= x < width,
            0 <= y < pixels.len(),
            at == y * width + x,
    ;
    assert(3 * width * pixels.len() == 3 * (width * pixels.len())) by (nonlinear_arith);
    lemma_fundamental_div_mod_converse(3 * at + k, 3, at, k);
    lemma_fundamental_div_mod_converse(at, width as int, y, x);
}

/// The byte of the pixel in column `x` of row `y` stands at index
/// `y * width + x`.
pub proof fn lemma_gray_byte_at(pixels: Seq<Seq<u8>>, width: nat, x: int, y: int)
    requires
        0 <= x < width,
        0 <= y < pixels.len(),
    ensures
        0 <= y * width + x < gray_bytes(pixels, width).len(),
        gray_bytes(pixels, width)[y * width + x] == pixels[y][x],
{
    let at = y * width + x;
    assert(0 <= at < width * pixels.len()) by (nonlinear_arith)
        requires
            0 <= x < width,
            0 <= y < pixels.len(),
            at == y * width + x,
    ;
    lemma_fundamental_div_mod_converse(at, width as int, y, x);
}

/// The pixels of a grid in terrain colors.
pub fn terrain_pixels(grid: &Grid) -> (pixels: Vec<Vec<Rgb>>)
    ensures
        rows_of(pixels) == terrain_model(grid@),
        pixels.len() == grid.rows.len(),
        forall|y: int| 0 <= y < pixels.len() ==> (#[trigger] pixels[y]).len() == grid.rows[y].len(),
{
    let mut pixels: Vec<Vec<Rgb>> = Vec::new();
    let mut y: usize = 0;
    while y < grid.rows.len()
        invariant
            y <= grid.rows.len(),
            pixels.len() == y,
            forall|j: int| 0 <= j < y ==> (#[trigger] pixels[j]).len() == grid.rows[j].len(),
            forall|j: int, i: int|
                0 <= j < y && 0 <= i < pixels[j].len() ==> #[trigger] pixels[j][i]
                    == terracolor_spec(grid.rows[j][i]@),
        decreases grid.rows.len() - y,
    {
        let cells: &Vec<Fixed> = &grid.rows[y];
        let mut row: Vec<Rgb> = Vec::new();
        let mut x: usize = 0;
        while x < cells.len()
            invariant
                x <= cells.len(),
                row.len() == x,
                forall|i: int| 0 <= i < x ==> #[trigger] row[i] == terracolor_spec(cells[i]@),
            decreases cells.len() - x,
        {
            row.push(terracolor(cells[x]));
            x = x + 1;
        }
        pixels.push(row);
        y = y + 1;
    }
    assert(rows_of(pixels) =~~= terrain_model(grid@));
    pixels
}

/// The pixels of a grid as gray levels.
pub fn gray_pixels(grid: &Grid) -> (pixels: Vec<Vec<u8>>)
    ensures
        rows_of(pixels) == gray_model(grid@),
        pixels.len() == grid.rows.len(),
        forall|y: int| 0 <= y < pixels.len() ==> (#[trigger] pixels[y]).len() == grid.rows[y].len(),
{
    let mut pixels: Vec<Vec<u8>> = Vec::new();
    let mut y: usize = 0;
    while y < grid.rows.len()
        invariant
            y <= grid.rows.len(),
            pixels.len() == y,
            forall|j: int| 0 <= j < y ==> (#[trigger] pixels[j]).len() == grid.rows[j].len(),
            forall|j: int, i: int|
                0 <= j < y && 0 <= i < pixels[j].len() ==> #[trigger] pixels[j][i]
                    == grayscale_spec(grid.rows[j][i]@),
        decreases grid.rows.len() - y,
    {
        let cells: &Vec<Fixed> = &grid.rows[y];
        let mut row: Vec<u8> = Vec::new();
        let mut x: usize = 0;
        while x < cells.len()
            invariant
                x <= cells.len(),
                row.len() == x,
                forall|i: int| 0 <= i < x ==> #[trigger] row[i] == grayscale_spec(cells[i]@),
            decreases cells.len() - x,
        {
            row.push(grayscale(cells[x]));
            x = x + 1;
        }
        pixels.push(row);
        y = y + 1;
    }
    assert(rows_of(pixels) =~~= gray_model(grid@));
    pixels
}

/// `image::ImageBuffer::from_fn` for pixels of type `image::Rgb<u8>`, and
/// `into_raw` on the image that it returns. The image gets `width` by
/// `height` pixels, and the pixel in column `x` of row `y` is what the
/// function handed over returns for `(x, y)`; the bytes of the image are
/// its rows from the top, each pixel as red, green and blue. Building the
/// image fails where its bytes are more than a vector can hold.
#[verifier::external_body]
fn rgb_raster(width: u32, height: u32, pixels: &Vec<Vec<Rgb>>) -> (bytes: Vec<u8>)
    requires
        pixels.len() == height,
        forall|y: int| 0 <= y < height ==> (#[trigger] pixels[y]).len() == width,
        3 * width * height <= isize::MAX,
    ensures
        bytes@ == rgb_bytes(rows_of(*pixels), width as nat),
{
    image::RgbImage::from_fn(width, height, |x, y| {
        let c = pixels[y as usize][x as usize];
        image::Rgb([c.r, c.g, c.b])
    }).into_raw()
}

/// `image::ImageBuffer::from_fn` for pixels of type `image::Luma<u8>`, and
/// `into_raw` on the image that it returns. The image gets `width` by
/// `height` pixels, and the pixel in column `x` of row `y` is what the
/// function handed over returns for `(x, y)`; the bytes of the image are
/// its rows from the top, one byte for each pixel. Building the image fails
/// where its bytes are more than a vector can hold.
#[verifier::external_body]
fn gray_raster(width: u32, height: u32, pixels: &Vec<Vec<u8>>) -> (bytes: Vec<u8>)
    requires
        pixels.len() == height,
        forall|y: int| 0 <= y < height ==> (#[trigger] pixels[y]).len() == width,
        width * height <= isize::MAX,
    ensures
        bytes@ == gray_bytes(rows_of(*pixels), width as nat),
{
    image::GrayImage::from_fn(width, height, |x, y| {
        image::Luma([pixels[y as usize][x as usize]])
    }).into_raw()
}

/// The bytes of the image of a grid in terrain colors: three for each
/// cell, row after row.
pub fn render(grid: &Grid) -> (bytes: Vec<u8>)
    requires
        grid.wf(),
        grid.width <= u32::MAX,
        grid.rows.len() <= u32::MAX,
        3 * grid.width * grid.rows.len() <= isize::MAX,
    ensures
        bytes@ == rgb_bytes(terrain_model(grid@), grid.width as nat),
{
    let pixels: Vec<Vec<Rgb>> = terrain_pixels(grid);
    rgb_raster(grid.width as u32, grid.rows.len() as u32, &pixels)
}

/// The bytes of the image of a grid in gray levels: one for each cell, row
/// after row.
pub fn render_grayscale(grid: &Grid) -> (bytes: Vec<u8>)
    requires
        grid.wf(),
        grid.width <= u32::MAX,
        grid.rows.len() <= u32::MAX,
        grid.width * grid.rows.len() <= isize::MAX,
    ensures
        bytes@ == gray_bytes(gray_model(grid@), grid.width as nat),
{
    let pixels: Vec<Vec<u8>> = gray_pixels(grid);
    gray_raster(grid.width as u32, grid.rows.len() as u32, &pixels)
}

} // verus!
