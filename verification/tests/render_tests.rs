use terrain_noise::color::Rgb;
use terrain_noise::field::{scale, sine_field, Field};
use terrain_noise::fixed::{Fixed, ONE};
use terrain_noise::grid::{sample_and_normalize, Grid};
use terrain_noise::render::{gray_pixels, render, render_grayscale, terrain_pixels};

fn sample_grid() -> Grid {
    let rows: Vec<Vec<Fixed>> = vec![
        vec![Fixed::from_bits(0), Fixed::from_ratio(50, 100), Fixed::from_ratio(55, 100)],
        vec![Fixed::from_ratio(60, 100), Fixed::from_ratio(80, 100), Fixed::from_bits(ONE)],
    ];
    Grid { width: 3, rows }
}

#[test]
fn terrain_pixels_colors_each_cell() {
    let pixels: Vec<Vec<Rgb>> = terrain_pixels(&sample_grid());
    assert_eq!(
        pixels,
        vec![
            vec![
                Rgb { r: 0x20, g: 0x20, b: 0xFF },
                Rgb { r: 0x40, g: 0x40, b: 0xFF },
                Rgb { r: 0x40, g: 0xA0, b: 0x40 },
            ],
            vec![
                Rgb { r: 0x30, g: 0x80, b: 0x30 },
                Rgb { r: 0x80, g: 0x80, b: 0x80 },
                Rgb { r: 0xFF, g: 0xFF, b: 0xFF },
            ],
        ]
    );
}

#[test]
fn gray_pixels_grades_each_cell() {
    assert_eq!(gray_pixels(&sample_grid()), vec![vec![0, 128, 140], vec![153, 204, 255]]);
}

#[test]
fn render_lays_rows_out_one_after_the_other() {
    assert_eq!(
        render(&sample_grid()),
        vec![32, 32, 255, 64, 64, 255, 64, 160, 64, 48, 128, 48, 128, 128, 128, 255, 255, 255]
    );
}

#[test]
fn render_grayscale_lays_rows_out_one_after_the_other() {
    assert_eq!(render_grayscale(&sample_grid()), vec![0, 128, 140, 153, 204, 255]);
}

#[test]
fn render_of_a_grid_without_cells_is_empty() {
    assert!(render(&Grid { width: 0, rows: vec![vec![], vec![]] }).is_empty());
    assert!(render(&Grid { width: 4, rows: vec![] }).is_empty());
    assert!(render_grayscale(&Grid { width: 0, rows: vec![vec![]] }).is_empty());
    assert!(render_grayscale(&Grid { width: 4, rows: vec![] }).is_empty());
}

#[test]
fn render_of_a_single_column_and_a_single_row() {
    let column: Grid = Grid {
        width: 1,
        rows: vec![vec![Fixed::from_bits(0)], vec![Fixed::from_bits(ONE)]],
    };
    assert_eq!(render(&column), vec![32, 32, 255, 255, 255, 255]);
    assert_eq!(render_grayscale(&column), vec![0, 255]);
    let row: Grid = Grid { width: 2, rows: vec![vec![Fixed::from_bits(ONE), Fixed::from_bits(0)]] };
    assert_eq!(render(&row), vec![255, 255, 255, 32, 32, 255]);
    assert_eq!(render_grayscale(&row), vec![255, 0]);
}

#[test]
fn render_bytes_make_the_image_of_the_pixels() {
    let field: Field = scale(sine_field(Fixed::from_ratio(7, 10), Fixed::from_int(1)), Fixed::from_ratio(1, 5));
    let grid: Grid = sample_and_normalize(&field, 7, 5);
    let pixels: Vec<Vec<Rgb>> = terrain_pixels(&grid);
    let bytes: Vec<u8> = render(&grid);
    assert_eq!(bytes.len(), 3 * 7 * 5);
    let picture: image::RgbImage = image::RgbImage::from_raw(7, 5, bytes).unwrap();
    for y in 0..5_u32 {
        for x in 0..7_u32 {
            let want: Rgb = pixels[y as usize][x as usize];
            assert_eq!(picture.get_pixel(x, y).0, [want.r, want.g, want.b]);
        }
    }
    let levels: Vec<Vec<u8>> = gray_pixels(&grid);
    let gray: Vec<u8> = render_grayscale(&grid);
    assert_eq!(gray.len(), 7 * 5);
    let picture: image::GrayImage = image::GrayImage::from_raw(7, 5, gray).unwrap();
    for y in 0..5_u32 {
        for x in 0..7_u32 {
            assert_eq!(picture.get_pixel(x, y).0, [levels[y as usize][x as usize]]);
        }
    }
}

#[test]
fn render_byte_positions() {
    let grid: Grid = sample_and_normalize(&sine_field(Fixed::from_int(1), Fixed::from_int(2)), 4, 3);
    let pixels: Vec<Vec<Rgb>> = terrain_pixels(&grid);
    let levels: Vec<Vec<u8>> = gray_pixels(&grid);
    let bytes: Vec<u8> = render(&grid);
    let gray: Vec<u8> = render_grayscale(&grid);
    for y in 0..3_usize {
        for x in 0..4_usize {
            assert_eq!(bytes[3 * (y * 4 + x)], pixels[y][x].r);
            assert_eq!(bytes[3 * (y * 4 + x) + 1], pixels[y][x].g);
            assert_eq!(bytes[3 * (y * 4 + x) + 2], pixels[y][x].b);
            assert_eq!(gray[y * 4 + x], levels[y][x]);
        }
    }
}
