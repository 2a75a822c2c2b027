use terrain_noise::field::{scale, sine_field, Field};
use terrain_noise::fixed::{Fixed, HALF, ONE};
use terrain_noise::grid::{rescale, sample, sample_and_normalize, Grid};
use terrain_noise::trig::HALF_PI;

fn fx(bits: i64) -> Fixed {
    Fixed::from_bits(bits)
}

fn grid_of(width: usize, cells: Vec<Vec<i64>>) -> Grid {
    Grid {
        width,
        rows: cells.into_iter().map(|row| row.into_iter().map(Fixed::from_bits).collect()).collect(),
    }
}

fn cells_of(grid: &Grid) -> Vec<Vec<i64>> {
    grid.rows.iter().map(|row| row.iter().map(|v| v.bits).collect()).collect()
}

#[test]
fn rescale_exact_values() {
    assert_eq!(rescale(fx(5), fx(0), fx(10)).bits, HALF);
    assert_eq!(rescale(fx(1), fx(0), fx(3)).bits, 1431655765);
    assert_eq!(rescale(fx(-7), fx(-7), fx(9)).bits, 0);
    assert_eq!(rescale(fx(9), fx(-7), fx(9)).bits, ONE);
    assert_eq!(rescale(fx(0), fx(i64::MIN), fx(i64::MAX)).bits, HALF);
    assert_eq!(rescale(fx(i64::MAX), fx(i64::MIN), fx(i64::MAX)).bits, ONE);
    assert_eq!(rescale(fx(i64::MIN), fx(i64::MIN), fx(i64::MAX)).bits, 0);
}

#[test]
fn rescale_clamps_outside_the_range() {
    assert_eq!(rescale(fx(12), fx(0), fx(10)).bits, ONE);
    assert_eq!(rescale(fx(-2), fx(0), fx(10)).bits, 0);
    assert_eq!(rescale(fx(i64::MAX), fx(-1), fx(1)).bits, ONE);
    assert_eq!(rescale(fx(i64::MIN), fx(-1), fx(1)).bits, 0);
}

#[test]
fn rescale_of_an_empty_range_is_zero() {
    assert_eq!(rescale(fx(3), fx(3), fx(3)).bits, 0);
    assert_eq!(rescale(fx(7), fx(3), fx(3)).bits, 0);
    assert_eq!(rescale(fx(3), fx(5), fx(1)).bits, 0);
}

#[test]
fn extent_finds_the_least_and_the_greatest() {
    let grid: Grid = grid_of(3, vec![vec![4, -9, 2], vec![7, 7, -1]]);
    let (lo, hi) = grid.extent().unwrap();
    assert_eq!(lo.bits, -9);
    assert_eq!(hi.bits, 7);
    let single: Grid = grid_of(1, vec![vec![5]]);
    let (lo, hi) = single.extent().unwrap();
    assert_eq!((lo.bits, hi.bits), (5, 5));
    let rising: Grid = grid_of(2, vec![vec![1, 2], vec![3, 4]]);
    let (lo, hi) = rising.extent().unwrap();
    assert_eq!((lo.bits, hi.bits), (1, 4));
    let falling: Grid = grid_of(2, vec![vec![4, 3], vec![2, 1]]);
    let (lo, hi) = falling.extent().unwrap();
    assert_eq!((lo.bits, hi.bits), (1, 4));
}

#[test]
fn extent_of_a_grid_without_cells_is_none() {
    assert!(grid_of(0, vec![]).extent().is_none());
    assert!(grid_of(0, vec![vec![], vec![]]).extent().is_none());
    assert!(grid_of(5, vec![]).extent().is_none());
}

#[test]
fn height_counts_the_rows() {
    assert_eq!(grid_of(3, vec![vec![4, -9, 2], vec![7, 7, -1]]).height(), 2);
    assert_eq!(grid_of(3, vec![]).height(), 0);
}

#[test]
fn normalize_exact_values() {
    let mut grid: Grid = grid_of(2, vec![vec![3 * ONE, -ONE], vec![ONE, 0]]);
    grid.normalize();
    assert_eq!(grid.width, 2);
    assert_eq!(cells_of(&grid), vec![vec![ONE, 0], vec![HALF, ONE / 4]]);
}

#[test]
fn normalize_rounds_down() {
    let mut grid: Grid = grid_of(4, vec![vec![0, 1, 2, 3]]);
    grid.normalize();
    assert_eq!(cells_of(&grid), vec![vec![0, 1431655765, 2863311530, ONE]]);
}

#[test]
fn normalize_of_equal_cells_gives_zero() {
    for v in [0_i64, 1, -ONE, i64::MAX, i64::MIN] {
        let mut grid: Grid = grid_of(3, vec![vec![v, v, v], vec![v, v, v]]);
        grid.normalize();
        assert_eq!(cells_of(&grid), vec![vec![0, 0, 0], vec![0, 0, 0]]);
    }
    let mut single: Grid = grid_of(1, vec![vec![77]]);
    single.normalize();
    assert_eq!(cells_of(&single), vec![vec![0]]);
}

#[test]
fn normalize_of_a_grid_without_cells_changes_nothing() {
    let mut grid: Grid = grid_of(0, vec![vec![], vec![]]);
    grid.normalize();
    assert_eq!(grid.width, 0);
    assert_eq!(cells_of(&grid), vec![Vec::<i64>::new(), Vec::new()]);
    let mut none: Grid = grid_of(4, vec![]);
    none.normalize();
    assert_eq!(none.width, 4);
    assert!(none.rows.is_empty());
}

#[test]
fn normalize_covers_the_whole_range_of_numbers() {
    let mut grid: Grid = grid_of(3, vec![vec![i64::MIN, 0, i64::MAX]]);
    grid.normalize();
    assert_eq!(cells_of(&grid), vec![vec![0, HALF, ONE]]);
}

#[test]
fn sample_places_pixels_on_the_centered_square() {
    let along_x: Field = scale(sine_field(fx(0), fx(0)), fx(ONE));
    let grid: Grid = sample(&along_x, 4, 3);
    assert_eq!(grid.width, 4);
    assert_eq!(grid.height(), 3);
    for row in cells_of(&grid) {
        let want: Vec<i64> =
            [-HALF, -HALF / 2, 0, HALF / 2].iter().map(|x| fx(*x).sin().bits).collect();
        assert_eq!(row, want);
    }
    let along_y: Field = sine_field(fx(HALF_PI), fx(0));
    let grid: Grid = sample(&along_y, 2, 3);
    let want_rows: [i64; 3] = [-2147483648, -715827883, 715827882];
    for (row, y) in cells_of(&grid).iter().zip(want_rows) {
        let want: i64 = fx(0).mul(fx(-HALF)).add(fx(ONE).mul(fx(y))).sin().bits;
        assert_eq!(row[0], want);
        assert_eq!(fx(HALF_PI).cos().bits, 0);
        assert_eq!(fx(HALF_PI).sin().bits, ONE);
    }
}

#[test]
fn sample_without_pixels() {
    let field: Field = sine_field(fx(0), fx(0));
    let no_rows: Grid = sample(&field, 5, 0);
    assert_eq!(no_rows.width, 5);
    assert!(no_rows.rows.is_empty());
    let no_columns: Grid = sample(&field, 0, 3);
    assert_eq!(no_columns.width, 0);
    assert_eq!(no_columns.rows.len(), 3);
    assert!(no_columns.rows.iter().all(|row| row.is_empty()));
    let normalized: Grid = sample_and_normalize(&field, 0, 3);
    assert_eq!(normalized.rows.len(), 3);
    assert!(normalized.rows.iter().all(|row| row.is_empty()));
}

#[test]
fn sample_of_a_single_pixel() {
    let field: Field = sine_field(fx(0), fx(0));
    let grid: Grid = sample(&field, 1, 1);
    assert_eq!(cells_of(&grid), vec![vec![fx(-HALF).sin().bits]]);
    let normalized: Grid = sample_and_normalize(&field, 1, 1);
    assert_eq!(cells_of(&normalized), vec![vec![0]]);
}

#[test]
fn sample_and_normalize_sine_on_four_by_four() {
    let field: Field = sine_field(fx(0), fx(0));
    let raw: Grid = sample(&field, 4, 4);
    assert_eq!(raw.width, 4);
    assert_eq!(raw.height(), 4);
    let hand: [f64; 4] = [
        -0.479425538604203,
        -0.24740395925452294,
        0.0,
        0.24740395925452294,
    ];
    for row in cells_of(&raw) {
        assert_eq!(row, vec![-2059117009, -1062591914, 0, 1062591914]);
        for (x, v) in row.iter().enumerate() {
            assert!((*v as f64 / ONE as f64 - hand[x]).abs() < 1e-9);
            assert!((*v as f64 / ONE as f64 - (x as f64 / 4.0 - 0.5).sin()).abs() < 1e-9);
        }
    }
    let (lo, hi) = raw.extent().unwrap();
    assert_eq!((lo.bits, hi.bits), (-2059117009, 1062591914));
    let grid: Grid = sample_and_normalize(&field, 4, 4);
    assert_eq!(grid.width, 4);
    assert_eq!(grid.height(), 4);
    for row in cells_of(&grid) {
        assert_eq!(row, vec![0, 1371057583, 2833012439, 4294967296]);
        for (x, v) in row.iter().enumerate() {
            let want: f64 = (hand[x] - hand[0]) / (hand[3] - hand[0]);
            assert!((*v as f64 / ONE as f64 - want).abs() < 1e-9);
        }
    }
}

#[test]
fn sample_and_normalize_slanted_ridges() {
    let field: Field = sine_field(fx(HALF_PI / 2), fx(ONE));
    let raw: Grid = sample(&field, 5, 3);
    assert_eq!(
        cells_of(&raw),
        vec![
            vec![1240057705, 1807273752, 2338404527, 2822845105, 3250922815],
            vec![2166042255, 2667171182, 3115045531, 3500722734, 3816502096],
            vec![2972247203, 3379577165, 3719428161, 3985014492, 4171033278],
        ]
    );
    let grid: Grid = sample_and_normalize(&field, 5, 3);
    assert_eq!(
        cells_of(&grid),
        vec![
            vec![0, 831182079, 1609485839, 2319371127, 2946663890],
            vec![1356911123, 2091251038, 2747553226, 3312713506, 3775447499],
            vec![2538300664, 3135190274, 3633198147, 4022380717, 4294967296],
        ]
    );
}

#[test]
fn sample_and_normalize_stays_in_the_unit_range_and_reaches_its_ends() {
    let fields: Vec<Field> = vec![
        sine_field(fx(0), fx(0)),
        sine_field(fx(ONE), fx(-3 * ONE)),
        scale(sine_field(fx(2 * ONE), fx(HALF)), Fixed::from_ratio(3, 10)),
        Field::Sum {
            terms: vec![
                sine_field(fx(0), fx(0)),
                scale(sine_field(fx(ONE), fx(ONE)), fx(HALF)),
                scale(sine_field(fx(5 * ONE), fx(2 * ONE)), fx(HALF / 2)),
            ],
        },
    ];
    for field in &fields {
        for (width, height) in [(1_u32, 2_u32), (2, 1), (3, 3), (7, 5), (16, 9)] {
            let raw: Grid = sample(field, width, height);
            let (lo, hi) = raw.extent().unwrap();
            let grid: Grid = sample_and_normalize(field, width, height);
            assert_eq!(grid.width, width as usize);
            assert_eq!(grid.rows.len(), height as usize);
            let cells: Vec<i64> = cells_of(&grid).concat();
            assert_eq!(cells.len(), (width * height) as usize);
            assert!(cells.iter().all(|v| 0 <= *v && *v <= ONE));
            if lo.bits != hi.bits {
                assert!(cells.contains(&0));
                assert!(cells.contains(&ONE));
            } else {
                assert!(cells.iter().all(|v| *v == 0));
            }
        }
    }
}

#[test]
fn sample_and_normalize_of_the_zero_field_is_zero() {
    let zero: Field = Field::Sum { terms: Vec::new() };
    for (width, height) in [(1_u32, 1_u32), (4, 4), (3, 7), (10, 2)] {
        let grid: Grid = sample_and_normalize(&zero, width, height);
        assert_eq!(grid.rows.len(), height as usize);
        for row in cells_of(&grid) {
            assert_eq!(row, vec![0; width as usize]);
        }
    }
}

#[test]
fn sample_and_normalize_of_a_constant_field_is_zero() {
    let constant: Field = Field::Sum {
        terms: vec![scale(sine_field(fx(0), fx(HALF_PI)), fx(i64::MAX))],
    };
    let raw: Grid = sample(&constant, 3, 2);
    let first: i64 = raw.rows[0][0].bits;
    assert!(first != 0);
    assert!(cells_of(&raw).concat().iter().all(|v| *v == first));
    let grid: Grid = sample_and_normalize(&constant, 3, 2);
    assert_eq!(cells_of(&grid), vec![vec![0, 0, 0], vec![0, 0, 0]]);
}

#[test]
fn sample_and_normalize_equals_sample_then_normalize() {
    let field: Field = scale(sine_field(fx(ONE), fx(2 * ONE)), Fixed::from_ratio(1, 7));
    let mut by_hand: Grid = sample(&field, 6, 4);
    by_hand.normalize();
    let at_once: Grid = sample_and_normalize(&field, 6, 4);
    assert_eq!(cells_of(&by_hand), cells_of(&at_once));
}
