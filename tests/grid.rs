use raytracer::grid::{output_order, pixel_coordinates};
use raytracer::ColorU8;

#[test]
fn coordinates_run_column_by_column() {
    assert_eq!(
        pixel_coordinates(3, 2),
        vec![(0, 0), (0, 1), (1, 0), (1, 1), (2, 0), (2, 1)]
    );
}

#[test]
fn coordinates_of_an_empty_image() {
    assert_eq!(pixel_coordinates(0, 5), Vec::new());
    assert_eq!(pixel_coordinates(4, 0), Vec::new());
}

#[test]
fn coordinate_count_is_width_times_height() {
    let coords = pixel_coordinates(500, 400);
    assert_eq!(coords.len(), 200000);
    assert_eq!(coords[400], (1, 0));
    assert_eq!(coords[199999], (499, 399));
}

#[test]
fn output_runs_top_row_first_left_to_right() {
    let a = ColorU8::new(1, 0, 0);
    let b = ColorU8::new(2, 0, 0);
    let c = ColorU8::new(3, 0, 0);
    let d = ColorU8::new(4, 0, 0);
    // pixel order: (0,0), (0,1), (1,0), (1,1)
    let image = vec![a, b, c, d];
    assert_eq!(output_order(2, 2, &image), vec![b, d, a, c]);
}

#[test]
fn output_of_a_wide_image() {
    let px: Vec<ColorU8> = (0..6u8).map(|n| ColorU8::new(n, n, n)).collect();
    // width 3, height 2: pixel n is (n / 2, n % 2)
    let out = output_order(3, 2, &px);
    let expected: Vec<ColorU8> = [1u8, 3, 5, 0, 2, 4]
        .iter()
        .map(|n| ColorU8::new(*n, *n, *n))
        .collect();
    assert_eq!(out, expected);
}
