use raytracer::partition::{merge_worker_results, partition, worker_slice};
use raytracer::ColorU8;

#[test]
fn last_worker_takes_the_remainder() {
    assert_eq!(worker_slice(10, 3, 0), (0, 3));
    assert_eq!(worker_slice(10, 3, 1), (3, 6));
    assert_eq!(worker_slice(10, 3, 2), (6, 10));
}

#[test]
fn full_size_image_splits_evenly() {
    let slices = partition(500 * 400, 8);
    assert_eq!(slices.len(), 8);
    for (k, (start, end)) in slices.iter().enumerate() {
        assert_eq!(*start, k * 25000);
        assert_eq!(*end, (k + 1) * 25000);
    }
}

#[test]
fn fewer_pixels_than_workers() {
    let slices = partition(5, 8);
    assert_eq!(slices.len(), 8);
    for k in 0..7 {
        assert_eq!(slices[k], (0, 0));
    }
    assert_eq!(slices[7], (0, 5));
}

#[test]
fn empty_image_gives_empty_slices() {
    let slices = partition(0, 4);
    assert_eq!(slices, vec![(0, 0), (0, 0), (0, 0), (0, 0)]);
}

#[test]
fn every_pixel_is_rendered_exactly_once() {
    for total in 0..60usize {
        for workers in 1..12usize {
            let slices = partition(total, workers);
            let mut seen = vec![0u32; total];
            for (start, end) in slices.iter() {
                assert!(start <= end);
                assert!(*end <= total);
                for p in *start..*end {
                    seen[p] += 1;
                }
            }
            assert!(seen.iter().all(|n| *n == 1));
            let (last_start, last_end) = slices[workers - 1];
            assert_eq!(last_end - last_start, total / workers + total % workers);
        }
    }
}

fn shade(n: u8) -> ColorU8 {
    ColorU8::new(n, n, n)
}

#[test]
fn merge_puts_each_slice_in_place() {
    let results = vec![
        vec![shade(0), shade(1), shade(2)],
        vec![shade(3), shade(4), shade(5)],
        vec![shade(6), shade(7), shade(8), shade(9)],
    ];
    let image = merge_worker_results(10, &results).unwrap();
    assert_eq!(image.len(), 10);
    for p in 0..10u8 {
        assert_eq!(image[p as usize], shade(p));
    }
}

#[test]
fn merge_refuses_a_short_slice() {
    let results = vec![
        vec![shade(0), shade(1), shade(2)],
        vec![shade(3), shade(4)],
        vec![shade(6), shade(7), shade(8), shade(9)],
    ];
    assert_eq!(merge_worker_results(10, &results), None);
}

#[test]
fn merge_refuses_a_long_slice() {
    let results = vec![vec![shade(0), shade(1)], vec![shade(2), shade(3)]];
    assert_eq!(merge_worker_results(3, &results), None);
}

#[test]
fn merge_without_workers_gives_nothing() {
    let results: Vec<Vec<ColorU8>> = Vec::new();
    assert_eq!(merge_worker_results(0, &results), None);
}

#[test]
fn merge_of_empty_image() {
    let results: Vec<Vec<ColorU8>> = vec![Vec::new(), Vec::new()];
    assert_eq!(merge_worker_results(0, &results), Some(Vec::new()));
}
