use libtrace::coordinator::{average_pixels, worker_count, worker_image, SAMPLES_PER_WORKER};
use libtrace::renderer::{get_pixels_to_render, rgba_bytes};
use libtrace::scene::{Image, ImageSlice, Rendered};

fn image(width: u32, height: u32, slice: Option<ImageSlice>) -> Image {
    Image { height, width, samples: 100, slice }
}

#[test]
fn num_pixels_of_whole_image() {
    let img = image(200, 100, None);
    assert_eq!(img.width(), 200);
    assert_eq!(img.height(), 100);
    assert_eq!(img.num_pixels(), 20000);
}

#[test]
fn num_pixels_of_band() {
    let img = image(200, 100, Some(ImageSlice { top: 40, height: 10 }));
    assert_eq!(img.width(), 200);
    assert_eq!(img.height(), 10);
    assert_eq!(img.num_pixels(), 2000);
}

#[test]
fn pixels_run_from_top_row_down() {
    let img = image(3, 2, None);
    let pixels = get_pixels_to_render(&img);
    assert_eq!(pixels, vec![(0, 1), (1, 1), (2, 1), (0, 0), (1, 0), (2, 0)]);
}

#[test]
fn pixels_of_band_are_shifted() {
    let img = image(2, 10, Some(ImageSlice { top: 4, height: 2 }));
    let pixels = get_pixels_to_render(&img);
    assert_eq!(pixels, vec![(0, 7), (1, 7), (0, 6), (1, 6)]);
}

#[test]
fn empty_image_has_no_pixels() {
    assert!(get_pixels_to_render(&image(0, 5, None)).is_empty());
    assert!(get_pixels_to_render(&image(5, 0, None)).is_empty());
}

#[test]
fn rgba_adds_opaque_alpha() {
    let bytes = rgba_bytes(&vec![(1, 2, 3), (250, 0, 7)]);
    assert_eq!(bytes, vec![1, 2, 3, 255, 250, 0, 7, 255]);
    assert!(rgba_bytes(&vec![]).is_empty());
}

#[test]
fn worker_count_rounds_up() {
    assert_eq!(worker_count(0), 0);
    assert_eq!(worker_count(1), 1);
    assert_eq!(worker_count(5), 1);
    assert_eq!(worker_count(6), 2);
    assert_eq!(worker_count(100), 20);
    assert_eq!(worker_count(u32::MAX), 858993459);
}

#[test]
fn worker_image_keeps_geometry() {
    let img = image(64, 48, Some(ImageSlice { top: 8, height: 4 }));
    let w = worker_image(&img);
    assert_eq!(w.samples, SAMPLES_PER_WORKER);
    assert_eq!(w.samples, 5);
    assert_eq!(w.width, 64);
    assert_eq!(w.height, 48);
    assert_eq!(w.slice, Some(ImageSlice { top: 8, height: 4 }));
}

#[test]
fn average_is_unweighted_and_rounds_down() {
    let img = image(2, 1, None);
    let results = vec![
        Rendered { image: img, pixels: vec![(10, 20, 30), (255, 255, 0)] },
        Rendered { image: img, pixels: vec![(11, 21, 31), (255, 254, 1)] },
        Rendered { image: img, pixels: vec![(12, 20, 30), (255, 0, 1)] },
    ];
    let avg = average_pixels(&results, 2);
    assert_eq!(avg, vec![(11, 20, 30), (255, 169, 0)]);
}

#[test]
fn average_of_one_render_is_that_render() {
    let img = image(3, 1, None);
    let pixels = vec![(1, 2, 3), (4, 5, 6), (7, 8, 9)];
    let results = vec![Rendered { image: img, pixels: pixels.clone() }];
    assert_eq!(average_pixels(&results, 3), pixels);
}
