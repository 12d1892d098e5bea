use tracer::color::Pixel;
use tracer::raster::order_pixels;
use tracer::raster::Keyed;

#[test]
fn order_pixels_sorts_by_place() {
    let finished: Vec<Keyed> = vec![
        ((1, 0), (10, 10, 10)),
        ((0, 1), (20, 20, 20)),
        ((1, 1), (30, 30, 30)),
        ((0, 0), (40, 40, 40)),
    ];
    let pixels = order_pixels(finished);
    assert_eq!(pixels, vec![(40, 40, 40), (20, 20, 20), (10, 10, 10), (30, 30, 30)]);
}

#[test]
fn order_pixels_row_counts_before_column() {
    let finished: Vec<Keyed> = vec![((1, 0), (1, 0, 0)), ((0, 9), (2, 0, 0))];
    assert_eq!(order_pixels(finished), vec![(2, 0, 0), (1, 0, 0)]);
}

#[test]
fn order_pixels_keeps_what_is_in_order() {
    let finished: Vec<Keyed> = vec![((0, 0), (9, 9, 9)), ((0, 1), (5, 5, 5)), ((2, 0), (1, 1, 1))];
    assert_eq!(order_pixels(finished), vec![(9, 9, 9), (5, 5, 5), (1, 1, 1)]);
}

#[test]
fn order_pixels_same_place_goes_by_colour() {
    let finished: Vec<Keyed> = vec![
        ((0, 0), (1, 2, 3)),
        ((0, 0), (1, 2, 2)),
        ((0, 0), (0, 255, 255)),
        ((0, 0), (1, 1, 255)),
    ];
    assert_eq!(order_pixels(finished), vec![(0, 255, 255), (1, 1, 255), (1, 2, 2), (1, 2, 3)]);
}

#[test]
fn order_pixels_of_nothing() {
    let finished: Vec<Keyed> = vec![];
    let pixels: Vec<Pixel> = order_pixels(finished);
    assert!(pixels.is_empty());
}

#[test]
fn order_pixels_of_a_reversed_picture() {
    // Long enough for the parallel sort to split the work.
    let (height, width) = (60usize, 50usize);
    let mut finished: Vec<Keyed> = Vec::new();
    for row in (0..height).rev() {
        for col in (0..width).rev() {
            finished.push(((row, col), (row as u8, col as u8, 0)));
        }
    }
    let pixels = order_pixels(finished);
    assert_eq!(pixels.len(), height * width);
    for (index, pixel) in pixels.iter().enumerate() {
        assert_eq!(*pixel, ((index / width) as u8, (index % width) as u8, 0));
    }
}
