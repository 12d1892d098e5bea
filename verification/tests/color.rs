use tracer::color::write_pixel;
use tracer::color::write_ppm;
use tracer::color::Pixel;

fn create_rainbow_color(image_height: usize, image_width: usize) -> Vec<Pixel> {
    let mut pixels: Vec<Pixel> = vec![];

    for j in (0..image_height).rev() {
        for i in 0..image_width {
            let red: f64 = (i as f64) / (image_width as f64 - 1.);
            let green: f64 = (j as f64) / (image_height as f64 - 1.);
            let blue: f64 = 0.25;

            let pixel: Pixel = (
                (255.999 * red).round() as u8,
                (255.999 * green).round() as u8,
                (255.999 * blue).round() as u8,
            );
            pixels.push(pixel);
        }
    }

    pixels
}

#[test]
fn color_test_rainbow_256x256_write_to_file() {
    let image_height: usize = 256;
    let image_width: usize = 256;

    let mut writer: Vec<u8> = Vec::new();
    let pixels = create_rainbow_color(image_height, image_width);
    let total_bytes_written = write_ppm(&mut writer, (image_height, image_width), &pixels);

    assert_eq!(total_bytes_written, writer.len());
    let text = String::from_utf8(writer).unwrap();
    let mut lines = text.lines();
    assert_eq!(lines.next(), Some("P3"));
    assert_eq!(lines.next(), Some("256 256"));
    assert_eq!(lines.next(), Some("255"));
    assert_eq!(lines.next(), Some("0 255 64"));
    assert_eq!(text.lines().count(), 3 + 256 * 256);
    assert_eq!(text.lines().last(), Some("255 0 64"));
    assert!(text.ends_with('\n'));
}

#[test]
fn write_pixel_writes_one_line() {
    let mut writer: Vec<u8> = Vec::new();
    let written = write_pixel(&mut writer, (128, 77, 51));
    assert_eq!(writer, b"128 77 51\n".to_vec());
    assert_eq!(written, 10);
}

#[test]
fn write_pixel_appends_to_what_is_there() {
    let mut writer: Vec<u8> = b"head\n".to_vec();
    let written = write_pixel(&mut writer, (0, 9, 10));
    assert_eq!(writer, b"head\n0 9 10\n".to_vec());
    assert_eq!(written, 7);
}

#[test]
fn write_pixel_shortest_and_longest_line() {
    let mut writer: Vec<u8> = Vec::new();
    assert_eq!(write_pixel(&mut writer, (0, 0, 0)), 6);
    assert_eq!(write_pixel(&mut writer, (255, 255, 255)), 12);
    assert_eq!(writer, b"0 0 0\n255 255 255\n".to_vec());
}

#[test]
fn write_pixel_every_channel_value_as_to_string() {
    for value in 0..=255u8 {
        let mut writer: Vec<u8> = Vec::new();
        let written = write_pixel(&mut writer, (value, 255 - value, value / 2));
        let expected = format!("{} {} {}\n", value, 255 - value, value / 2);
        assert_eq!(writer, expected.as_bytes().to_vec());
        assert_eq!(written, expected.len());
    }
}

#[test]
fn write_ppm_small_picture() {
    let mut writer: Vec<u8> = Vec::new();
    let pixels: Vec<Pixel> = vec![(255, 0, 0), (0, 255, 0), (0, 0, 255), (12, 34, 56)];
    let written = write_ppm(&mut writer, (2, 2), &pixels);
    let expected = "P3\n2 2\n255\n255 0 0\n0 255 0\n0 0 255\n12 34 56\n";
    assert_eq!(String::from_utf8(writer).unwrap(), expected);
    assert_eq!(written, expected.len());
}

#[test]
fn write_ppm_width_comes_before_height() {
    let mut writer: Vec<u8> = Vec::new();
    let pixels: Vec<Pixel> = vec![];
    let written = write_ppm(&mut writer, (225, 400), &pixels);
    assert_eq!(String::from_utf8(writer).unwrap(), "P3\n400 225\n255\n");
    assert_eq!(written, 15);
}

#[test]
fn write_ppm_large_dimensions_in_decimal() {
    let mut writer: Vec<u8> = Vec::new();
    let pixels: Vec<Pixel> = vec![(1, 2, 3)];
    let written = write_ppm(&mut writer, (0, 1234567890), &pixels);
    let expected = "P3\n1234567890 0\n255\n1 2 3\n";
    assert_eq!(String::from_utf8(writer).unwrap(), expected);
    assert_eq!(written, expected.len());
}

#[test]
fn write_ppm_appends_and_counts_only_its_own_bytes() {
    let mut writer: Vec<u8> = b"# note\n".to_vec();
    let pixels: Vec<Pixel> = vec![(7, 8, 9)];
    let written = write_ppm(&mut writer, (1, 1), &pixels);
    assert_eq!(String::from_utf8(writer).unwrap(), "# note\nP3\n1 1\n255\n7 8 9\n");
    assert_eq!(written, 17);
}
