use rtc_rs::canvas::Canvas;
use rtc_rs::color::Color;
use rtc_rs::ppm::ppm_encode;

/// A color from numeric channel values, carried bit-exactly.
fn col(r: f32, g: f32, b: f32) -> Color {
    Color::new(r.to_bits(), g.to_bits(), b.to_bits())
}

/// One channel scaled to the 0..=255 sample range.
fn scale(v: f32) -> u8 {
    (v * 255.0).round().clamp(0.0, 255.0) as u8
}

/// The canvas's pixels as scaled samples, three bytes per pixel, row-major.
fn samples(c: &Canvas) -> Vec<u8> {
    let mut out: Vec<u8> = Vec::new();
    for y in 0..c.height {
        for x in 0..c.width {
            let p = c.pixel_at(x, y);
            out.push(scale(f32::from_bits(p.red)));
            out.push(scale(f32::from_bits(p.green)));
            out.push(scale(f32::from_bits(p.blue)));
        }
    }
    out
}

fn to_ppm(c: &Canvas) -> String {
    String::from_utf8(ppm_encode(c.width, c.height, &samples(c))).unwrap()
}

#[test]
fn creating_a_canvas() {
    let w = 10;
    let h = 20;

    let c = Canvas::new(w, h);
    let color = Color::black();
    for x in 0..c.width - 1 {
        for y in 0..c.height - 1 {
            assert!(c.pixel_at(x, y) == color);
        }
    }

    assert_eq!(c.width, w);
    assert_eq!(c.height, h);
    assert_eq!(c.data_size(), w as usize * h as usize);
}

#[test]
fn writing_pixels_to_a_canvas() {
    let w: usize = 10;
    let h: usize = 20;
    let color: Color = col(0.2, 0.4, 0.6);
    let mut c: Canvas = Canvas::new(w, h);

    c.write_pixel(3, 3, color);

    let result: Color = c.pixel_at(3, 3);

    assert!(result == color);
}

#[test]
fn constructing_ppm_header() {
    let c = Canvas::new(5, 3);

    let ppm: String = to_ppm(&c);
    let l1: String = ppm.lines().take(1).collect();
    let l2: String = ppm.lines().skip(1).take(1).collect();
    let l3: String = ppm.lines().skip(2).take(1).collect();

    assert!(l1 == "P3");
    assert!(l2 == format!("{} {}", c.width.to_string(), c.height.to_string()));
    assert!(l3 == "255");
}

#[test]
fn constructing_ppm_pixel_data() {
    let mut canvas = Canvas::new(5, 3);
    let color1 = col(1.5, 0.0, 0.0);
    let color2 = col(0.0, 0.5, 0.0);
    let color3 = col(-0.5, 0.0, 1.0);

    canvas.write_pixel(0, 0, color1);
    canvas.write_pixel(2, 1, color2);
    canvas.write_pixel(4, 2, color3);

    let ppm = to_ppm(&canvas);

    let expected_ppm = String::from("P3\n5 3\n255\n255 0 0 0 0 0 0 0 0 0 0 0 0 0 0 0 0 0 0 0 0 0 128 0 0 0 0 0 0 0 0 0 0\n0 0 0 0 0 0 0 0 0 0 0 255\n");

    assert_eq!(ppm, expected_ppm);
}

#[test]
fn splitting_long_lines_in_ppm_files() {
    let mut c = Canvas::new(10, 2);
    for x in 0..10 - 1 {
        for y in 0..2 - 1 {
            c.write_pixel(x, y, col(1.0, 0.8, 0.6));
        }
    }

    let ppm = to_ppm(&c);
    let lines = ppm.lines().skip(3);

    for l in lines {
        assert!(l.len() <= 70);
    }
}

#[test]
fn ppm_ends_in_newline() {
    let c = Canvas::new(10, 2);
    let ppm = to_ppm(&c);

    assert!(ppm.ends_with('\n'));
}

#[test]
fn canvas_tests_creating_a_canvas() {
    let w = 10;
    let h = 20;

    let c = Canvas::new(w, h);
    let color = Color::black();
    for x in 0..c.width - 1 {
        for y in 0..c.height - 1 {
            assert!(c.pixel_at(x, y) == color);
        }
    }

    assert_eq!(c.width, w);
    assert_eq!(c.height, h);
    assert_eq!(c.data_size(), w as usize * h as usize);
}

#[test]
fn canvas_tests_writing_pixels_to_a_canvas() {
    let w: usize = 10;
    let h: usize = 20;
    let color: Color = col(0.2, 0.4, 0.6);
    let mut c: Canvas = Canvas::new(w, h);

    c.write_pixel(3, 3, color);

    let result: Color = c.pixel_at(3, 3);

    assert!(result == color);
}

#[test]
fn canvas_tests_constructing_ppm_header() {
    let c = Canvas::new(5, 3);

    let ppm: String = to_ppm(&c);
    let l1: String = ppm.lines().take(1).collect();
    let l2: String = ppm.lines().skip(1).take(1).collect();
    let l3: String = ppm.lines().skip(2).take(1).collect();

    assert!(l1 == "P3");
    assert!(l2 == format!("{} {}", c.width.to_string(), c.height.to_string()));
    assert!(l3 == "255");
}

#[test]
fn canvas_tests_constructing_ppm_pixel_data() {
    let mut canvas = Canvas::new(5, 3);
    let color1 = col(1.5, 0.0, 0.0);
    let color2 = col(0.0, 0.5, 0.0);
    let color3 = col(-0.5, 0.0, 1.0);

    canvas.write_pixel(0, 0, color1);
    canvas.write_pixel(2, 1, color2);
    canvas.write_pixel(4, 2, color3);

    let ppm = to_ppm(&canvas);

    let expected_ppm = String::from("P3\n5 3\n255\n255 0 0 0 0 0 0 0 0 0 0 0 0 0 0 0 0 0 0 0 0 0 128 0 0 0 0 0 0 0 0 0 0\n0 0 0 0 0 0 0 0 0 0 0 255\n");

    assert_eq!(ppm, expected_ppm);
}

#[test]
fn canvas_tests_splitting_long_lines_in_ppm_files() {
    let mut c = Canvas::new(10, 2);
    for x in 0..10 - 1 {
        for y in 0..2 - 1 {
            c.write_pixel(x, y, col(1.0, 0.8, 0.6));
        }
    }

    let ppm = to_ppm(&c);
    let lines = ppm.lines().skip(3);

    for l in lines {
        assert!(l.len() <= 70);
    }
}

#[test]
fn canvas_tests_ppm_ends_in_newline() {
    let c = Canvas::new(10, 2);
    let ppm = to_ppm(&c);

    assert!(ppm.ends_with('\n'));
}

#[test]
fn writes_outside_the_canvas_are_ignored() {
    let mut c = Canvas::new(5, 3);
    c.write_pixel(5, 0, col(1.0, 1.0, 1.0));
    c.write_pixel(0, 3, col(1.0, 1.0, 1.0));
    c.write_pixel(100, 100, col(1.0, 1.0, 1.0));

    for x in 0..5 {
        for y in 0..3 {
            assert!(c.pixel_at(x, y) == Color::black());
        }
    }
}

#[test]
fn write_rect_fills_and_clips() {
    let mut c = Canvas::new(6, 4);
    let red = col(1.0, 0.0, 0.0);
    c.write_rect(4, 2, 5, 5, red);

    for x in 0..6 {
        for y in 0..4 {
            let expected = if x >= 4 && y >= 2 { red } else { Color::black() };
            assert!(c.pixel_at(x, y) == expected);
        }
    }
}

#[test]
fn ppm_of_an_empty_canvas_is_the_bare_header() {
    let c = Canvas::new(0, 0);
    assert_eq!(to_ppm(&c), "P3\n0 0\n255\n\n");
}

#[test]
fn white_and_black_carry_unit_and_zero_channels() {
    let w = Color::white();
    assert_eq!(w.red, 1.0f32.to_bits());
    assert_eq!(w.green, 1.0f32.to_bits());
    assert_eq!(w.blue, 1.0f32.to_bits());
    let b = Color::black();
    assert_eq!(b.red, 0.0f32.to_bits());
    assert_eq!(b.green, 0.0f32.to_bits());
    assert_eq!(b.blue, 0.0f32.to_bits());
}
