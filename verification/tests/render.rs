use rtc_rs::canvas::Canvas;
use rtc_rs::canvas::PixelWrite;
use rtc_rs::color::Color;
use rtc_rs::ppm::rgba_from_samples;
use rtc_rs::render::chunk_ranges;
use rtc_rs::render::tile_grid;

fn col(r: f32, g: f32, b: f32) -> Color {
    Color::new(r.to_bits(), g.to_bits(), b.to_bits())
}

#[test]
fn tiles_cover_every_pixel_exactly_once() {
    let width = 33;
    let height = 17;
    let edge = 16;
    let tiles = tile_grid(width, height, edge);

    assert_eq!(tiles.len(), 3 * 2);

    for px in 0..width {
        for py in 0..height {
            let mut owners = 0;
            for t in &tiles {
                if t.x <= px && px < t.x + t.w && t.y <= py && py < t.y + t.h {
                    owners += 1;
                }
            }
            assert_eq!(owners, 1);
        }
    }

    for t in &tiles {
        assert!(t.w >= 1 && t.w <= edge);
        assert!(t.h >= 1 && t.h <= edge);
        assert!(t.x + t.w <= width);
        assert!(t.y + t.h <= height);
    }
}

#[test]
fn an_image_smaller_than_one_tile_is_a_single_tile() {
    let tiles = tile_grid(7, 5, 16);
    assert_eq!(tiles.len(), 1);
    assert_eq!((tiles[0].x, tiles[0].y, tiles[0].w, tiles[0].h), (0, 0, 7, 5));
}

#[test]
fn chunks_split_the_work_contiguously() {
    let r = chunk_ranges(10, 3);
    assert_eq!(r, vec![(0, 3), (3, 6), (6, 10)]);

    let r = chunk_ranges(4, 8);
    assert_eq!(r.len(), 8);
    assert_eq!(r[0].0, 0);
    assert_eq!(r[7].1, 4);
    for i in 0..7 {
        assert_eq!(r[i].1, r[i + 1].0);
    }
    for k in 0..4 {
        let owners = r.iter().filter(|c| c.0 <= k && k < c.1).count();
        assert_eq!(owners, 1);
    }
}

#[test]
fn aggregated_writes_do_not_depend_on_arrival_order() {
    let mut writes: Vec<PixelWrite> = Vec::new();
    for x in 0..4usize {
        for y in 0..3usize {
            writes.push(PixelWrite { x, y, color: col(x as f32 * 0.1, y as f32 * 0.2, 0.5) });
        }
    }
    let mut shuffled = writes.clone();
    shuffled.reverse();
    shuffled.swap(0, 5);
    shuffled.swap(2, 9);

    let mut c1 = Canvas::new(4, 3);
    c1.apply_writes(&writes);
    let mut c2 = Canvas::new(4, 3);
    c2.apply_writes(&shuffled);

    for x in 0..4 {
        for y in 0..3 {
            assert!(c1.pixel_at(x, y) == c2.pixel_at(x, y));
        }
    }
}

#[test]
fn later_writes_to_the_same_pixel_win() {
    let mut c = Canvas::new(2, 2);
    let writes = vec![
        PixelWrite { x: 0, y: 0, color: col(0.1, 0.2, 0.3) },
        PixelWrite { x: 0, y: 0, color: col(0.9, 0.8, 0.7) },
    ];
    c.apply_writes(&writes);
    assert!(c.pixel_at(0, 0) == col(0.9, 0.8, 0.7));
    assert!(c.pixel_at(1, 1) == Color::black());
}

#[test]
fn rgba_appends_an_opaque_alpha_to_every_pixel() {
    let samples: Vec<u8> = vec![255, 0, 0, 0, 128, 0, 0, 0, 255];
    let rgba = rgba_from_samples(&samples);
    assert_eq!(rgba, vec![255, 0, 0, 255, 0, 128, 0, 255, 0, 0, 255, 255]);
}
