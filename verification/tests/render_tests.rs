use particle_sim::frame;
use particle_sim::particles::ParticleSystem;
use particle_sim::render::{DrawMode, Renderer};
use particle_sim::scalar::Scalar;

fn scalar(value: f32) -> Scalar {
    Scalar::from_bits(value.to_bits())
}

fn system_of(width: usize, height: usize, points: &[(f32, f32, f32)]) -> ParticleSystem {
    let mut system = ParticleSystem::new(points.len() + 1, width, height);
    for &(x, y, lifetime) in points {
        system.spawn(
            [scalar(x), scalar(y)],
            [scalar(0.0), scalar(0.0)],
            scalar(1.0),
            scalar(lifetime),
        );
    }
    system
}

fn pixel(frame: &[u8], width: usize, x: usize, y: usize) -> [u8; 4] {
    let at = (y * width + x) * 4;
    [frame[at], frame[at + 1], frame[at + 2], frame[at + 3]]
}

fn lit_pixels(frame: &[u8], width: usize, height: usize) -> Vec<(usize, usize, [u8; 4])> {
    let mut found = Vec::new();
    for y in 0..height {
        for x in 0..width {
            let p = pixel(frame, width, x, y);
            if p != [0, 0, 0, 0] {
                found.push((x, y, p));
            }
        }
    }
    found
}

const WHITE: [u8; 4] = [0xFF, 0xFF, 0xFF, 0xFF];
const GLOW: [u8; 4] = [0xCC, 0xCC, 0xCC, 0xCC];

#[test]
fn new_renderer_has_drawn_nothing() {
    let renderer = Renderer::new(640, 480);
    assert_eq!(renderer.width(), 640);
    assert_eq!(renderer.height(), 480);
    assert_eq!(renderer.mode(), DrawMode::Point);
    assert_eq!(renderer.dirty_rect(), None);
    let discs = Renderer::with_mode(8, 8, DrawMode::Circle { radius: 2 });
    assert_eq!(discs.mode(), DrawMode::Circle { radius: 2 });
    assert_eq!(discs.dirty_rect(), None);
}

#[test]
fn clear_zeroes_every_byte() {
    let mut buffer = vec![0xABu8; 37];
    frame::clear(&mut buffer);
    assert_eq!(buffer, vec![0u8; 37]);
    let mut empty: Vec<u8> = Vec::new();
    frame::clear(&mut empty);
    assert!(empty.is_empty());
}

#[test]
fn pixel_helpers_address_rows_from_the_top() {
    assert_eq!(frame::offset_of(5, 3, 0, 0), 0);
    assert_eq!(frame::offset_of(5, 3, 4, 0), 16);
    assert_eq!(frame::offset_of(5, 3, 0, 1), 20);
    assert_eq!(frame::offset_of(5, 3, 4, 2), 56);
    let mut buffer = vec![0u8; 5 * 3 * 4];
    frame::put_pixel(&mut buffer, 5, 3, 2, 1, 0x11, 0x22);
    let mut expected = vec![0u8; 5 * 3 * 4];
    expected[28] = 0x11;
    expected[29] = 0x11;
    expected[30] = 0x11;
    expected[31] = 0x22;
    assert_eq!(buffer, expected);
    assert_eq!(frame::alpha_of(&buffer, 5, 3, 2, 1), 0x22);
    assert_eq!(frame::alpha_of(&buffer, 5, 3, 1, 1), 0);
}

#[test]
fn draw_of_an_empty_system_clears_the_frame() {
    let mut renderer = Renderer::new(16, 8);
    let system = ParticleSystem::new(10, 16, 8);
    let mut frame = vec![0x5Au8; 16 * 8 * 4];
    renderer.draw(&mut frame, &system);
    assert_eq!(frame, vec![0u8; 16 * 8 * 4]);
    assert_eq!(renderer.dirty_rect(), Some((16, 8, 0, 0)));
}

#[test]
fn draw_writes_every_byte_whatever_the_frame_held() {
    for count in 0..=6usize {
        let points: Vec<(f32, f32, f32)> =
            (0..count).map(|i| (1.0 + 2.0 * i as f32, 1.0 + i as f32, 1.0)).collect();
        let system = system_of(16, 8, &points);
        let mut renderer = Renderer::new(16, 8);
        let mut from_zero = vec![0u8; 16 * 8 * 4];
        let mut from_junk: Vec<u8> = (0..16 * 8 * 4).map(|k| (k * 31 + 7) as u8).collect();
        renderer.draw(&mut from_zero, &system);
        renderer.draw(&mut from_junk, &system);
        assert_eq!(from_zero, from_junk);
        for i in 0..count {
            assert_eq!(pixel(&from_zero, 16, 1 + 2 * i, 1 + i), WHITE);
        }
    }
}

#[test]
fn draw_of_a_zero_sized_frame_does_nothing() {
    let mut renderer = Renderer::new(0, 5);
    let system = system_of(10, 10, &[(0.0, 0.0, 1.0), (3.0, 3.0, 1.0)]);
    let mut frame: Vec<u8> = Vec::new();
    renderer.draw(&mut frame, &system);
    assert!(frame.is_empty());
    assert_eq!(renderer.dirty_rect(), Some((0, 5, 0, 0)));
}

#[test]
fn one_point_is_one_white_pixel() {
    let mut renderer = Renderer::new(10, 6);
    let system = system_of(10, 6, &[(3.7, 2.2, 0.25)]);
    let mut frame = vec![0x77u8; 10 * 6 * 4];
    renderer.draw(&mut frame, &system);
    assert_eq!(lit_pixels(&frame, 10, 6), vec![(3, 2, WHITE)]);
    assert_eq!(renderer.dirty_rect(), Some((3, 2, 3, 2)));
}

#[test]
fn points_outside_the_frame_are_clipped() {
    let mut renderer = Renderer::new(10, 6);
    let system = system_of(
        10,
        6,
        &[
            (-100.0, -100.0, 1.0),
            (-1.0, 2.0, 1.0),
            (2.0, -1.0, 1.0),
            (10.0, 2.0, 1.0),
            (2.0, 6.0, 1.0),
            (1.0e20, 1.0, 1.0),
            (f32::INFINITY, 1.0, 1.0),
            (f32::NEG_INFINITY, 1.0, 1.0),
            (4.0e9, 4.0e9, 1.0),
        ],
    );
    let mut frame = vec![0x77u8; 10 * 6 * 4];
    renderer.draw(&mut frame, &system);
    assert_eq!(frame, vec![0u8; 10 * 6 * 4]);
    assert_eq!(renderer.dirty_rect(), Some((10, 6, 0, 0)));
}

#[test]
fn points_on_the_edge_are_drawn() {
    let mut renderer = Renderer::new(10, 6);
    let system = system_of(
        10,
        6,
        &[(0.0, 0.0, 1.0), (9.99, 5.99, 1.0), (-0.5, 5.0, 1.0), (f32::NAN, 3.0, 1.0)],
    );
    let mut frame = vec![0u8; 10 * 6 * 4];
    renderer.draw(&mut frame, &system);
    assert_eq!(pixel(&frame, 10, 0, 0), WHITE);
    assert_eq!(pixel(&frame, 10, 9, 5), WHITE);
    assert_eq!(pixel(&frame, 10, 0, 5), WHITE);
    assert_eq!(pixel(&frame, 10, 0, 3), WHITE);
    assert_eq!(renderer.dirty_rect(), Some((0, 0, 9, 5)));
}

#[test]
fn dirty_rectangle_spans_the_particles_within_the_frame() {
    let mut renderer = Renderer::new(20, 20);
    let system = system_of(
        20,
        20,
        &[(5.0, 7.0, 1.0), (12.0, 3.0, 1.0), (-100.0, -100.0, 1.0), (8.0, 15.0, 1.0), (30.0, 1.0, 1.0)],
    );
    let mut frame = vec![0u8; 20 * 20 * 4];
    renderer.draw(&mut frame, &system);
    assert_eq!(renderer.dirty_rect(), Some((5, 3, 12, 15)));
}

#[test]
fn dilation_fills_in_round_points_within_the_rectangle() {
    let mut renderer = Renderer::new(12, 12);
    let system = system_of(12, 12, &[(2.0, 2.0, 1.0), (5.0, 5.0, 1.0), (9.0, 9.0, 1.0)]);
    let mut frame = vec![0u8; 12 * 12 * 4];
    renderer.draw(&mut frame, &system);
    assert_eq!(renderer.dirty_rect(), Some((2, 2, 9, 9)));
    let expected = vec![
        (2, 2, WHITE),
        (3, 2, GLOW),
        (2, 3, GLOW),
        (3, 3, GLOW),
        (4, 4, GLOW),
        (5, 4, GLOW),
        (6, 4, GLOW),
        (4, 5, GLOW),
        (5, 5, WHITE),
        (6, 5, GLOW),
        (4, 6, GLOW),
        (5, 6, GLOW),
        (6, 6, GLOW),
        (8, 8, GLOW),
        (9, 8, GLOW),
        (8, 9, GLOW),
        (9, 9, WHITE),
    ];
    assert_eq!(lit_pixels(&frame, 12, 12), expected);
}

#[test]
fn dilation_reaches_the_last_row_and_column_of_the_rectangle() {
    let mut renderer = Renderer::new(8, 3);
    let system = system_of(8, 3, &[(0.0, 0.0, 1.0), (6.0, 2.0, 1.0)]);
    let mut frame = [0u8; 96];
    renderer.draw(&mut frame, &system);
    assert_eq!(renderer.dirty_rect(), Some((0, 0, 6, 2)));
    assert_eq!(frame[84..88], [0xCC; 4]);
    assert_eq!(frame[56..60], [0xCC; 4]);
    assert_eq!(
        lit_pixels(&frame, 8, 3),
        vec![
            (0, 0, WHITE),
            (1, 0, GLOW),
            (0, 1, GLOW),
            (1, 1, GLOW),
            (5, 1, GLOW),
            (6, 1, GLOW),
            (5, 2, GLOW),
            (6, 2, WHITE),
        ]
    );
}

#[test]
fn rectangle_of_no_particle_holds_no_pixel() {
    let mut renderer = Renderer::new(3, 3);
    let system = system_of(3, 3, &[(-5.0, 1.0, 1.0)]);
    let mut frame = vec![0u8; 3 * 3 * 4];
    renderer.draw(&mut frame, &system);
    assert_eq!(renderer.dirty_rect(), Some((3, 3, 0, 0)));
    let mut picture = vec![0u8; 3 * 3 * 4];
    frame::put_pixel(&mut picture, 3, 3, 1, 1, 0xFF, 0xFF);
    let before = picture.clone();
    renderer.dilation(&mut picture);
    assert_eq!(picture, before);
}

#[test]
fn dilation_leaves_one_isolated_point_alone() {
    let mut renderer = Renderer::new(9, 9);
    let system = system_of(9, 9, &[(4.0, 4.0, 1.0)]);
    let mut frame = vec![0u8; 9 * 9 * 4];
    renderer.draw(&mut frame, &system);
    assert_eq!(renderer.dirty_rect(), Some((4, 4, 4, 4)));
    assert_eq!(lit_pixels(&frame, 9, 9), vec![(4, 4, WHITE)]);
    let before = frame.clone();
    renderer.dilation(&mut frame);
    assert_eq!(frame, before);
}

#[test]
fn dilation_touches_nothing_outside_the_rectangle() {
    let mut renderer = Renderer::new(10, 10);
    let system = system_of(10, 10, &[(3.0, 3.0, 1.0), (6.0, 6.0, 1.0)]);
    let mut frame = vec![0u8; 10 * 10 * 4];
    renderer.draw(&mut frame, &system);
    assert_eq!(renderer.dirty_rect(), Some((3, 3, 6, 6)));
    let mut busy: Vec<u8> = vec![0u8; 10 * 10 * 4];
    for y in 0..10usize {
        for x in 0..10usize {
            if (x + y) % 3 == 0 {
                frame::put_pixel(&mut busy, 10, 10, x, y, 0x40, 0x80);
            }
        }
    }
    let before = busy.clone();
    renderer.dilation(&mut busy);
    for y in 0..10usize {
        for x in 0..10usize {
            let inside = (3..=6).contains(&x) && (3..=6).contains(&y);
            if inside && (x + y) % 3 != 0 {
                assert_eq!(pixel(&busy, 10, x, y), GLOW, "pixel {} {}", x, y);
            } else {
                assert_eq!(pixel(&busy, 10, x, y), pixel(&before, 10, x, y), "pixel {} {}", x, y);
            }
        }
    }
    assert_eq!(renderer.dirty_rect(), Some((3, 3, 6, 6)));
}

#[test]
fn dilation_judges_by_the_frame_as_it_was() {
    let mut renderer = Renderer::new(8, 3);
    let system = system_of(8, 3, &[(0.0, 0.0, 1.0), (7.0, 2.0, 1.0)]);
    let mut frame = vec![0u8; 8 * 3 * 4];
    renderer.draw(&mut frame, &system);
    assert_eq!(renderer.dirty_rect(), Some((0, 0, 7, 2)));
    let mut row = vec![0u8; 8 * 3 * 4];
    frame::put_pixel(&mut row, 8, 3, 0, 0, 0xFF, 0xFF);
    renderer.dilation(&mut row);
    assert_eq!(
        lit_pixels(&row, 8, 3),
        vec![(0, 0, WHITE), (1, 0, GLOW), (0, 1, GLOW), (1, 1, GLOW)]
    );
}

#[test]
fn dilation_fills_transparent_pixels_only() {
    let mut renderer = Renderer::new(6, 6);
    let system = system_of(6, 6, &[(0.0, 0.0, 1.0), (5.0, 5.0, 1.0)]);
    let mut frame = vec![0u8; 6 * 6 * 4];
    renderer.draw(&mut frame, &system);
    assert_eq!(renderer.dirty_rect(), Some((0, 0, 5, 5)));
    let mut picture = vec![0u8; 6 * 6 * 4];
    frame::put_pixel(&mut picture, 6, 6, 2, 2, 0x10, 0xFF);
    frame::put_pixel(&mut picture, 6, 6, 3, 2, 0x20, 0x01);
    frame::put_pixel(&mut picture, 6, 6, 3, 3, 0x50, 0x80);
    frame::put_pixel(&mut picture, 6, 6, 0, 4, 0x30, 0x00);
    renderer.dilation(&mut picture);
    assert_eq!(pixel(&picture, 6, 2, 2), [0x10, 0x10, 0x10, 0xFF]);
    assert_eq!(pixel(&picture, 6, 3, 2), [0x20, 0x20, 0x20, 0x01]);
    assert_eq!(pixel(&picture, 6, 3, 3), [0x50, 0x50, 0x50, 0x80]);
    assert_eq!(pixel(&picture, 6, 4, 2), GLOW);
    assert_eq!(pixel(&picture, 6, 4, 4), GLOW);
    assert_eq!(pixel(&picture, 6, 1, 1), GLOW);
    assert_eq!(pixel(&picture, 6, 0, 4), [0x30, 0x30, 0x30, 0x00]);
    assert_eq!(pixel(&picture, 6, 5, 5), [0, 0, 0, 0]);
    assert_eq!(pixel(&picture, 6, 0, 0), [0, 0, 0, 0]);
}

#[test]
fn dilation_before_any_frame_does_nothing() {
    let mut renderer = Renderer::new(4, 4);
    let mut frame: Vec<u8> = (0..64).map(|k| k as u8).collect();
    let before = frame.clone();
    renderer.dilation(&mut frame);
    assert_eq!(frame, before);
    let mut odd = vec![9u8; 5];
    renderer.dilation(&mut odd);
    assert_eq!(odd, vec![9u8; 5]);
}

#[test]
fn draw_point_fast_clips() {
    let renderer = Renderer::new(4, 3);
    let mut frame = vec![0u8; 4 * 3 * 4];
    renderer.draw_point_fast(&mut frame, 4, 0);
    renderer.draw_point_fast(&mut frame, 0, 3);
    renderer.draw_point_fast(&mut frame, -1, 0);
    renderer.draw_point_fast(&mut frame, 0, -1);
    renderer.draw_point_fast(&mut frame, i64::MAX, i64::MIN);
    assert_eq!(frame, vec![0u8; 4 * 3 * 4]);
    renderer.draw_point_fast(&mut frame, 3, 2);
    assert_eq!(lit_pixels(&frame, 4, 3), vec![(3, 2, WHITE)]);
}

#[test]
fn circle_fills_the_disc() {
    let renderer = Renderer::with_mode(9, 9, DrawMode::Circle { radius: 2 });
    let mut frame = vec![0u8; 9 * 9 * 4];
    renderer.draw_circle(&mut frame, 4, 4, 2, scalar(0.5));
    let ink = [0xFF, 0xFF, 0xFF, 127];
    let mut expected = Vec::new();
    for y in 0..9i64 {
        for x in 0..9i64 {
            if (x - 4) * (x - 4) + (y - 4) * (y - 4) <= 4 {
                expected.push((x as usize, y as usize, ink));
            }
        }
    }
    assert_eq!(expected.len(), 13);
    assert_eq!(lit_pixels(&frame, 9, 9), expected);
}

#[test]
fn circle_is_clipped_at_the_frame() {
    let renderer = Renderer::new(5, 4);
    let mut frame = vec![0u8; 5 * 4 * 4];
    renderer.draw_circle(&mut frame, -1, 0, 2, scalar(1.0));
    assert_eq!(
        lit_pixels(&frame, 5, 4),
        vec![(0, 0, WHITE), (1, 0, WHITE), (0, 1, WHITE)]
    );
    let mut far = vec![0u8; 5 * 4 * 4];
    renderer.draw_circle(&mut far, 8, 8, 2, scalar(1.0));
    renderer.draw_circle(&mut far, i64::MAX, i64::MAX, i16::MAX, scalar(1.0));
    renderer.draw_circle(&mut far, i64::MIN, i64::MIN, i16::MAX, scalar(1.0));
    renderer.draw_circle(&mut far, 2, 2, -1, scalar(1.0));
    renderer.draw_circle(&mut far, 2, 2, i16::MIN, scalar(1.0));
    assert_eq!(far, vec![0u8; 5 * 4 * 4]);
}

#[test]
fn circle_of_radius_zero_is_one_pixel() {
    let renderer = Renderer::new(5, 4);
    let mut frame = vec![0u8; 5 * 4 * 4];
    renderer.draw_circle(&mut frame, 2, 1, 0, scalar(0.2));
    assert_eq!(lit_pixels(&frame, 5, 4), vec![(2, 1, [0xFF, 0xFF, 0xFF, 51])]);
}

#[test]
fn large_circle_covers_the_whole_frame() {
    let renderer = Renderer::new(6, 5);
    let mut frame = vec![0u8; 6 * 5 * 4];
    renderer.draw_circle(&mut frame, 3, 2, i16::MAX, scalar(1.0));
    assert_eq!(lit_pixels(&frame, 6, 5).len(), 30);
    assert!(frame.iter().all(|&b| b == 0xFF));
}

#[test]
fn later_discs_lie_over_earlier_ones() {
    let mut renderer = Renderer::with_mode(12, 7, DrawMode::Circle { radius: 1 });
    let system = system_of(12, 7, &[(3.0, 3.0, 1.0), (4.0, 3.0, 0.5)]);
    let mut frame = vec![0u8; 12 * 7 * 4];
    renderer.draw(&mut frame, &system);
    assert_eq!(renderer.dirty_rect(), Some((3, 3, 4, 3)));
    let first = WHITE;
    let second = [0xFF, 0xFF, 0xFF, 127];
    assert_eq!(
        lit_pixels(&frame, 12, 7),
        vec![
            (3, 2, first),
            (4, 2, second),
            (2, 3, first),
            (3, 3, second),
            (4, 3, second),
            (5, 3, second),
            (3, 4, first),
            (4, 4, second),
        ]
    );
}

#[test]
fn disc_mode_draws_transparent_discs_for_spent_particles() {
    let mut renderer = Renderer::with_mode(8, 8, DrawMode::Circle { radius: 1 });
    let system = system_of(8, 8, &[(2.0, 2.0, 0.0)]);
    let mut frame = vec![0u8; 8 * 8 * 4];
    renderer.draw(&mut frame, &system);
    assert_eq!(
        lit_pixels(&frame, 8, 8),
        vec![
            (2, 1, [0xFF, 0xFF, 0xFF, 0]),
            (1, 2, [0xFF, 0xFF, 0xFF, 0]),
            (2, 2, [0xFF, 0xFF, 0xFF, 0]),
            (3, 2, [0xFF, 0xFF, 0xFF, 0]),
            (2, 3, [0xFF, 0xFF, 0xFF, 0]),
        ]
    );
}

#[test]
fn renderer_and_store_need_not_agree_on_the_size() {
    let mut renderer = Renderer::new(4, 4);
    let system = system_of(640, 480, &[(1.0, 1.0, 1.0), (300.0, 200.0, 1.0)]);
    let mut frame = vec![0u8; 4 * 4 * 4];
    renderer.draw(&mut frame, &system);
    assert_eq!(lit_pixels(&frame, 4, 4), vec![(1, 1, WHITE)]);
    assert_eq!(renderer.dirty_rect(), Some((1, 1, 1, 1)));
}
