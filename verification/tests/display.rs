use epd_rs::geometry::{BinaryColor, Pixel, Point, Rectangle, Size};
use epd_rs::{DisplayRotation, EpdDisplay};

const ROTATIONS: [DisplayRotation; 4] = [
    DisplayRotation::Rotate0,
    DisplayRotation::Rotate90,
    DisplayRotation::Rotate180,
    DisplayRotation::Rotate270,
];

fn panel() -> Size {
    Size { width: 128, height: 250 }
}

fn bits_of(display: &EpdDisplay) -> Vec<bool> {
    let fb = display.frame_buffer();
    (0..fb.len()).map(|i| fb.contains(i)).collect()
}

#[test]
fn new_display_has_one_clear_bit_per_pixel() {
    let display = EpdDisplay::new(panel(), DisplayRotation::Rotate0);
    let bits = bits_of(&display);
    assert_eq!(bits.len(), 128 * 250);
    assert!(bits.iter().all(|b| !b));
}

#[test]
fn frame_buffer_bit_without_rotation() {
    let display = EpdDisplay::new(panel(), DisplayRotation::Rotate0);
    assert_eq!(display.frame_buffer_bit(Point { x: 0, y: 0 }), Some(0));
    assert_eq!(display.frame_buffer_bit(Point { x: 5, y: 2 }), Some(5 + 2 * 128));
    assert_eq!(display.frame_buffer_bit(Point { x: 127, y: 249 }), Some(127 + 249 * 128));
    assert_eq!(display.frame_buffer_bit(Point { x: 128, y: 0 }), None);
    assert_eq!(display.frame_buffer_bit(Point { x: 0, y: 250 }), None);
    assert_eq!(display.frame_buffer_bit(Point { x: -1, y: 3 }), None);
    assert_eq!(display.frame_buffer_bit(Point { x: 3, y: -1 }), None);
}

#[test]
fn frame_buffer_bit_rotated_90() {
    let display = EpdDisplay::new(panel(), DisplayRotation::Rotate90);
    // (x, y) lands at column 127 - y, row x
    assert_eq!(display.frame_buffer_bit(Point { x: 2, y: 1 }), Some(126 + 2 * 128));
    assert_eq!(display.frame_buffer_bit(Point { x: 0, y: 127 }), Some(0));
    assert_eq!(display.frame_buffer_bit(Point { x: 0, y: 0 }), Some(127));
    assert_eq!(display.frame_buffer_bit(Point { x: 0, y: 128 }), None);
    assert_eq!(display.frame_buffer_bit(Point { x: 250, y: 5 }), None);
}

#[test]
fn frame_buffer_bit_rotated_180() {
    let display = EpdDisplay::new(panel(), DisplayRotation::Rotate180);
    assert_eq!(display.frame_buffer_bit(Point { x: 127, y: 249 }), Some(0));
    assert_eq!(display.frame_buffer_bit(Point { x: 0, y: 0 }), Some(127 + 249 * 128));
    assert_eq!(display.frame_buffer_bit(Point { x: 0, y: 5 }), Some(127 + 244 * 128));
    assert_eq!(display.frame_buffer_bit(Point { x: 128, y: 5 }), None);
}

#[test]
fn frame_buffer_bit_rotated_270() {
    let display = EpdDisplay::new(panel(), DisplayRotation::Rotate270);
    // (x, y) lands at column y, row 249 - x
    assert_eq!(display.frame_buffer_bit(Point { x: 249, y: 0 }), Some(0));
    assert_eq!(display.frame_buffer_bit(Point { x: 0, y: 3 }), Some(3 + 249 * 128));
    assert_eq!(display.frame_buffer_bit(Point { x: 250, y: 3 }), None);
}

#[test]
fn rotations_on_small_panel() {
    let size = Size { width: 4, height: 3 };
    let d90 = EpdDisplay::new(size, DisplayRotation::Rotate90);
    assert_eq!(d90.frame_buffer_bit(Point { x: 0, y: 0 }), Some(3));
    assert_eq!(d90.frame_buffer_bit(Point { x: 2, y: 3 }), Some(8));
    assert_eq!(d90.frame_buffer_bit(Point { x: 0, y: 4 }), None);
    let d180 = EpdDisplay::new(size, DisplayRotation::Rotate180);
    assert_eq!(d180.frame_buffer_bit(Point { x: 0, y: 0 }), Some(11));
    assert_eq!(d180.frame_buffer_bit(Point { x: 3, y: 2 }), Some(0));
    assert_eq!(d180.frame_buffer_bit(Point { x: 4, y: 1 }), None);
    let d270 = EpdDisplay::new(size, DisplayRotation::Rotate270);
    assert_eq!(d270.frame_buffer_bit(Point { x: 0, y: 0 }), Some(8));
    assert_eq!(d270.frame_buffer_bit(Point { x: 2, y: 3 }), Some(3));
    assert_eq!(d270.frame_buffer_bit(Point { x: 3, y: 0 }), None);
}

#[test]
fn extreme_points_have_no_bit() {
    for rotation in ROTATIONS {
        let display = EpdDisplay::new(panel(), rotation);
        for p in [
            Point { x: 0, y: i32::MIN },
            Point { x: i32::MIN, y: 0 },
            Point { x: i32::MAX, y: i32::MAX },
            Point { x: i32::MIN, y: i32::MAX },
        ] {
            assert_eq!(display.frame_buffer_bit(p), None);
        }
    }
}

#[test]
fn bounding_box_turns_with_rotation() {
    let origin = Point { x: 0, y: 0 };
    let upright = Rectangle { top_left: origin, size: Size { width: 128, height: 250 } };
    let sideways = Rectangle { top_left: origin, size: Size { width: 250, height: 128 } };
    assert_eq!(EpdDisplay::new(panel(), DisplayRotation::Rotate0).bounding_box(), upright);
    assert_eq!(EpdDisplay::new(panel(), DisplayRotation::Rotate180).bounding_box(), upright);
    assert_eq!(EpdDisplay::new(panel(), DisplayRotation::Rotate90).bounding_box(), sideways);
    assert_eq!(EpdDisplay::new(panel(), DisplayRotation::Rotate270).bounding_box(), sideways);
}

#[test]
fn draw_sets_white_and_clears_black() {
    let mut display = EpdDisplay::new(panel(), DisplayRotation::Rotate0);
    let pixels = [
        Pixel(Point { x: 1, y: 0 }, BinaryColor::Off),
        Pixel(Point { x: 2, y: 1 }, BinaryColor::Off),
        Pixel(Point { x: 500, y: 0 }, BinaryColor::Off),
    ];
    assert_eq!(display.draw_iter(&pixels), Ok(()));
    let bits = bits_of(&display);
    assert!(bits[1]);
    assert!(bits[2 + 128]);
    assert_eq!(bits.iter().filter(|b| **b).count(), 2);

    assert_eq!(display.draw_iter(&[Pixel(Point { x: 1, y: 0 }, BinaryColor::On)]), Ok(()));
    let bits = bits_of(&display);
    assert!(!bits[1]);
    assert!(bits[2 + 128]);
}

#[test]
fn last_pixel_at_a_point_wins() {
    let mut display = EpdDisplay::new(panel(), DisplayRotation::Rotate90);
    let p = Point { x: 7, y: 9 };
    let bit = display.frame_buffer_bit(p).unwrap();
    let pixels = [Pixel(p, BinaryColor::Off), Pixel(Point { x: 8, y: 9 }, BinaryColor::Off), Pixel(p, BinaryColor::On)];
    display.draw_iter(&pixels).unwrap();
    let bits = bits_of(&display);
    assert!(!bits[bit]);
    assert!(bits[display.frame_buffer_bit(Point { x: 8, y: 9 }).unwrap()]);
}

#[test]
fn clear_fills_every_bit() {
    let mut display = EpdDisplay::new(panel(), DisplayRotation::Rotate0);
    assert_eq!(display.clear(BinaryColor::Off), Ok(()));
    let bits = bits_of(&display);
    assert_eq!(bits.len(), 128 * 250);
    assert!(bits.iter().all(|b| *b));
    assert_eq!(display.clear(BinaryColor::On), Ok(()));
    assert!(bits_of(&display).iter().all(|b| !b));
}

#[test]
fn bounding_box_maps_one_to_one_onto_bits() {
    for rotation in ROTATIONS {
        let display = EpdDisplay::new(Size { width: 3, height: 2 }, rotation);
        let bb = display.bounding_box();
        let mut seen = vec![0; 6];
        for x in -2..6 {
            for y in -2..6 {
                let inside = x >= 0 && y >= 0 && (x as u32) < bb.size.width && (y as u32) < bb.size.height;
                match display.frame_buffer_bit(Point { x, y }) {
                    Some(bit) => {
                        assert!(inside);
                        seen[bit] += 1;
                    }
                    None => assert!(!inside),
                }
            }
        }
        assert_eq!(seen, vec![1; 6]);
    }
}

#[test]
fn pixel_outside_box_is_ignored() {
    let mut display = EpdDisplay::new(Size { width: 4, height: 3 }, DisplayRotation::Rotate180);
    display.draw_iter(&[Pixel(Point { x: 4, y: 1 }, BinaryColor::Off)]).unwrap();
    assert!(bits_of(&display).iter().all(|b| !b));
}

#[test]
fn filling_the_box_equals_clear() {
    for rotation in ROTATIONS {
        for size in [Size { width: 1, height: 1 }, Size { width: 4, height: 3 }] {
            let mut filled = EpdDisplay::new(size, rotation);
            let bb = filled.bounding_box();
            let mut pixels = Vec::new();
            for x in 0..bb.size.width as i32 {
                for y in 0..bb.size.height as i32 {
                    pixels.push(Pixel(Point { x, y }, BinaryColor::Off));
                }
            }
            filled.draw_iter(&pixels).unwrap();
            let mut cleared = EpdDisplay::new(size, rotation);
            cleared.clear(BinaryColor::Off).unwrap();
            assert_eq!(bits_of(&filled), bits_of(&cleared));
        }
    }
}

#[test]
fn drawing_in_two_batches_equals_one() {
    let a = [Pixel(Point { x: 1, y: 1 }, BinaryColor::Off), Pixel(Point { x: 2, y: 0 }, BinaryColor::Off)];
    let b = [Pixel(Point { x: 1, y: 1 }, BinaryColor::On), Pixel(Point { x: 0, y: 2 }, BinaryColor::Off)];
    let mut twice = EpdDisplay::new(Size { width: 4, height: 3 }, DisplayRotation::Rotate270);
    twice.draw_iter(&a).unwrap();
    twice.draw_iter(&b).unwrap();
    let mut once = EpdDisplay::new(Size { width: 4, height: 3 }, DisplayRotation::Rotate270);
    let joined: Vec<Pixel> = a.iter().chain(b.iter()).copied().collect();
    once.draw_iter(&joined).unwrap();
    assert_eq!(bits_of(&twice), bits_of(&once));
}
