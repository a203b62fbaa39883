use akagi::vision::{is_button_cyan, ok_button_visible, ButtonSighting, Frame};

#[test]
fn cyan_classifier_admits_the_measured_fill_and_rejects_neighbors() {
    assert!(is_button_cyan(108, 255, 253));
    // Capture pipelines shift channels a few units; still the button.
    assert!(is_button_cyan(116, 250, 247));
    // White panel, dark text, and warm/cool accents must not classify.
    assert!(!is_button_cyan(255, 255, 255));
    assert!(!is_button_cyan(37, 37, 37));
    assert!(!is_button_cyan(253, 108, 255));
    assert!(!is_button_cyan(108, 253, 160));
}

/// A dark frame with filled boxes, each `(x0, y0, x1, y1)` inclusive.
fn frame(width: u32, height: u32, boxes: &[(u32, u32, u32, u32)]) -> Frame {
    let mut rgba = vec![20u8; (width * height * 4) as usize];
    for &(x0, y0, x1, y1) in boxes {
        for y in y0..=y1 {
            for x in x0..=x1 {
                let at = ((y * width + x) * 4) as usize;
                rgba[at..at + 4].copy_from_slice(&[108, 255, 253, 255]);
            }
        }
    }
    Frame::new(width, height, rgba).expect("the buffer fits the frame")
}

#[test]
fn the_button_is_sighted_with_its_box_and_fill() {
    let sight = ok_button_visible(&frame(664, 373, &[(562, 329, 645, 355)]));
    assert_eq!(sight, Some(ButtonSighting { x0: 562, y0: 329, x1: 645, y1: 355, pixels: 84 * 27 }));
}

#[test]
fn seams_up_to_the_bridge_are_grown_through() {
    // Two halves with a dark seam of five columns: pixels six apart touch.
    let joined = frame(664, 373, &[(562, 329, 601, 355), (607, 329, 645, 355)]);
    assert_eq!(
        ok_button_visible(&joined),
        Some(ButtonSighting { x0: 562, y0: 329, x1: 645, y1: 355, pixels: (40 + 39) * 27 })
    );
    // One column more parts them, and neither half is wide enough.
    let parted = frame(664, 373, &[(562, 329, 601, 355), (608, 329, 645, 355)]);
    assert_eq!(ok_button_visible(&parted), None);
}

#[test]
fn boxes_that_are_not_the_button_are_passed_over() {
    // In the top left, too small, too tall, too long.
    assert_eq!(ok_button_visible(&frame(664, 373, &[(10, 10, 93, 36)])), None);
    assert_eq!(ok_button_visible(&frame(664, 373, &[(600, 340, 630, 349)])), None);
    assert_eq!(ok_button_visible(&frame(664, 373, &[(600, 300, 640, 350)])), None);
    assert_eq!(ok_button_visible(&frame(664, 373, &[(440, 340, 640, 360)])), None);
    assert_eq!(ok_button_visible(&frame(664, 373, &[])), None);
    // A hollow box is not mostly fill.
    let hollow = frame(
        664,
        373,
        &[(500, 300, 620, 304), (500, 336, 620, 340), (500, 300, 504, 340), (616, 300, 620, 340)],
    );
    assert_eq!(ok_button_visible(&hollow), None);
}

#[test]
fn the_center_must_lie_past_three_fifths() {
    // Center at exactly 60% of the width: not enough; one pixel on is.
    let at = |x0: u32| frame(1000, 200, &[(x0, 150, x0 + 100, 190)]);
    assert_eq!(ok_button_visible(&at(550)), None);
    assert!(ok_button_visible(&at(551)).is_some());
}

#[test]
fn the_least_fill_grows_with_the_frame() {
    // 800 pixels are enough at the calibration width; at twice the width four
    // times as many are needed.
    let fifty = (600, 340, 649, 355);
    assert!(ok_button_visible(&frame(664, 373, &[fifty])).is_some());
    assert_eq!(ok_button_visible(&frame(664, 373, &[(600, 340, 648, 355)])), None);
    assert_eq!(ok_button_visible(&frame(1328, 746, &[(1200, 680, 1249, 695)])), None);
    assert!(ok_button_visible(&frame(1328, 746, &[(1124, 658, 1291, 711)])).is_some());
}

#[test]
fn the_largest_box_wins_and_the_first_of_equals() {
    let two = frame(664, 800, &[(500, 500, 583, 526), (500, 600, 585, 627)]);
    assert_eq!(ok_button_visible(&two).map(|s| s.y0), Some(600));
    let equal = frame(664, 800, &[(500, 500, 583, 526), (500, 600, 583, 626)]);
    assert_eq!(ok_button_visible(&equal).map(|s| s.y0), Some(500));
}

#[test]
fn empty_frames_and_wrong_buffers() {
    assert_eq!(ok_button_visible(&Frame::new(0, 0, Vec::new()).unwrap()), None);
    assert_eq!(ok_button_visible(&Frame::new(0, 7, Vec::new()).unwrap()), None);
    assert!(Frame::new(2, 2, vec![0; 15]).is_none());
    assert!(Frame::new(2, 2, vec![0; 16]).is_some());
}

/// Nothing but the fill and the frame's size counts: other colors, glyphs on
/// the rest of the screen and the alpha channel make no difference.
#[test]
fn other_colors_make_no_difference() {
    let (width, height) = (664u32, 373u32);
    let paint = |other: [u8; 4], alpha: u8| {
        let mut rgba = Vec::new();
        for y in 0..height {
            for x in 0..width {
                let inside = (562..=645).contains(&x) && (329..=355).contains(&y);
                rgba.extend(if inside { [108, 255, 253, alpha] } else { other });
            }
        }
        ok_button_visible(&Frame::new(width, height, rgba).unwrap())
    };
    let sight = paint([20, 20, 20, 255], 255);
    assert!(sight.is_some());
    assert_eq!(paint([250, 250, 250, 0], 7), sight);
    assert_eq!(paint([200, 30, 90, 128], 0), sight);
}
