use space_invaders::collision::{
    choose_collision_test, is_mask_bit_set, mask_opaque_at, opacity_mask, scan_overlap, CollisionTest, Side,
};
use std::cell::Cell;

#[test]
fn mask_bits_are_read_most_significant_first() {
    let mask = [0b1000_0001u8, 0b0100_0000u8];
    assert_eq!(is_mask_bit_set(&mask, 0), Some(true));
    assert_eq!(is_mask_bit_set(&mask, 1), Some(false));
    assert_eq!(is_mask_bit_set(&mask, 6), Some(false));
    assert_eq!(is_mask_bit_set(&mask, 7), Some(true));
    assert_eq!(is_mask_bit_set(&mask, 8), Some(false));
    assert_eq!(is_mask_bit_set(&mask, 9), Some(true));
}

#[test]
fn mask_bit_past_the_end_is_none() {
    let mask = [0xffu8, 0xff];
    assert_eq!(is_mask_bit_set(&mask, 15), Some(true));
    assert_eq!(is_mask_bit_set(&mask, 16), None);
    assert_eq!(is_mask_bit_set(&mask, usize::MAX), None);
    assert_eq!(is_mask_bit_set(&[], 0), None);
}

#[test]
fn opaque_pixel_is_found_by_row_and_column() {
    // A 4x4 texture: only pixel (x = 2, y = 1), number 6, is opaque.
    let mask = [0b0000_0010u8, 0b0000_0000u8];
    assert!(mask_opaque_at(&mask, 4, 2, 1));
    assert!(!mask_opaque_at(&mask, 4, 1, 2));
    assert!(!mask_opaque_at(&mask, 4, 0, 0));
}

#[test]
fn pixel_outside_the_mask_is_clear() {
    let mask = [0xffu8];
    assert!(mask_opaque_at(&mask, 4, 3, 1));
    assert!(!mask_opaque_at(&mask, 4, 0, 2));
}

#[test]
fn boxes_apart_never_collide() {
    for m1 in [false, true] {
        for m2 in [false, true] {
            for r1 in [false, true] {
                for r2 in [false, true] {
                    assert_eq!(choose_collision_test(false, m1, m2, r1, r2), CollisionTest::Apart);
                    assert_ne!(choose_collision_test(true, m1, m2, r1, r2), CollisionTest::Apart);
                }
            }
        }
    }
}

#[test]
fn plain_images_use_their_boxes() {
    assert_eq!(choose_collision_test(true, false, false, false, false), CollisionTest::Boxes);
    assert_eq!(choose_collision_test(true, false, false, true, false), CollisionTest::RotatedRectangles);
    assert_eq!(choose_collision_test(true, false, false, false, true), CollisionTest::RotatedRectangles);
}

#[test]
fn masked_images_use_their_pixels() {
    assert_eq!(choose_collision_test(true, true, true, false, false), CollisionTest::BothMasked);
    assert_eq!(choose_collision_test(true, true, false, false, false), CollisionTest::OneMasked(Side::First));
    assert_eq!(choose_collision_test(true, false, true, false, false), CollisionTest::OneMasked(Side::Second));
    assert_eq!(choose_collision_test(true, true, true, false, true), CollisionTest::RotatedBothMasked);
    assert_eq!(choose_collision_test(true, true, false, true, true), CollisionTest::RotatedOneMasked(Side::First));
    assert_eq!(choose_collision_test(true, false, true, true, false), CollisionTest::RotatedOneMasked(Side::Second));
}

#[test]
fn test_choice_is_symmetric() {
    let mirror = |t: CollisionTest| match t {
        CollisionTest::OneMasked(Side::First) => CollisionTest::OneMasked(Side::Second),
        CollisionTest::OneMasked(Side::Second) => CollisionTest::OneMasked(Side::First),
        CollisionTest::RotatedOneMasked(Side::First) => CollisionTest::RotatedOneMasked(Side::Second),
        CollisionTest::RotatedOneMasked(Side::Second) => CollisionTest::RotatedOneMasked(Side::First),
        other => other,
    };
    for o in [false, true] {
        for m1 in [false, true] {
            for m2 in [false, true] {
                for r1 in [false, true] {
                    for r2 in [false, true] {
                        assert_eq!(
                            choose_collision_test(o, m2, m1, r2, r1),
                            mirror(choose_collision_test(o, m1, m2, r1, r2))
                        );
                    }
                }
            }
        }
    }
}

#[test]
fn scan_finds_a_sampled_hit() {
    assert!(scan_overlap(5, 5, 2, |x, y| x == 4 && y == 2));
}

#[test]
fn scan_skips_unsampled_pixels() {
    assert!(!scan_overlap(5, 5, 2, |x, y| x == 3 || y == 1));
}

#[test]
fn scan_with_step_one_tests_every_pixel() {
    let calls = Cell::new(0usize);
    let found = scan_overlap(3, 4, 1, |_, _| {
        calls.set(calls.get() + 1);
        false
    });
    assert!(!found);
    assert_eq!(calls.get(), 12);
}

#[test]
fn scan_visits_rows_in_order_and_stops_at_first_hit() {
    let seen = std::cell::RefCell::new(Vec::new());
    let found = scan_overlap(6, 6, 3, |x, y| {
        seen.borrow_mut().push((x, y));
        x == 3 && y == 3
    });
    assert!(found);
    assert_eq!(*seen.borrow(), vec![(0, 0), (3, 0), (0, 3), (3, 3)]);
}

#[test]
fn scan_of_empty_region_finds_nothing() {
    assert!(!scan_overlap(0, 10, 1, |_, _| true));
    assert!(!scan_overlap(10, 0, 1, |_, _| true));
}

#[test]
fn scan_with_large_step_tests_only_the_corner() {
    let calls = Cell::new(0usize);
    assert!(!scan_overlap(usize::MAX, usize::MAX, usize::MAX, |x, y| {
        calls.set(calls.get() + 1);
        x != 0 || y != 0
    }));
    assert_eq!(calls.get(), 1);
}

#[test]
fn fully_opaque_image_has_no_mask() {
    assert_eq!(opacity_mask(&[255, 255, 255]), None);
    assert_eq!(opacity_mask(&[]), None);
}

#[test]
fn mask_marks_every_visible_pixel() {
    let alpha = [255, 0, 10, 0, 0, 0, 0, 1, 0, 200];
    let mask = opacity_mask(&alpha).unwrap();
    assert_eq!(mask, vec![0b1010_0001, 0b0100_0000]);
    for (i, a) in alpha.iter().enumerate() {
        assert_eq!(is_mask_bit_set(&mask, i), Some(*a > 0));
    }
    for i in alpha.len()..16 {
        assert_eq!(is_mask_bit_set(&mask, i), Some(false));
    }
}

#[test]
fn fully_transparent_image_has_an_empty_mask() {
    assert_eq!(opacity_mask(&[0; 9]), Some(vec![0, 0]));
}

#[test]
fn finer_step_finds_what_a_coarser_one_finds() {
    let hit = |x: usize, y: usize| x == 6 && y == 3;
    assert!(scan_overlap(8, 8, 3, hit));
    assert!(scan_overlap(8, 8, 1, hit));
    assert!(!scan_overlap(8, 8, 2, hit));
}

#[test]
fn collision_test_choice_for_masks_built_from_images() {
    let masked = opacity_mask(&[0, 255]).is_some();
    let plain = opacity_mask(&[255, 255]).is_some();
    assert_eq!(choose_collision_test(true, masked, plain, false, false), CollisionTest::OneMasked(Side::First));
}
