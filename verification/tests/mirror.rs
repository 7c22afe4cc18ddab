use image_processor::mirror::{process_image, swap_point};
use image_processor::params::MirrorParams;

fn mirror_params(document: &str) -> MirrorParams {
    let parsed = serde_json::from_str::<serde_json::Value>(document).ok().and_then(|value| {
        let horizontal = value.get("horizontal")?.as_bool()?;
        let vertical = value.get("vertical")?.as_bool()?;
        Some(MirrorParams { horizontal, vertical })
    });
    MirrorParams::from_parsed(parsed)
}

fn data() -> Vec<u8> {
    vec![
        255, 0, 0, 255, // (0,0) red
        0, 255, 0, 255, // (1,0) green
        0, 0, 255, 255, // (0,1) blue
        255, 255, 0, 255, // (1,1) yellow
    ]
}

/// An image whose every byte differs from its neighbours.
fn numbered(width: u32, height: u32) -> Vec<u8> {
    let len = width as usize * height as usize * 4;
    (0..len).map(|index| (index * 7 % 251) as u8).collect()
}

fn pixel(data: &[u8], width: u32, row: u32, col: u32) -> [u8; 4] {
    let at = (row as usize * width as usize + col as usize) * 4;
    [data[at], data[at + 1], data[at + 2], data[at + 3]]
}

#[test]
fn test_horizontal_flip() {
    let mut data = data();
    let exp = vec![
        0, 255, 0, 255, // (0,0) green
        255, 0, 0, 255, // (1,0) red
        255, 255, 0, 255, // (0,1) yellow
        0, 0, 255, 255, // (1,1) blue
    ];

    let params = mirror_params(r#"{"horizontal":true,"vertical":false}"#);
    process_image(2, 2, &mut data, &params);
    assert_eq!(data, exp);
}

#[test]
fn test_vertical_flip() {
    let mut data = data();
    let exp = vec![
        0, 0, 255, 255, // (0,0) blue
        255, 255, 0, 255, // (1,0) yellow
        255, 0, 0, 255, // (0,1) red
        0, 255, 0, 255, // (1,1) green
    ];

    let params = mirror_params(r#"{"horizontal":false,"vertical":true}"#);
    process_image(2, 2, &mut data, &params);
    assert_eq!(data, exp);
}

#[test]
fn test_all_flip() {
    let mut data = data();
    let exp = vec![
        255, 255, 0, 255, // (0,0) yellow
        0, 0, 255, 255, // (1,0) blue
        0, 255, 0, 255, // (0,1) green
        255, 0, 0, 255, // (1,1) red
    ];

    let params = mirror_params(r#"{"horizontal":true,"vertical":true}"#);
    process_image(2, 2, &mut data, &params);
    assert_eq!(data, exp);
}

#[test]
fn test_no_flip() {
    let mut data = data();
    let exp = vec![
        255, 0, 0, 255, // (0,0) red
        0, 255, 0, 255, // (1,0) green
        0, 0, 255, 255, // (0,1) blue
        255, 255, 0, 255, // (1,1) yellow
    ];

    let params = mirror_params(r#"{"horizontal":false,"vertical":false}"#);
    process_image(2, 2, &mut data, &params);
    assert_eq!(data, exp);
}

#[test]
fn unreadable_document_mirrors_nothing() {
    let mut image = data();
    let params = mirror_params("not a document");
    assert_eq!(params, MirrorParams { horizontal: false, vertical: false });
    process_image(2, 2, &mut image, &params);
    assert_eq!(image, data());
}

#[test]
fn document_with_a_missing_field_gives_the_defaults() {
    assert_eq!(mirror_params(r#"{"horizontal":true}"#), MirrorParams::default());
    assert_eq!(mirror_params(r#"{"horizontal":1,"vertical":true}"#), MirrorParams::default());
}

#[test]
fn swap_point_exchanges_all_four_channels() {
    let mut image = data();
    swap_point(&mut image, 0, 12);
    assert_eq!(
        image,
        vec![255, 255, 0, 255, 0, 255, 0, 255, 0, 0, 255, 255, 255, 0, 0, 255]
    );
}

#[test]
fn swap_point_with_itself_changes_nothing() {
    let mut image = data();
    swap_point(&mut image, 4, 4);
    assert_eq!(image, data());
}

#[test]
fn swap_point_on_overlapping_pixels_exchanges_byte_by_byte() {
    let mut image = vec![1, 2, 3, 4, 5, 6];
    swap_point(&mut image, 0, 2);
    assert_eq!(image, vec![3, 4, 5, 6, 1, 2]);
}

#[test]
fn horizontal_flip_twice_restores_the_image() {
    for (width, height) in [(1, 1), (2, 2), (3, 3), (4, 3), (5, 2), (1, 6), (7, 1)] {
        let before = numbered(width, height);
        let mut image = before.clone();
        let params = MirrorParams { horizontal: true, vertical: false };
        process_image(width, height, &mut image, &params);
        if width > 1 {
            assert_ne!(image, before);
        }
        process_image(width, height, &mut image, &params);
        assert_eq!(image, before);
    }
}

#[test]
fn vertical_flip_twice_restores_the_image() {
    for (width, height) in [(1, 1), (2, 2), (3, 3), (4, 3), (5, 2), (1, 6), (7, 1)] {
        let before = numbered(width, height);
        let mut image = before.clone();
        let params = MirrorParams { horizontal: false, vertical: true };
        process_image(width, height, &mut image, &params);
        if height > 1 {
            assert_ne!(image, before);
        }
        process_image(width, height, &mut image, &params);
        assert_eq!(image, before);
    }
}

#[test]
fn both_flips_twice_restore_the_image() {
    for (width, height) in [(1, 1), (2, 2), (3, 3), (4, 3), (5, 2), (1, 6), (7, 1)] {
        let before = numbered(width, height);
        let mut image = before.clone();
        let params = MirrorParams { horizontal: true, vertical: true };
        process_image(width, height, &mut image, &params);
        process_image(width, height, &mut image, &params);
        assert_eq!(image, before);
    }
}

#[test]
fn both_flips_reverse_the_order_of_the_pixels() {
    for (width, height) in [(1, 1), (2, 2), (3, 3), (4, 3), (5, 2)] {
        let before = numbered(width, height);
        let mut image = before.clone();
        process_image(width, height, &mut image, &MirrorParams { horizontal: true, vertical: true });
        let pixels = (width * height) as usize;
        for at in 0..pixels {
            let from = pixels - 1 - at;
            assert_eq!(image[at * 4..at * 4 + 4], before[from * 4..from * 4 + 4]);
        }
    }
}

#[test]
fn no_flip_is_the_identity() {
    for (width, height) in [(1, 1), (3, 3), (4, 3)] {
        let before = numbered(width, height);
        let mut image = before.clone();
        process_image(width, height, &mut image, &MirrorParams { horizontal: false, vertical: false });
        assert_eq!(image, before);
    }
}

#[test]
fn every_pixel_moves_to_the_opposite_column_and_row() {
    let (width, height) = (5, 3);
    let before = numbered(width, height);
    for (horizontal, vertical) in [(true, false), (false, true), (true, true)] {
        let mut image = before.clone();
        process_image(width, height, &mut image, &MirrorParams { horizontal, vertical });
        for row in 0..height {
            for col in 0..width {
                let from_row = if vertical { height - 1 - row } else { row };
                let from_col = if horizontal { width - 1 - col } else { col };
                assert_eq!(
                    pixel(&image, width, row, col),
                    pixel(&before, width, from_row, from_col)
                );
            }
        }
    }
}

#[test]
fn middle_column_and_row_of_an_odd_image_stay() {
    let before = numbered(3, 3);
    let mut image = before.clone();
    process_image(3, 3, &mut image, &MirrorParams { horizontal: true, vertical: false });
    for row in 0..3 {
        assert_eq!(pixel(&image, 3, row, 1), pixel(&before, 3, row, 1));
    }
    let mut image = before.clone();
    process_image(3, 3, &mut image, &MirrorParams { horizontal: false, vertical: true });
    for col in 0..3 {
        assert_eq!(pixel(&image, 3, 1, col), pixel(&before, 3, 1, col));
    }
}

#[test]
fn empty_image_is_left_empty() {
    for (width, height) in [(0, 0), (0, 5), (5, 0)] {
        let mut image: Vec<u8> = Vec::new();
        process_image(width, height, &mut image, &MirrorParams { horizontal: true, vertical: true });
        assert!(image.is_empty());
    }
}
