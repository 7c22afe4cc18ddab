use image_processor::blur::{neighbourhood_of, process_image, Rgb, Sample};
use image_processor::params::BlurParams;

fn blur_params(document: &str) -> BlurParams {
    let parsed = serde_json::from_str::<serde_json::Value>(document).ok().and_then(|value| {
        let radius = u32::try_from(value.get("radius")?.as_u64()?).ok()?;
        let iterations = u32::try_from(value.get("iterations")?.as_u64()?).ok()?;
        Some(BlurParams { radius, iterations })
    });
    BlurParams::from_parsed(parsed)
}

/// The mean of the samples, each weighted by one over one plus its distance.
fn weighted_mean(samples: &Vec<Sample>) -> Rgb {
    let mut sum_r = 0f64;
    let mut sum_g = 0f64;
    let mut sum_b = 0f64;
    let mut total_weight = 0f64;
    for sample in samples {
        let distance = (sample.distance_sq as f64).sqrt();
        let weight = 1.0 / (1.0 + distance);
        total_weight += weight;
        sum_r += sample.red as f64 * weight;
        sum_g += sample.green as f64 * weight;
        sum_b += sample.blue as f64 * weight;
    }
    Rgb {
        red: (sum_r / total_weight) as u8,
        green: (sum_g / total_weight) as u8,
        blue: (sum_b / total_weight) as u8,
    }
}

fn uniform_image(color: [u8; 4], count: usize) -> Vec<u8> {
    color.iter().cloned().cycle().take(count * 4).collect()
}

fn white_with_black_centre() -> Vec<u8> {
    let mut data = uniform_image([255, 255, 255, 255], 9);
    data[16] = 0;
    data[17] = 0;
    data[18] = 0;
    data
}

fn numbered(width: u32, height: u32) -> Vec<u8> {
    let len = width as usize * height as usize * 4;
    (0..len).map(|index| (index * 7 % 251) as u8).collect()
}

#[test]
fn test_uniform_blur() {
    let mut data = uniform_image([100, 150, 200, 255], 9); // 3x3

    let exp = uniform_image([100, 150, 200, 255], 9); // 3x3

    let params = blur_params(r#"{"radius":20,"iterations":2}"#);
    process_image(3, 3, &mut data, &params, weighted_mean);

    for (a, b) in data.iter().zip(exp.iter()) {
        assert!(a.abs_diff(*b) <= 1, "pixel diff too large: {a} vs {b}");
    }
}

#[test]
fn test_nonuniform_blur_changes_pixels() {
    let white = [255u8, 255, 255, 255];
    let black = [0u8, 0, 0, 255];

    let mut data = vec![
        // row 0
        white[0], white[1], white[2], white[3],
        white[0], white[1], white[2], white[3],
        white[0], white[1], white[2], white[3],
        // row 1
        white[0], white[1], white[2], white[3],
        black[0], black[1], black[2], black[3], // centre
        white[0], white[1], white[2], white[3],
        // row 2
        white[0], white[1], white[2], white[3],
        white[0], white[1], white[2], white[3],
        white[0], white[1], white[2], white[3],
    ];

    let center_before = data[16];
    let params = blur_params(r#"{"radius":1,"iterations":1}"#);
    process_image(3, 3, &mut data, &params, weighted_mean);

    assert_ne!(data[16], center_before, "blur should change center pixel");
}

#[test]
fn centre_becomes_the_weighted_mean_of_its_cross() {
    // Four white neighbours at distance one weigh a half each, the black
    // centre weighs one: 4 * 0.5 * 255 / 3 = 170.
    let mut data = white_with_black_centre();
    process_image(3, 3, &mut data, &BlurParams { radius: 1, iterations: 1 }, weighted_mean);
    assert_eq!(data[16..20], [170, 170, 170, 255]);
    // A corner sees itself and two white neighbours: it stays white.
    assert_eq!(data[0..4], [255, 255, 255, 255]);
    // An edge pixel sees itself, two white neighbours and the centre:
    // (255 + 0.5 * 255 * 2 + 0) / 2.5 = 204.
    assert_eq!(data[4..8], [204, 204, 204, 255]);
}

#[test]
fn unreadable_document_blurs_once_at_radius_one() {
    assert_eq!(blur_params("{"), BlurParams { radius: 1, iterations: 1 });
    assert_eq!(blur_params(r#"{"radius":3}"#), BlurParams::default());
    assert_eq!(blur_params(r#"{"radius":-1,"iterations":2}"#), BlurParams::default());
    let mut data = white_with_black_centre();
    process_image(3, 3, &mut data, &blur_params(""), weighted_mean);
    assert_eq!(data[16], 170);
}

#[test]
fn no_iterations_is_the_identity() {
    for radius in [0, 1, 7] {
        let before = numbered(4, 3);
        let mut data = before.clone();
        process_image(4, 3, &mut data, &BlurParams { radius, iterations: 0 }, weighted_mean);
        assert_eq!(data, before);
    }
}

#[test]
fn radius_zero_changes_nothing() {
    let before = numbered(4, 3);
    let mut data = before.clone();
    process_image(4, 3, &mut data, &BlurParams { radius: 0, iterations: 3 }, weighted_mean);
    assert_eq!(data, before);
}

#[test]
fn alpha_is_never_touched() {
    let before = numbered(5, 4);
    let mut data = before.clone();
    process_image(5, 4, &mut data, &BlurParams { radius: 2, iterations: 3 }, weighted_mean);
    assert_ne!(data, before);
    assert_eq!(data.len(), before.len());
    for pixel in 0..20 {
        assert_eq!(data[pixel * 4 + 3], before[pixel * 4 + 3]);
    }
}

#[test]
fn uniform_image_keeps_its_colour_within_one() {
    for (radius, iterations) in [(0, 1), (1, 1), (2, 2), (20, 2), (3, 0)] {
        let before = uniform_image([100, 150, 200, 37], 12);
        let mut data = before.clone();
        process_image(4, 3, &mut data, &BlurParams { radius, iterations }, weighted_mean);
        for (index, (a, b)) in data.iter().zip(before.iter()).enumerate() {
            if index % 4 == 3 {
                assert_eq!(a, b);
            } else {
                assert!(a.abs_diff(*b) <= 1);
            }
        }
    }
}

#[test]
fn each_pass_reads_the_output_of_the_pass_before() {
    let mut twice = white_with_black_centre();
    process_image(3, 3, &mut twice, &BlurParams { radius: 1, iterations: 2 }, weighted_mean);
    let mut stepwise = white_with_black_centre();
    process_image(3, 3, &mut stepwise, &BlurParams { radius: 1, iterations: 1 }, weighted_mean);
    process_image(3, 3, &mut stepwise, &BlurParams { radius: 1, iterations: 1 }, weighted_mean);
    assert_eq!(twice, stepwise);
}

#[test]
fn a_pass_reads_no_pixel_that_it_has_written() {
    // Were the pass to read its own output, the pixel right of the centre
    // would see a centre already lightened to 170.
    let mut data = white_with_black_centre();
    process_image(3, 3, &mut data, &BlurParams { radius: 1, iterations: 1 }, weighted_mean);
    assert_eq!(data[20..24], [204, 204, 204, 255]);
    assert_eq!(data[28..32], [204, 204, 204, 255]);
}

#[test]
fn mean_is_the_caller_s_own() {
    let mut data = numbered(3, 2);
    let before = data.clone();
    let count = |samples: &Vec<Sample>| Rgb { red: samples.len() as u8, green: 0, blue: 9 };
    process_image(3, 2, &mut data, &BlurParams { radius: 1, iterations: 1 }, count);
    // corner: itself and two neighbours; middle of the top row: itself and three.
    assert_eq!(data[0..4], [3, 0, 9, before[3]]);
    assert_eq!(data[4..8], [4, 0, 9, before[7]]);
}

#[test]
fn neighbourhood_is_the_disc_in_scanning_order() {
    let image = numbered(3, 3);
    let at = |row: usize, col: usize, distance_sq: u64| {
        let start = (row * 3 + col) * 4;
        Sample {
            distance_sq,
            red: image[start],
            green: image[start + 1],
            blue: image[start + 2],
        }
    };
    // Radius one around the centre: a cross, column by column.
    assert_eq!(
        neighbourhood_of(&image, 3, 3, 1, 1, 1),
        vec![at(1, 0, 1), at(0, 1, 1), at(1, 1, 0), at(2, 1, 1), at(1, 2, 1)]
    );
    // Radius two around the corner: cut off at the edges, without the far corner.
    assert_eq!(
        neighbourhood_of(&image, 3, 3, 2, 0, 0),
        vec![
            at(0, 0, 0),
            at(1, 0, 1),
            at(2, 0, 4),
            at(0, 1, 1),
            at(1, 1, 2),
            at(0, 2, 4),
        ]
    );
    // Radius zero: the pixel alone.
    assert_eq!(neighbourhood_of(&image, 3, 3, 0, 2, 1), vec![at(1, 2, 0)]);
    // A radius far beyond the image: every pixel.
    assert_eq!(neighbourhood_of(&image, 3, 3, u32::MAX, 1, 1).len(), 9);
}

#[test]
fn empty_image_is_left_empty_by_the_blur() {
    let mut data: Vec<u8> = Vec::new();
    process_image(0, 7, &mut data, &BlurParams { radius: 2, iterations: 2 }, weighted_mean);
    assert!(data.is_empty());
}
