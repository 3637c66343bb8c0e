use dicom_webview::pixel::{
    contains_rgb, copy_padded, decode_samples, gray_triples, normalize, sample_range, SizeMismatch,
};

fn wide(samples: &[u16]) -> Vec<u8> {
    let mut bytes = Vec::new();
    for sample in samples {
        bytes.push((sample & 0xff) as u8);
        bytes.push((sample >> 8) as u8);
    }
    bytes
}

fn grays(data: &[u8]) -> Vec<u8> {
    assert_eq!(data.len() % 3, 0);
    let mut levels = Vec::new();
    for pixel in data.chunks(3) {
        assert_eq!(pixel[0], pixel[1]);
        assert_eq!(pixel[1], pixel[2]);
        levels.push(pixel[0]);
    }
    levels
}

#[test]
fn four_samples_two_by_two() {
    let buffer = wide(&[10, 10, 20, 30]);
    let (data, warning) = normalize(&buffer, 2, 2, 16, 1, "MONOCHROME2");
    assert_eq!(data.len(), 12);
    assert_eq!(data, vec![0, 0, 0, 0, 0, 0, 127, 127, 127, 255, 255, 255]);
    assert_eq!(sample_range(&vec![10, 10, 20, 30]), (10, 30));
    assert_eq!(warning, None);
}

#[test]
fn gray16_output_has_three_bytes_per_pixel() {
    let mut samples = Vec::new();
    for i in 0..(7 * 5) {
        samples.push((i * 523 % 4096) as u16);
    }
    let (data, warning) = normalize(&wide(&samples), 7, 5, 16, 1, "MONOCHROME2");
    assert_eq!(data.len(), 7 * 5 * 3);
    assert_eq!(warning, None);
}

#[test]
fn flat_image_is_black() {
    let (data, warning) = normalize(&wide(&[777; 6]), 2, 3, 16, 1, "MONOCHROME2");
    assert_eq!(data, vec![0u8; 18]);
    assert_eq!(warning, None);
    let (data, _) = normalize(&[200u8; 4], 2, 2, 8, 1, "MONOCHROME1");
    assert_eq!(data, vec![0u8; 12]);
    let (data, _) = normalize(&[9u8], 1, 1, 8, 1, "MONOCHROME2");
    assert_eq!(data, vec![0, 0, 0]);
}

#[test]
fn full_span_maps_ends_to_black_and_white() {
    let samples = [0u16, 4095, 2048, 0, 4095, 1];
    let (data, _) = normalize(&wide(&samples), 2, 3, 16, 1, "MONOCHROME2");
    let levels = grays(&data);
    assert_eq!(levels[0], 0);
    assert_eq!(levels[1], 255);
    assert_eq!(levels[2], (2048u32 * 255 / 4095) as u8);
    assert_eq!(levels[2], 127);
    assert_eq!(levels[3], 0);
    assert_eq!(levels[4], 255);
    assert_eq!(levels[5], 0);
}

#[test]
fn short_rgb_is_zero_filled() {
    let (data, warning) = normalize(&[1, 2, 3, 4], 1, 2, 8, 3, "RGB");
    assert_eq!(data, vec![1, 2, 3, 4, 0, 0]);
    assert_eq!(warning, Some(SizeMismatch::RgbBytes { expected: 6, actual: 4 }));
    let (data, warning) = normalize(&[], 2, 2, 8, 3, "RGB");
    assert_eq!(data, vec![0u8; 12]);
    assert_eq!(warning, Some(SizeMismatch::RgbBytes { expected: 12, actual: 0 }));
}

#[test]
fn rgb_of_exact_length_is_copied() {
    let buffer: Vec<u8> = (0..12).collect();
    let (data, warning) = normalize(&buffer, 2, 2, 8, 3, "RGB");
    assert_eq!(data, buffer);
    assert_eq!(warning, None);
}

#[test]
fn long_rgb_is_cut_without_warning() {
    let buffer: Vec<u8> = (0..20).collect();
    let (data, warning) = normalize(&buffer, 2, 2, 8, 3, "RGB");
    assert_eq!(data, (0..12).collect::<Vec<u8>>());
    assert_eq!(warning, None);
}

#[test]
fn colour_is_chosen_by_label_or_by_samples_per_pixel() {
    let buffer = [5u8, 6, 7];
    // the label mentions RGB, one sample per pixel declared
    assert_eq!(normalize(&buffer, 1, 1, 8, 1, "RGB").0, vec![5, 6, 7]);
    assert_eq!(normalize(&buffer, 1, 1, 8, 1, "YBR_RGB_X").0, vec![5, 6, 7]);
    // three samples per pixel, whatever the label
    assert_eq!(normalize(&buffer, 1, 1, 8, 3, "YBR_FULL").0, vec![5, 6, 7]);
    // neither: grayscale of one pixel, which is flat
    assert_eq!(normalize(&buffer, 1, 1, 8, 1, "MONOCHROME2").0, vec![0, 0, 0]);
    assert_eq!(normalize(&buffer, 1, 1, 8, 1, "rgb").0, vec![0, 0, 0]);
    assert_eq!(normalize(&buffer, 1, 1, 8, 1, "RG B").0, vec![0, 0, 0]);
}

#[test]
fn contains_rgb_finds_the_three_letters_together() {
    assert!(contains_rgb("RGB"));
    assert!(contains_rgb("xRGB"));
    assert!(contains_rgb("RGBx"));
    assert!(contains_rgb("RRGB"));
    assert!(contains_rgb("RGRGB"));
    assert!(!contains_rgb(""));
    assert!(!contains_rgb("RG"));
    assert!(!contains_rgb("R G B"));
    assert!(!contains_rgb("BGR"));
    assert!(!contains_rgb("MONOCHROME2"));
    assert!(!contains_rgb("PALETTE COLOR"));
}

#[test]
fn eight_bit_samples_are_single_bytes() {
    let (data, warning) = normalize(&[0, 51, 102, 255], 2, 2, 8, 1, "MONOCHROME2");
    assert_eq!(grays(&data), vec![0, 51, 102, 255]);
    assert_eq!(warning, None);
    // anything up to eight bits allocated reads single bytes
    let (data, _) = normalize(&[0, 51, 102, 255], 2, 2, 1, 1, "MONOCHROME2");
    assert_eq!(grays(&data), vec![0, 51, 102, 255]);
    // nine bits and more read pairs
    let (data, warning) = normalize(&[0, 51, 102, 255], 2, 2, 9, 1, "MONOCHROME2");
    assert_eq!(grays(&data), vec![0, 255]);
    assert_eq!(warning, Some(SizeMismatch::Samples { expected: 4, actual: 2 }));
}

#[test]
fn samples_are_little_endian() {
    assert_eq!(decode_samples(&[0x34, 0x12, 0xff, 0xff, 0x00, 0x01], 3, true), vec![0x1234, 0xffff, 0x0100]);
    assert_eq!(decode_samples(&[0x34, 0x12], 1, false), vec![0x34]);
}

#[test]
fn incomplete_last_pair_is_dropped() {
    assert_eq!(decode_samples(&[1, 0, 2, 0, 3], 3, true), vec![1, 2]);
    let (data, warning) = normalize(&[1, 0, 2, 0, 3], 3, 1, 16, 1, "MONOCHROME2");
    assert_eq!(grays(&data), vec![0, 255]);
    assert_eq!(warning, Some(SizeMismatch::Samples { expected: 3, actual: 2 }));
}

#[test]
fn decoding_stops_at_the_pixel_count() {
    assert_eq!(decode_samples(&[1, 0, 2, 0, 3, 0, 4, 0], 2, true), vec![1, 2]);
    assert_eq!(decode_samples(&[1, 2, 3, 4], 3, false), vec![1, 2, 3]);
    let (data, warning) = normalize(&[0, 0, 255, 0, 9, 9, 9, 9], 1, 2, 16, 1, "MONOCHROME2");
    assert_eq!(grays(&data), vec![0, 255]);
    assert_eq!(warning, None);
}

#[test]
fn short_gray_buffer_gives_what_was_decoded() {
    let (data, warning) = normalize(&wide(&[0, 100]), 2, 2, 16, 1, "MONOCHROME2");
    assert_eq!(data.len(), 6);
    assert_eq!(grays(&data), vec![0, 255]);
    assert_eq!(warning, Some(SizeMismatch::Samples { expected: 4, actual: 2 }));
}

#[test]
fn empty_buffer_gives_empty_gray_image() {
    let (data, warning) = normalize(&[], 2, 2, 16, 1, "MONOCHROME2");
    assert_eq!(data, Vec::<u8>::new());
    assert_eq!(warning, Some(SizeMismatch::Samples { expected: 4, actual: 0 }));
    assert_eq!(sample_range(&vec![]), (0, 1));
    assert_eq!(gray_triples(&vec![]), Vec::<u8>::new());
}

#[test]
fn no_pixels_no_bytes() {
    let (data, warning) = normalize(&[1, 2, 3], 0, 5, 16, 1, "MONOCHROME2");
    assert_eq!(data, Vec::<u8>::new());
    assert_eq!(warning, None);
    let (data, warning) = normalize(&[1, 2, 3], 5, 0, 8, 3, "RGB");
    assert_eq!(data, Vec::<u8>::new());
    assert_eq!(warning, None);
}

#[test]
fn sample_range_finds_lowest_and_highest() {
    assert_eq!(sample_range(&vec![5]), (5, 5));
    assert_eq!(sample_range(&vec![5, 3, 9, 3, 9]), (3, 9));
    assert_eq!(sample_range(&vec![65535, 0]), (0, 65535));
}

#[test]
fn gray_levels_round_toward_zero() {
    // (s - 0) * 255 / 3 = 85 and 170 exactly
    assert_eq!(grays(&gray_triples(&vec![0, 1, 2, 3])), vec![0, 85, 170, 255]);
    // (s - 0) * 255 / 7 = 36.4, 72.9, 109.3, ...
    assert_eq!(
        grays(&gray_triples(&vec![0, 1, 2, 3, 4, 5, 6, 7])),
        vec![0, 36, 72, 109, 145, 182, 218, 255]
    );
    // the widest range
    assert_eq!(grays(&gray_triples(&vec![0, 65535, 32767, 32768, 257])), vec![0, 255, 127, 127, 1]);
}

#[test]
fn gray_levels_agree_with_single_precision_rescaling() {
    for (lo, hi) in [(0u16, 4095u16), (10, 30), (0, 255), (100, 3000), (0, 65535), (7, 1000)] {
        let mut samples = vec![lo, hi];
        let step = if hi - lo > 5000 { 13 } else { 1 };
        let mut s = lo;
        while s < hi {
            samples.push(s);
            s = s.saturating_add(step);
        }
        let levels = grays(&gray_triples(&samples));
        for (sample, level) in samples.iter().zip(levels.iter()) {
            let range = hi as f32 - lo as f32;
            let expected = ((*sample as f32 - lo as f32) / range * 255.0) as u8;
            assert_eq!(*level, expected);
        }
    }
}

#[test]
fn copy_padded_pads_and_cuts() {
    assert_eq!(copy_padded(&[1, 2, 3], 5), vec![1, 2, 3, 0, 0]);
    assert_eq!(copy_padded(&[1, 2, 3], 2), vec![1, 2]);
    assert_eq!(copy_padded(&[1, 2, 3], 3), vec![1, 2, 3]);
    assert_eq!(copy_padded(&[], 0), Vec::<u8>::new());
}
