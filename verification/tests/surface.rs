use dicom_webview::pixel::normalize;
use dicom_webview::surface::render_dicom_image;

#[test]
fn every_pixel_gets_an_opaque_alpha() {
    let image = render_dicom_image(&[1, 2, 3, 4, 5, 6], 2, 1);
    assert_eq!(image.width, 2);
    assert_eq!(image.height, 1);
    assert_eq!(image.rgba, vec![1, 2, 3, 255, 4, 5, 6, 255]);
}

#[test]
fn frame_of_a_display_buffer_has_four_bytes_per_pixel() {
    let (display, _) = normalize(&[0, 128, 255, 64, 32, 16], 2, 3, 8, 1, "MONOCHROME2");
    let image = render_dicom_image(&display, 3, 2);
    assert_eq!(image.rgba.len(), 3 * 2 * 4);
    for pixel in 0..6 {
        assert_eq!(image.rgba[4 * pixel], display[3 * pixel]);
        assert_eq!(image.rgba[4 * pixel + 1], display[3 * pixel + 1]);
        assert_eq!(image.rgba[4 * pixel + 2], display[3 * pixel + 2]);
        assert_eq!(image.rgba[4 * pixel + 3], 255);
    }
}

#[test]
fn bytes_behind_the_last_whole_pixel_are_left_out() {
    assert_eq!(render_dicom_image(&[9, 8, 7, 6, 5], 1, 1).rgba, vec![9, 8, 7, 255]);
    assert_eq!(render_dicom_image(&[9, 8], 1, 1).rgba, Vec::<u8>::new());
    assert_eq!(render_dicom_image(&[], 0, 0).rgba, Vec::<u8>::new());
}
