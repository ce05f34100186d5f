use ptouch::error::PtouchError;
use ptouch::printable_image::Bitmap;
use ptouch::printable_image::ColorKind;
use ptouch::printable_image::PrintableImage;
use ptouch::tape::Tape;
use ptouch::tape::TapeSpec;

fn gray_bitmap(width: u32, height: u32, value: u8) -> Bitmap {
    Bitmap {
        width,
        height,
        color: ColorKind::Grayscale,
        pixels: vec![value; (width * height) as usize],
    }
}

#[test]
fn test_height_mismatch_is_rejected() {
    let spec = TapeSpec::new(Tape::TZe12H);
    let result = PrintableImage::new(gray_bitmap(4, 100, 255), spec);
    assert!(matches!(
        result,
        Err(PtouchError::HeightMismatch { bitmap_height: 100, .. })
    ));
}

#[test]
fn test_white_bitmap_gives_all_zero_lines() {
    let spec = TapeSpec::new(Tape::TZe12H);
    let printable = PrintableImage::new(gray_bitmap(3, 170, 255), spec).unwrap();
    let lines = printable.to_raster_lines().unwrap();
    assert_eq!(lines.len(), 3);
    for line in &lines {
        assert_eq!(line.len(), 70, "one byte per eight of the 560 pins");
        assert!(line.iter().all(|&b| b == 0));
    }
}

#[test]
fn test_black_bitmap_sets_exactly_the_printable_band() {
    let spec = TapeSpec::new(Tape::TZe12H);
    let printable = PrintableImage::new(gray_bitmap(2, 170, 0), spec).unwrap();
    let lines = printable.to_raster_lines().unwrap();
    assert_eq!(lines.len(), 2);
    for line in &lines {
        assert_eq!(line.len(), 70);
        for pin in 0..560usize {
            let bit = line[pin / 8] & (1 << (7 - pin % 8)) != 0;
            let in_band = (213..213 + 150).contains(&pin);
            assert_eq!(bit, in_band, "pin {} must follow the printable band", pin);
        }
    }
}

#[test]
fn test_threshold_at_127() {
    // 126 prints, 127 does not
    let spec = TapeSpec::new(Tape::TZe18L); // width_dots 128, total 128, right 8, inner 112
    let mut pixels = vec![127u8; 128];
    pixels[8] = 126; // row 8 == margin, maps to pin right_pins + 0 = 8
    let bitmap = Bitmap { width: 1, height: 128, color: ColorKind::Grayscale, pixels };
    let printable = PrintableImage::new(bitmap, spec).unwrap();
    let lines = printable.to_raster_lines().unwrap();
    assert_eq!(lines.len(), 1);
    let line = &lines[0];
    assert_eq!(line.len(), 16);
    assert_eq!(line[1], 0x80, "pin 8 is the most significant bit of byte 1");
    for (i, &b) in line.iter().enumerate() {
        if i != 1 {
            assert_eq!(b, 0);
        }
    }
}

#[test]
fn test_rgb_pixels_use_channel_mean() {
    let spec = TapeSpec::new(Tape::TZe18L);
    // one column of 128 RGB pixels whose mean is 128: nothing prints
    let mut pixels = Vec::new();
    for _ in 0..128 {
        pixels.extend_from_slice(&[128, 128, 128]);
    }
    // row at the margin gets a dark pixel: mean (0 + 60 + 90) / 3 = 50
    let margin = (128 - 112) / 2; // 8
    let idx = 3 * margin;
    pixels[idx] = 0;
    pixels[idx + 1] = 60;
    pixels[idx + 2] = 90;
    let bitmap = Bitmap { width: 1, height: 128, color: ColorKind::Rgb, pixels };
    let printable = PrintableImage::new(bitmap, spec).unwrap();
    let lines = printable.to_raster_lines().unwrap();
    assert_eq!(lines[0][1], 0x80);
    assert_eq!(lines[0][0], 0);
}

#[test]
fn test_rgba_composites_onto_white() {
    let spec = TapeSpec::new(Tape::TZe18L);
    // fully transparent black composites to white: nothing prints
    let mut pixels = Vec::new();
    for _ in 0..128 {
        pixels.extend_from_slice(&[0, 0, 0, 0]);
    }
    let bitmap = Bitmap { width: 1, height: 128, color: ColorKind::Rgba, pixels: pixels.clone() };
    let printable = PrintableImage::new(bitmap, TapeSpec::new(Tape::TZe18L)).unwrap();
    let lines = printable.to_raster_lines().unwrap();
    assert!(lines[0].iter().all(|&b| b == 0));

    // fully opaque black prints
    let margin = (128 - 112) / 2;
    let idx = 4 * margin;
    pixels[idx + 3] = 255;
    let bitmap = Bitmap { width: 1, height: 128, color: ColorKind::Rgba, pixels };
    let printable = PrintableImage::new(bitmap, spec).unwrap();
    let lines = printable.to_raster_lines().unwrap();
    assert_eq!(lines[0][1], 0x80);
}

#[test]
fn test_tape_spec_accessor() {
    let spec = TapeSpec::new(Tape::TZe12H);
    let printable = PrintableImage::new(gray_bitmap(1, 170, 255), spec).unwrap();
    assert_eq!(printable.tape_spec().width_dots, 170);
}
