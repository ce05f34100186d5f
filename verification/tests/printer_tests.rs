use ptouch::backend::Backend;
use ptouch::error::PtouchError;
use ptouch::printable_image::Bitmap;
use ptouch::printable_image::ColorKind;
use ptouch::printable_image::PrintableImage;
use ptouch::printer::Printer;
use ptouch::printer::build_print_commands;
use ptouch::printer::preflight;
use ptouch::printer::validate_job_geometry;
use ptouch::status::Status;
use ptouch::tape::Tape;
use ptouch::tape::TapeSpec;

/// A backend that answers with a fixed status record and keeps what was
/// sent, so that a whole job can be inspected without hardware.
struct RecordingBackend {
    status: [u8; 32],
    sent: Vec<Vec<u8>>,
}

impl Backend for &mut RecordingBackend {
    fn send_command(&mut self, data: &[u8]) -> Result<(), PtouchError> {
        self.sent.push(data.to_vec());
        Ok(())
    }

    fn get_status(&mut self) -> Result<Status, PtouchError> {
        Ok(Status::new(self.status))
    }
}

fn white_image(width: u32) -> PrintableImage {
    let spec = TapeSpec::new(Tape::TZe12H);
    let bitmap = Bitmap {
        width,
        height: 170,
        color: ColorKind::Grayscale,
        pixels: vec![255u8; (width * 170) as usize],
    };
    PrintableImage::new(bitmap, spec).unwrap()
}

/// The full command stream a 12mm/360dpi all-white job of `width` columns
/// must produce, assembled by hand from the protocol reference.
fn expected_white_stream(width: u32, continuous: bool) -> Vec<u8> {
    let mut expected = vec![0u8; 200];
    expected.extend_from_slice(&[0x1B, 0x40]);
    expected.extend_from_slice(&[0x1B, 0x69, 0x61, 0x01]);
    expected.extend_from_slice(&[0x1B, 0x69, 0x7A, 0x8E, 0x00, 12, 0x00]);
    expected.extend_from_slice(&width.to_le_bytes());
    expected.extend_from_slice(&[0x02, 0x00]);
    expected.extend_from_slice(&[0x1B, 0x69, 0x4D, if continuous { 0x00 } else { 0x40 }]);
    expected.extend_from_slice(&[0x1B, 0x69, 0x41, 0x01]);
    expected.extend_from_slice(&[0x1B, 0x69, 0x4B, if continuous { 0x04 } else { 0x0C }]);
    expected.extend_from_slice(&[0x1B, 0x69, 0x64, 0x0E, 0x00]);
    expected.extend_from_slice(&[0x4D, 0x02]);
    for _ in 0..width {
        // 70 zero bytes compress to one run record
        expected.extend_from_slice(&[0x47, 0x02, 0x00, 0xBB, 0x00]);
    }
    expected.push(if continuous { 0x0C } else { 0x1A });
    expected
}

#[test]
fn test_build_print_commands_white_label_stream() {
    let printable = white_image(4);
    let data = build_print_commands(&printable, false).unwrap();
    assert_eq!(data, expected_white_stream(4, false));
}

#[test]
fn test_build_print_commands_continuous_ends_without_feed() {
    let printable = white_image(2);
    let data = build_print_commands(&printable, true).unwrap();
    assert_eq!(data, expected_white_stream(2, true));
}

#[test]
fn test_print_sends_one_stream_after_clean_status() {
    let printable = white_image(4);
    let mut backend = RecordingBackend { status: [0u8; 32], sent: Vec::new() };
    {
        let mut printer = Printer::new(&mut backend);
        printer.print(&printable, false).unwrap();
        let status = printer.get_status().unwrap();
        assert!(!status.has_errors());
    }
    assert_eq!(backend.sent.len(), 1, "the whole job goes out as one write");
    assert_eq!(backend.sent[0], expected_white_stream(4, false));
}

#[test]
fn test_print_aborts_on_printer_error_without_sending() {
    let printable = white_image(4);
    let mut status = [0u8; 32];
    status[8] = 0x01; // no media
    let mut backend = RecordingBackend { status, sent: Vec::new() };
    {
        let mut printer = Printer::new(&mut backend);
        let result = printer.print(&printable, false);
        assert!(matches!(
            result,
            Err(PtouchError::PrinterReported { error_info1: 0x01, error_info2: 0x00 })
        ));
    }
    assert!(backend.sent.is_empty(), "no partial job may be transmitted");
}

#[test]
fn test_preflight() {
    assert!(preflight(&Status::new([0u8; 32])).is_ok());
    let mut raw = [0u8; 32];
    raw[9] = 0x20; // overheating
    let result = preflight(&Status::new(raw));
    assert!(matches!(
        result,
        Err(PtouchError::PrinterReported { error_info1: 0, error_info2: 0x20 })
    ));
}

#[test]
fn test_validate_job_geometry_accepts_matching_tape() {
    let mut raw = [0u8; 32];
    raw[4] = 0x6F; // 360 dpi model
    raw[10] = 12; // 12mm tape loaded
    let status = Status::new(raw);
    let spec = validate_job_geometry(170, &status).unwrap();
    assert_eq!(spec.width_dots, 170);
    assert_eq!(spec.width_mm, 12);
}

#[test]
fn test_validate_job_geometry_rejects_unsupported_height() {
    let mut raw = [0u8; 32];
    raw[10] = 12;
    let status = Status::new(raw);
    let result = validate_job_geometry(171, &status);
    assert!(matches!(
        result,
        Err(PtouchError::UnsupportedBitmapHeight { bitmap_height: 171, dpi: 360 })
    ));
}

#[test]
fn test_validate_job_geometry_rejects_unsupported_media() {
    let mut raw = [0u8; 32];
    raw[10] = 13;
    let status = Status::new(raw);
    let result = validate_job_geometry(170, &status);
    assert!(matches!(
        result,
        Err(PtouchError::UnsupportedMediaWidth { media_width_mm: 13, dpi: 360 })
    ));
}

#[test]
fn test_validate_job_geometry_rejects_mismatch() {
    let mut raw = [0u8; 32];
    raw[10] = 24; // printer has 24mm tape
    let status = Status::new(raw);
    let result = validate_job_geometry(170, &status); // bitmap implies 12mm
    assert!(matches!(
        result,
        Err(PtouchError::GeometryMismatch {
            bitmap_width_mm: 12,
            bitmap_width_dots: 170,
            printer_width_mm: 24,
            printer_width_dots: 340,
        })
    ));
}
