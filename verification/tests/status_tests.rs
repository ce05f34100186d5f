use ptouch::status::Status;

#[test]
fn test_all_zero_status_is_clean_and_defaults_to_360dpi() {
    let status = Status::new([0u8; 32]);
    assert_eq!(status.has_errors(), false);
    assert_eq!(status.printer_dpi(), 360);
    assert_eq!(status.error_info1(), 0);
    assert_eq!(status.error_info2(), 0);
    assert!(status.error_descriptions().is_empty());
}

#[test]
fn test_model_id_to_dpi() {
    for id in [0x6Fu8, 0x70, 0x71, 0x78] {
        let mut raw = [0u8; 32];
        raw[4] = id;
        assert_eq!(Status::new(raw).printer_dpi(), 360);
    }
    let mut raw = [0u8; 32];
    raw[4] = 0x5A;
    assert_eq!(Status::new(raw).printer_dpi(), 180);
    raw[4] = 0x01; // unknown model id falls back to 360
    assert_eq!(Status::new(raw).printer_dpi(), 360);
}

#[test]
fn test_error_bits_set_has_errors() {
    let mut raw = [0u8; 32];
    raw[8] = 0x01;
    let status = Status::new(raw);
    assert!(status.has_errors());
    assert_eq!(status.error_info1(), 0x01);

    let mut raw = [0u8; 32];
    raw[9] = 0x80;
    let status = Status::new(raw);
    assert!(status.has_errors());
    assert_eq!(status.error_info2(), 0x80);
}

#[test]
fn test_media_fields() {
    let mut raw = [0u8; 32];
    raw[10] = 12;
    raw[11] = 0x01;
    let status = Status::new(raw);
    assert_eq!(status.media_width_mm(), 12);
    assert_eq!(status.media_type(), 0x01);
    assert_eq!(status.raw_data()[10], 12);
}

#[test]
fn test_error_descriptions_order_and_content() {
    let mut raw = [0u8; 32];
    raw[8] = 0x01 | 0x10; // no media, printer in use
    raw[9] = 0x10 | 0x80; // cover open, system error
    let status = Status::new(raw);
    let messages = status.error_descriptions();
    assert_eq!(
        messages,
        vec![
            "No media".to_string(),
            "Printer in use".to_string(),
            "Cover open".to_string(),
            "System error".to_string(),
        ]
    );
}
