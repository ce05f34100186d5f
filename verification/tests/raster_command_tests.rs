use ptouch::error::PtouchError;
use ptouch::raster_command::CommandMode;
use ptouch::raster_command::PageType;
use ptouch::raster_command::RasterCommand;

#[test]
fn test_invalidate_is_200_zero_bytes() {
    let mut cmd = RasterCommand::new();
    cmd.invalidate();
    let data = cmd.build();
    assert_eq!(data.len(), 200);
    assert!(data.iter().all(|&b| b == 0));
}

#[test]
fn test_initialize_and_status_request_opcodes() {
    let mut cmd = RasterCommand::new();
    cmd.initialize();
    cmd.status_information_request();
    assert_eq!(cmd.build(), vec![0x1B, 0x40, 0x1B, 0x69, 0x53]);
}

#[test]
fn test_mode_switch_codes() {
    let mut cmd = RasterCommand::new();
    cmd.switch_dynamic_command_mode(CommandMode::Raster);
    assert_eq!(cmd.build(), vec![0x1B, 0x69, 0x61, 0x01]);

    let mut cmd = RasterCommand::new();
    cmd.switch_dynamic_command_mode(CommandMode::EscP);
    assert_eq!(cmd.build(), vec![0x1B, 0x69, 0x61, 0x00]);

    let mut cmd = RasterCommand::new();
    cmd.switch_dynamic_command_mode(CommandMode::Template);
    assert_eq!(cmd.build(), vec![0x1B, 0x69, 0x61, 0x03]);
}

#[test]
fn test_print_information_command_layout() {
    let mut cmd = RasterCommand::new();
    cmd.print_information_command(
        false,
        true,
        Some(0),
        Some(12),
        None,
        0x01020304,
        PageType::LastPage,
    );
    let data = cmd.build();
    // flags: media type present (0x02), media width present (0x04),
    // recover mode (0x80); raster count little-endian
    assert_eq!(
        data,
        vec![0x1B, 0x69, 0x7A, 0x86, 0x00, 12, 0x00, 0x04, 0x03, 0x02, 0x01, 0x02, 0x00]
    );
}

#[test]
fn test_print_information_command_all_fields() {
    let mut cmd = RasterCommand::new();
    cmd.print_information_command(
        true,
        false,
        Some(1),
        Some(24),
        Some(9),
        100,
        PageType::FirstPage,
    );
    let data = cmd.build();
    assert_eq!(
        data,
        vec![0x1B, 0x69, 0x7A, 0x4E, 1, 24, 9, 100, 0, 0, 0, 0x00, 0x00]
    );
}

#[test]
fn test_various_mode_settings_bits() {
    let mut cmd = RasterCommand::new();
    cmd.various_mode_settings(true, false);
    assert_eq!(cmd.build(), vec![0x1B, 0x69, 0x4D, 0x40]);

    let mut cmd = RasterCommand::new();
    cmd.various_mode_settings(false, true);
    assert_eq!(cmd.build(), vec![0x1B, 0x69, 0x4D, 0x80]);
}

#[test]
fn test_advanced_mode_settings_bits() {
    let mut cmd = RasterCommand::new();
    cmd.advanced_mode_settings(false, true, true, false, false, false);
    assert_eq!(cmd.build(), vec![0x1B, 0x69, 0x4B, 0x0C]);

    let mut cmd = RasterCommand::new();
    cmd.advanced_mode_settings(true, false, false, true, true, true);
    assert_eq!(cmd.build(), vec![0x1B, 0x69, 0x4B, 0xD1]);
}

#[test]
fn test_margin_amount_little_endian() {
    let mut cmd = RasterCommand::new();
    assert!(cmd.specify_margin_amount(14).is_ok());
    assert_eq!(cmd.build(), vec![0x1B, 0x69, 0x64, 0x0E, 0x00]);

    let mut cmd = RasterCommand::new();
    assert!(cmd.specify_margin_amount(300).is_ok());
    assert_eq!(cmd.build(), vec![0x1B, 0x69, 0x64, 0x2C, 0x01]);
}

#[test]
fn test_margin_amount_zero_is_rejected() {
    // a zero margin corrupts label boundaries in hardware: the encoder
    // must refuse it instead of silently encoding it
    let mut cmd = RasterCommand::new();
    let result = cmd.specify_margin_amount(0);
    assert!(matches!(result, Err(PtouchError::MarginZero)));
    assert_eq!(cmd.build(), Vec::<u8>::new(), "nothing may be appended");
}

#[test]
fn test_page_number_and_compression() {
    let mut cmd = RasterCommand::new();
    cmd.specify_page_number(1);
    cmd.select_compression_mode(true);
    cmd.select_compression_mode(false);
    assert_eq!(
        cmd.build(),
        vec![0x1B, 0x69, 0x41, 0x01, 0x4D, 0x02, 0x4D, 0x00]
    );
}

#[test]
fn test_raster_graphics_transfer_frames_payload() {
    let mut cmd = RasterCommand::new();
    cmd.raster_graphics_transfer(&[0xBB, 0x00]);
    assert_eq!(cmd.build(), vec![0x47, 0x02, 0x00, 0xBB, 0x00]);

    let mut cmd = RasterCommand::new();
    let payload = vec![0xAAu8; 300];
    cmd.raster_graphics_transfer(&payload);
    let data = cmd.build();
    assert_eq!(&data[0..3], &[0x47, 0x2C, 0x01]);
    assert_eq!(&data[3..], payload.as_slice());
}

#[test]
fn test_terminal_commands() {
    let mut cmd = RasterCommand::new();
    cmd.zero_raster_graphics();
    cmd.print_command();
    cmd.print_command_with_feeding();
    assert_eq!(cmd.build(), vec![0x5A, 0x0C, 0x1A]);
}
