use ptouch::tape::Tape;
use ptouch::tape::TapeSpec;

const ALL_TAPES: [Tape; 13] = [
    Tape::TZe3H,
    Tape::TZe6H,
    Tape::TZe9H,
    Tape::TZe12H,
    Tape::TZe18H,
    Tape::TZe24H,
    Tape::TZe36H,
    Tape::TZe3L,
    Tape::TZe6L,
    Tape::TZe9L,
    Tape::TZe12L,
    Tape::TZe18L,
    Tape::TZe24L,
];

#[test]
fn test_geometry_invariants_hold_for_every_tape() {
    for tape in ALL_TAPES {
        let spec = TapeSpec::new(tape);
        assert!(
            spec.right_pins + spec.inner_dots <= spec.total_pins,
            "margin pins plus printable dots exceed the head on {:?}",
            tape
        );
        assert!(spec.inner_dots <= spec.width_dots);
        assert_eq!(spec.total_pins % 8, 0);
        assert!(spec.dpi == 180 || spec.dpi == 360);
    }
}

#[test]
fn test_12mm_360dpi_geometry() {
    let spec = TapeSpec::new(Tape::TZe12H);
    assert_eq!(spec.width_mm, 12);
    assert_eq!(spec.width_dots, 170);
    assert_eq!(spec.inner_dots, 150);
    assert_eq!(spec.total_pins, 560);
    assert_eq!(spec.right_pins, 213);
    assert_eq!(spec.dpi, 360);
}

#[test]
fn test_lookup_by_width_dots() {
    let spec = TapeSpec::from_width_dots_and_dpi(170, 360).unwrap();
    assert_eq!(spec.width_mm, 12);
    let spec = TapeSpec::from_width_dots_and_dpi(170, 180).unwrap();
    assert_eq!(spec.width_mm, 24);
    assert!(TapeSpec::from_width_dots_and_dpi(171, 360).is_none());
    assert!(TapeSpec::from_width_dots_and_dpi(512, 180).is_none());
    assert!(TapeSpec::from_width_dots_and_dpi(170, 300).is_none());
}

#[test]
fn test_lookup_by_media_width() {
    let spec = TapeSpec::from_width_mm_and_dpi(12, 360).unwrap();
    assert_eq!(spec.width_dots, 170);
    let spec = TapeSpec::from_width_mm_and_dpi(24, 180).unwrap();
    assert_eq!(spec.width_dots, 170);
    // the largest tape class is not supported at the lower resolution
    assert!(TapeSpec::from_width_mm_and_dpi(36, 180).is_none());
    assert!(TapeSpec::from_width_mm_and_dpi(13, 360).is_none());
}
