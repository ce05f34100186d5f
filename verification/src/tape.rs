//! Tape geometry: the dot/pin layout of each supported combination of
//! physical tape width and print resolution.

use vstd::prelude::*;

verus! {

/// A supported tape cartridge, named by its nominal width in millimetres
/// and the resolution class of the printer it is meant for (`H` = 360 dpi,
/// `L` = 180 dpi).
#[derive(Clone, Copy, Debug, PartialEq, Eq, Structural)]
pub enum Tape {
    TZe3H,
    TZe6H,
    TZe9H,
    TZe12H,
    TZe18H,
    TZe24H,
    TZe36H,
    TZe3L,
    TZe6L,
    TZe9L,
    TZe12L,
    TZe18L,
    TZe24L,
}

/// The physical dot/pin layout of one tape at one resolution.
///
/// `width_dots` is the full tape width in dots, `inner_dots` the printable
/// band inside it, `total_pins` the print head's pin count, and `right_pins`
/// the number of unused pins below the printable band in a raster line.
#[derive(Clone, Copy, Debug)]
pub struct TapeSpec {
    pub name: Tape,
    pub width_mm: u8,
    pub width_dots: u32,
    pub inner_dots: u32,
    pub total_pins: u32,
    pub right_pins: u32,
    pub dpi: u32,
}

/// The geometry table: every field of the spec for a given tape.
pub open spec fn spec_tape_spec(name: Tape) -> TapeSpec {
    match name {
        Tape::TZe3H => TapeSpec { name, width_mm: 4, width_dots: 48, inner_dots: 48, total_pins: 560, right_pins: 264, dpi: 360 },
        Tape::TZe6H => TapeSpec { name, width_mm: 6, width_dots: 84, inner_dots: 64, total_pins: 560, right_pins: 256, dpi: 360 },
        Tape::TZe9H => TapeSpec { name, width_mm: 9, width_dots: 128, inner_dots: 106, total_pins: 560, right_pins: 235, dpi: 360 },
        Tape::TZe12H => TapeSpec { name, width_mm: 12, width_dots: 170, inner_dots: 150, total_pins: 560, right_pins: 213, dpi: 360 },
        Tape::TZe18H => TapeSpec { name, width_mm: 18, width_dots: 256, inner_dots: 234, total_pins: 560, right_pins: 171, dpi: 360 },
        Tape::TZe24H => TapeSpec { name, width_mm: 24, width_dots: 340, inner_dots: 320, total_pins: 560, right_pins: 128, dpi: 360 },
        Tape::TZe36H => TapeSpec { name, width_mm: 36, width_dots: 512, inner_dots: 454, total_pins: 560, right_pins: 61, dpi: 360 },
        Tape::TZe3L => TapeSpec { name, width_mm: 4, width_dots: 24, inner_dots: 24, total_pins: 128, right_pins: 52, dpi: 180 },
        Tape::TZe6L => TapeSpec { name, width_mm: 6, width_dots: 42, inner_dots: 32, total_pins: 128, right_pins: 48, dpi: 180 },
        Tape::TZe9L => TapeSpec { name, width_mm: 9, width_dots: 64, inner_dots: 50, total_pins: 128, right_pins: 39, dpi: 180 },
        Tape::TZe12L => TapeSpec { name, width_mm: 12, width_dots: 84, inner_dots: 70, total_pins: 128, right_pins: 29, dpi: 180 },
        Tape::TZe18L => TapeSpec { name, width_mm: 18, width_dots: 128, inner_dots: 112, total_pins: 128, right_pins: 8, dpi: 180 },
        Tape::TZe24L => TapeSpec { name, width_mm: 24, width_dots: 170, inner_dots: 128, total_pins: 128, right_pins: 0, dpi: 180 },
    }
}

/// What every entry of the geometry table satisfies.
pub open spec fn spec_geometry_ok(s: TapeSpec) -> bool {
    &&& s.inner_dots <= s.width_dots
    &&& s.right_pins + s.inner_dots <= s.total_pins
    &&& s.total_pins % 8 == 0
    &&& s.total_pins >= 8
    &&& s.total_pins <= 0x10000
    &&& s.width_dots <= 0x10000
    &&& (s.dpi == 180 || s.dpi == 360)
}

/// Law: for every supported tape, the raster margin plus the printable band
/// fits on the print head, the printable band fits in the tape width, and
/// the pin count is a whole number of bytes.
pub proof fn lemma_tape_geometry(name: Tape)
    ensures
        spec_geometry_ok(spec_tape_spec(name)),
{
}

/// The inverse lookup by full tape width in dots, as the printable image's
/// pixel height implies it.
pub open spec fn spec_tape_for_width_dots(dots: u32, dpi: u32) -> Option<Tape> {
    if dpi == 360 {
        if dots == 48 { Some(Tape::TZe3H) }
        else if dots == 84 { Some(Tape::TZe6H) }
        else if dots == 128 { Some(Tape::TZe9H) }
        else if dots == 170 { Some(Tape::TZe12H) }
        else if dots == 256 { Some(Tape::TZe18H) }
        else if dots == 340 { Some(Tape::TZe24H) }
        else if dots == 512 { Some(Tape::TZe36H) }
        else { None }
    } else if dpi == 180 {
        if dots == 24 { Some(Tape::TZe3L) }
        else if dots == 42 { Some(Tape::TZe6L) }
        else if dots == 64 { Some(Tape::TZe9L) }
        else if dots == 84 { Some(Tape::TZe12L) }
        else if dots == 128 { Some(Tape::TZe18L) }
        else if dots == 170 { Some(Tape::TZe24L) }
        else { None }
    } else {
        None
    }
}

/// The inverse lookup by nominal media width in millimetres, as the printer
/// reports it in its status record.
pub open spec fn spec_tape_for_width_mm(mm: u8, dpi: u32) -> Option<Tape> {
    if dpi == 360 {
        if mm == 4 { Some(Tape::TZe3H) }
        else if mm == 6 { Some(Tape::TZe6H) }
        else if mm == 9 { Some(Tape::TZe9H) }
        else if mm == 12 { Some(Tape::TZe12H) }
        else if mm == 18 { Some(Tape::TZe18H) }
        else if mm == 24 { Some(Tape::TZe24H) }
        else if mm == 36 { Some(Tape::TZe36H) }
        else { None }
    } else if dpi == 180 {
        if mm == 4 { Some(Tape::TZe3L) }
        else if mm == 6 { Some(Tape::TZe6L) }
        else if mm == 9 { Some(Tape::TZe9L) }
        else if mm == 12 { Some(Tape::TZe12L) }
        else if mm == 18 { Some(Tape::TZe18L) }
        else if mm == 24 { Some(Tape::TZe24L) }
        else { None }
    } else {
        None
    }
}

impl TapeSpec {
    /// Builds the geometry record of one tape from the static table.
    pub fn new(tape_name: Tape) -> (r: TapeSpec)
        ensures
            r == spec_tape_spec(tape_name),
            spec_geometry_ok(r),
    {
        let (width_mm, width_dots, inner_dots, total_pins, right_pins, dpi): (u8, u32, u32, u32, u32, u32) = match tape_name {
            Tape::TZe3H => (4, 48, 48, 560, 264, 360),
            Tape::TZe6H => (6, 84, 64, 560, 256, 360),
            Tape::TZe9H => (9, 128, 106, 560, 235, 360),
            Tape::TZe12H => (12, 170, 150, 560, 213, 360),
            Tape::TZe18H => (18, 256, 234, 560, 171, 360),
            Tape::TZe24H => (24, 340, 320, 560, 128, 360),
            Tape::TZe36H => (36, 512, 454, 560, 61, 360),
            Tape::TZe3L => (4, 24, 24, 128, 52, 180),
            Tape::TZe6L => (6, 42, 32, 128, 48, 180),
            Tape::TZe9L => (9, 64, 50, 128, 39, 180),
            Tape::TZe12L => (12, 84, 70, 128, 29, 180),
            Tape::TZe18L => (18, 128, 112, 128, 8, 180),
            Tape::TZe24L => (24, 170, 128, 128, 0, 180),
        };
        TapeSpec {
            name: tape_name,
            width_mm,
            width_dots,
            inner_dots,
            total_pins,
            right_pins,
            dpi,
        }
    }

    /// Looks up the tape whose full width in dots matches a rendered image,
    /// at the given resolution; `None` for an unsupported combination.
    pub fn from_width_dots_and_dpi(dots: u32, dpi: u32) -> (r: Option<TapeSpec>)
        ensures
            match spec_tape_for_width_dots(dots, dpi) {
                Some(t) => r == Some(spec_tape_spec(t)),
                None => r is None,
            },
    {
        match (dots, dpi) {
            (48, 360) => Some(Self::new(Tape::TZe3H)),
            (84, 360) => Some(Self::new(Tape::TZe6H)),
            (128, 360) => Some(Self::new(Tape::TZe9H)),
            (170, 360) => Some(Self::new(Tape::TZe12H)),
            (256, 360) => Some(Self::new(Tape::TZe18H)),
            (340, 360) => Some(Self::new(Tape::TZe24H)),
            (512, 360) => Some(Self::new(Tape::TZe36H)),
            (24, 180) => Some(Self::new(Tape::TZe3L)),
            (42, 180) => Some(Self::new(Tape::TZe6L)),
            (64, 180) => Some(Self::new(Tape::TZe9L)),
            (84, 180) => Some(Self::new(Tape::TZe12L)),
            (128, 180) => Some(Self::new(Tape::TZe18L)),
            (170, 180) => Some(Self::new(Tape::TZe24L)),
            _ => None,
        }
    }

    /// Looks up the tape whose nominal width in millimetres matches what the
    /// printer reports, at the given resolution; `None` for an unsupported
    /// combination.
    pub fn from_width_mm_and_dpi(mm: u8, dpi: u32) -> (r: Option<TapeSpec>)
        ensures
            match spec_tape_for_width_mm(mm, dpi) {
                Some(t) => r == Some(spec_tape_spec(t)),
                None => r is None,
            },
    {
        match (mm, dpi) {
            (4, 360) => Some(Self::new(Tape::TZe3H)),
            (6, 360) => Some(Self::new(Tape::TZe6H)),
            (9, 360) => Some(Self::new(Tape::TZe9H)),
            (12, 360) => Some(Self::new(Tape::TZe12H)),
            (18, 360) => Some(Self::new(Tape::TZe18H)),
            (24, 360) => Some(Self::new(Tape::TZe24H)),
            (36, 360) => Some(Self::new(Tape::TZe36H)),
            (4, 180) => Some(Self::new(Tape::TZe3L)),
            (6, 180) => Some(Self::new(Tape::TZe6L)),
            (9, 180) => Some(Self::new(Tape::TZe9L)),
            (12, 180) => Some(Self::new(Tape::TZe12L)),
            (18, 180) => Some(Self::new(Tape::TZe18L)),
            (24, 180) => Some(Self::new(Tape::TZe24L)),
            _ => None,
        }
    }
}

} // verus!
