//! The fixed-layout 32-byte status record a printer reports.

use vstd::prelude::*;

verus! {

/// One 32-byte status record. Decoding never fails: every field is read at
/// a fixed offset, and the transport that produced the record has already
/// checked its length.
pub struct Status {
    raw_data: [u8; 32],
}

impl View for Status {
    type V = Seq<u8>;

    closed spec fn view(&self) -> Seq<u8> {
        self.raw_data@
    }
}

/// Appends `msg` to the description list when `cond` holds.
pub open spec fn desc_push(s: Seq<Seq<char>>, cond: bool, msg: Seq<char>) -> Seq<Seq<char>> {
    if cond {
        s.push(msg)
    } else {
        s
    }
}

/// The error descriptions of a pair of error-bitmask bytes, lowest bit of
/// the first byte first.
pub open spec fn spec_error_descriptions(e1: u8, e2: u8) -> Seq<Seq<char>> {
    desc_push(
        desc_push(
        desc_push(
        desc_push(
        desc_push(
        desc_push(
        desc_push(
        desc_push(
        desc_push(
        desc_push(
        desc_push(
        desc_push(
        desc_push(
        desc_push(
        Seq::empty(),
        e1 & 0x01 != 0,
        "No media"@,
    ),
        e1 & 0x02 != 0,
        "End of media"@,
    ),
        e1 & 0x04 != 0,
        "Cutter jam"@,
    ),
        e1 & 0x08 != 0,
        "Weak batteries"@,
    ),
        e1 & 0x10 != 0,
        "Printer in use"@,
    ),
        e1 & 0x40 != 0,
        "High-voltage adapter"@,
    ),
        e2 & 0x01 != 0,
        "Wrong media"@,
    ),
        e2 & 0x02 != 0,
        "Expansion buffer full"@,
    ),
        e2 & 0x04 != 0,
        "Communication error"@,
    ),
        e2 & 0x08 != 0,
        "Communication buffer full"@,
    ),
        e2 & 0x10 != 0,
        "Cover open"@,
    ),
        e2 & 0x20 != 0,
        "Overheating"@,
    ),
        e2 & 0x40 != 0,
        "Tape leader mark not detected"@,
    ),
        e2 & 0x80 != 0,
        "System error"@,
    )
}

/// Pushes `msg` onto `r` when `cond` holds.
fn push_if(r: &mut Vec<String>, cond: bool, msg: &str)
    ensures
        final(r).deep_view() == desc_push(old(r).deep_view(), cond, msg@),
{
    if cond {
        r.push(msg.to_owned());
        proof {
            assert(r.deep_view() =~= old(r).deep_view().push(msg@));
        }
    }
}

impl Status {
    /// Wraps a 32-byte record as received from the printer.
    pub fn new(data: [u8; 32]) -> (r: Self)
        ensures
            r@ == data@,
    {
        Status { raw_data: data }
    }

    /// The raw record.
    pub fn raw_data(&self) -> (r: &[u8; 32])
        ensures
            r@ == self@,
    {
        &self.raw_data
    }

    /// Either error-bitmask byte is nonzero.
    pub open spec fn spec_has_errors(&self) -> bool {
        self@[8] != 0 || self@[9] != 0
    }

    /// Returns whether the record reports any error condition.
    pub fn has_errors(&self) -> (r: bool)
        ensures
            r == self.spec_has_errors(),
    {
        self.error_info1() != 0x00 || self.error_info2() != 0x00
    }

    /// Returns the first error-bitmask byte.
    pub fn error_info1(&self) -> (r: u8)
        ensures
            r == self@[8],
    {
        self.raw_data[8]
    }

    /// Returns the second error-bitmask byte.
    pub fn error_info2(&self) -> (r: u8)
        ensures
            r == self@[9],
    {
        self.raw_data[9]
    }

    /// Returns the reported media width in millimetres.
    pub fn media_width_mm(&self) -> (r: u8)
        ensures
            r == self@[10],
    {
        self.raw_data[10]
    }

    /// Returns the reported media type byte.
    pub fn media_type(&self) -> (r: u8)
        ensures
            r == self@[11],
    {
        self.raw_data[11]
    }

    /// The resolution the model-id byte implies: a small set of known ids
    /// maps to 360 or 180 dpi, and an unknown id falls back to 360.
    pub open spec fn spec_printer_dpi(&self) -> u32 {
        if self@[4] == 0x5A {
            180
        } else {
            360
        }
    }

    /// Returns the printer's resolution in dots per inch, from the model id.
    pub fn printer_dpi(&self) -> (r: u32)
        ensures
            r == self.spec_printer_dpi(),
    {
        match self.raw_data[4] {
            0x6F | 0x70 | 0x71 | 0x78 => 360,
            0x5A => 180,
            _ => 360,
        }
    }

    /// Returns one description per error bit that is set, lowest bit of the
    /// first bitmask byte first.
    pub fn error_descriptions(&self) -> (r: Vec<String>)
        ensures
            r.deep_view() == spec_error_descriptions(self@[8], self@[9]),
    {
        let e1 = self.error_info1();
        let e2 = self.error_info2();
        let mut r: Vec<String> = Vec::new();
        proof {
            assert(r.deep_view() =~= Seq::<Seq<char>>::empty());
        }
        push_if(&mut r, e1 & 0x01 != 0, "No media");
        push_if(&mut r, e1 & 0x02 != 0, "End of media");
        push_if(&mut r, e1 & 0x04 != 0, "Cutter jam");
        push_if(&mut r, e1 & 0x08 != 0, "Weak batteries");
        push_if(&mut r, e1 & 0x10 != 0, "Printer in use");
        push_if(&mut r, e1 & 0x40 != 0, "High-voltage adapter");
        push_if(&mut r, e2 & 0x01 != 0, "Wrong media");
        push_if(&mut r, e2 & 0x02 != 0, "Expansion buffer full");
        push_if(&mut r, e2 & 0x04 != 0, "Communication error");
        push_if(&mut r, e2 & 0x08 != 0, "Communication buffer full");
        push_if(&mut r, e2 & 0x10 != 0, "Cover open");
        push_if(&mut r, e2 & 0x20 != 0, "Overheating");
        push_if(&mut r, e2 & 0x40 != 0, "Tape leader mark not detected");
        push_if(&mut r, e2 & 0x80 != 0, "System error");
        r
    }
}

} // verus!
