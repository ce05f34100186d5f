//! The raster protocol encoder: an append-only builder for one print job's
//! binary command stream.

use vstd::prelude::*;
use crate::error::PtouchError;

verus! {

/// The printer's dynamic command mode.
#[derive(Clone, Copy, Debug)]
pub enum CommandMode {
    /// ESC/P mode (traditional mode).
    EscP,
    /// Raster mode (the mode this library drives).
    Raster,
    /// Template mode.
    Template,
}

impl CommandMode {
    /// The code byte the mode-switch command carries for this mode.
    pub open spec fn spec_code(self) -> u8 {
        match self {
            CommandMode::EscP => 0,
            CommandMode::Raster => 1,
            CommandMode::Template => 3,
        }
    }

    /// Returns the code byte of this mode.
    pub fn code(self) -> (r: u8)
        ensures
            r == self.spec_code(),
    {
        match self {
            CommandMode::EscP => 0,
            CommandMode::Raster => 1,
            CommandMode::Template => 3,
        }
    }
}

/// Where a page stands in a multi-page job.
#[derive(Clone, Copy, Debug)]
pub enum PageType {
    /// First page of a multi-page job.
    FirstPage,
    /// A middle page of a multi-page job.
    MiddlePage,
    /// The last page, or the only page of a single-page job.
    LastPage,
}

impl PageType {
    /// The code byte the print-information command carries for this page type.
    pub open spec fn spec_code(self) -> u8 {
        match self {
            PageType::FirstPage => 0,
            PageType::MiddlePage => 1,
            PageType::LastPage => 2,
        }
    }

    /// Returns the code byte of this page type.
    pub fn code(self) -> (r: u8)
        ensures
            r == self.spec_code(),
    {
        match self {
            PageType::FirstPage => 0,
            PageType::MiddlePage => 1,
            PageType::LastPage => 2,
        }
    }
}

/// The little-endian bytes of a 16-bit value.
pub open spec fn spec_le16(n: u16) -> Seq<u8> {
    seq![(n & 0xFF) as u8, ((n >> 8) & 0xFF) as u8]
}

/// The little-endian bytes of a 32-bit value.
pub open spec fn spec_le32(n: u32) -> Seq<u8> {
    seq![
        (n & 0xFF) as u8,
        ((n >> 8) & 0xFF) as u8,
        ((n >> 16) & 0xFF) as u8,
        ((n >> 24) & 0xFF) as u8,
    ]
}

/// The flags byte of the print-information command: presence bits for the
/// media fields, plus the quality and recover bits.
pub open spec fn spec_print_info_flag(
    quality_mode: bool,
    recover_mode: bool,
    media_type: Option<u8>,
    media_width: Option<u8>,
    media_length: Option<u8>,
) -> u8 {
    ((if media_type is Some { 0x02u8 } else { 0u8 })
        + (if media_width is Some { 0x04u8 } else { 0u8 })
        + (if media_length is Some { 0x08u8 } else { 0u8 })
        + (if quality_mode { 0x40u8 } else { 0u8 })
        + (if recover_mode { 0x80u8 } else { 0u8 })) as u8
}

/// The parameter byte of the various-mode-settings command.
pub open spec fn spec_various_mode(auto_cut: bool, mirror: bool) -> u8 {
    ((if auto_cut { 0x40u8 } else { 0u8 }) + (if mirror { 0x80u8 } else { 0u8 })) as u8
}

/// The parameter byte of the advanced-mode-settings command.
pub open spec fn spec_advanced_mode(
    draft: bool,
    half_cut: bool,
    no_chain: bool,
    special_tape: bool,
    high_resolution: bool,
    no_clear: bool,
) -> u8 {
    ((if draft { 0x01u8 } else { 0u8 })
        + (if half_cut { 0x04u8 } else { 0u8 })
        + (if no_chain { 0x08u8 } else { 0u8 })
        + (if special_tape { 0x10u8 } else { 0u8 })
        + (if high_resolution { 0x40u8 } else { 0u8 })
        + (if no_clear { 0x80u8 } else { 0u8 })) as u8
}

/// Builder for one job's command stream. Every method appends one complete
/// command record; the view is the bytes appended so far, in order.
pub struct RasterCommand {
    buffer: Vec<u8>,
}

impl View for RasterCommand {
    type V = Seq<u8>;

    closed spec fn view(&self) -> Seq<u8> {
        self.buffer@
    }
}

impl RasterCommand {
    /// Creates an empty command builder.
    pub fn new() -> (r: Self)
        ensures
            r@ == Seq::<u8>::empty(),
    {
        RasterCommand { buffer: Vec::new() }
    }

    /// Appends the invalidate sequence: 200 zero bytes that clear any
    /// half-read command in the printer before a new job.
    pub fn invalidate(&mut self)
        ensures
            final(self)@ == old(self)@ + Seq::new(200, |i: int| 0u8),
    {
        let mut i: usize = 0;
        while i < 200
            invariant
                i <= 200,
                self.buffer@ == old(self).buffer@ + Seq::new(i as nat, |j: int| 0u8),
            decreases 200 - i,
        {
            self.buffer.push(0u8);
            proof {
                assert(Seq::new((i + 1) as nat, |j: int| 0u8) =~= Seq::new(
                    i as nat,
                    |j: int| 0u8,
                ).push(0u8));
            }
            i = i + 1;
        }
    }

    /// Appends the initialize command, which resets the printer.
    pub fn initialize(&mut self)
        ensures
            final(self)@ == old(self)@ + seq![0x1Bu8, 0x40u8],
    {
        self.buffer.push(0x1B);
        self.buffer.push(0x40);
        proof {
            assert(self.buffer@ =~= old(self).buffer@ + seq![0x1Bu8, 0x40u8]);
        }
    }

    /// Appends the status-information request, which a USB-connected printer
    /// answers with a 32-byte status record.
    pub fn status_information_request(&mut self)
        ensures
            final(self)@ == old(self)@ + seq![0x1Bu8, 0x69u8, 0x53u8],
    {
        self.buffer.push(0x1B);
        self.buffer.push(0x69);
        self.buffer.push(0x53);
        proof {
            assert(self.buffer@ =~= old(self).buffer@ + seq![0x1Bu8, 0x69u8, 0x53u8]);
        }
    }

    /// Appends the mode-switch command selecting the given command mode.
    pub fn switch_dynamic_command_mode(&mut self, mode: CommandMode)
        ensures
            final(self)@ == old(self)@ + seq![0x1Bu8, 0x69u8, 0x61u8, mode.spec_code()],
    {
        self.buffer.push(0x1B);
        self.buffer.push(0x69);
        self.buffer.push(0x61);
        self.buffer.push(mode.code());
        proof {
            assert(self.buffer@ =~= old(self).buffer@ + seq![
                0x1Bu8,
                0x69u8,
                0x61u8,
                mode.spec_code(),
            ]);
        }
    }

    /// Appends the print-information command: the flags byte, the three
    /// media bytes, the little-endian 32-bit raster-line count, the page
    /// type and a reserved byte.
    pub fn print_information_command(
        &mut self,
        quality_mode: bool,
        recover_mode: bool,
        media_type: Option<u8>,
        media_width: Option<u8>,
        media_length: Option<u8>,
        raster_number: u32,
        page_type: PageType,
    )
        ensures
            final(self)@ == old(self)@ + seq![
                0x1Bu8,
                0x69u8,
                0x7Au8,
                spec_print_info_flag(
                    quality_mode,
                    recover_mode,
                    media_type,
                    media_width,
                    media_length,
                ),
                media_type.unwrap_or(0),
                media_width.unwrap_or(0),
                media_length.unwrap_or(0),
            ] + spec_le32(raster_number) + seq![page_type.spec_code(), 0x00u8],
    {
        let mut flag: u8 = 0;
        let media_type_val: u8 = match media_type {
            Some(val) => {
                flag = flag + 0x02;
                val
            },
            None => 0,
        };
        let media_width_val: u8 = match media_width {
            Some(val) => {
                flag = flag + 0x04;
                val
            },
            None => 0,
        };
        let media_length_val: u8 = match media_length {
            Some(val) => {
                flag = flag + 0x08;
                val
            },
            None => 0,
        };
        if quality_mode {
            flag = flag + 0x40;
        }
        if recover_mode {
            flag = flag + 0x80;
        }
        self.buffer.push(0x1B);
        self.buffer.push(0x69);
        self.buffer.push(0x7A);
        self.buffer.push(flag);
        self.buffer.push(media_type_val);
        self.buffer.push(media_width_val);
        self.buffer.push(media_length_val);
        self.buffer.push((raster_number & 0xFF) as u8);
        self.buffer.push(((raster_number >> 8) & 0xFF) as u8);
        self.buffer.push(((raster_number >> 16) & 0xFF) as u8);
        self.buffer.push(((raster_number >> 24) & 0xFF) as u8);
        self.buffer.push(page_type.code());
        self.buffer.push(0x00);
        proof {
            assert(self.buffer@ =~= old(self).buffer@ + seq![
                0x1Bu8,
                0x69u8,
                0x7Au8,
                spec_print_info_flag(
                    quality_mode,
                    recover_mode,
                    media_type,
                    media_width,
                    media_length,
                ),
                media_type.unwrap_or(0),
                media_width.unwrap_or(0),
                media_length.unwrap_or(0),
            ] + spec_le32(raster_number) + seq![page_type.spec_code(), 0x00u8]);
        }
    }

    /// Appends the various-mode-settings command (auto-cut and mirror bits).
    pub fn various_mode_settings(&mut self, auto_cut: bool, mirror: bool)
        ensures
            final(self)@ == old(self)@ + seq![
                0x1Bu8,
                0x69u8,
                0x4Du8,
                spec_various_mode(auto_cut, mirror),
            ],
    {
        let mut param: u8 = 0;
        if auto_cut {
            param = param + 0x40;
        }
        if mirror {
            param = param + 0x80;
        }
        self.buffer.push(0x1B);
        self.buffer.push(0x69);
        self.buffer.push(0x4D);
        self.buffer.push(param);
        proof {
            assert(self.buffer@ =~= old(self).buffer@ + seq![
                0x1Bu8,
                0x69u8,
                0x4Du8,
                spec_various_mode(auto_cut, mirror),
            ]);
        }
    }

    /// Appends the advanced-mode-settings command (draft, half-cut,
    /// no-chain, special-tape, high-resolution and no-buffer-clear bits).
    pub fn advanced_mode_settings(
        &mut self,
        draft: bool,
        half_cut: bool,
        no_chain: bool,
        special_tape: bool,
        high_resolution: bool,
        no_clear: bool,
    )
        ensures
            final(self)@ == old(self)@ + seq![
                0x1Bu8,
                0x69u8,
                0x4Bu8,
                spec_advanced_mode(
                    draft,
                    half_cut,
                    no_chain,
                    special_tape,
                    high_resolution,
                    no_clear,
                ),
            ],
    {
        let mut param: u8 = 0;
        if draft {
            param = param + 0x01;
        }
        if half_cut {
            param = param + 0x04;
        }
        if no_chain {
            param = param + 0x08;
        }
        if special_tape {
            param = param + 0x10;
        }
        if high_resolution {
            param = param + 0x40;
        }
        if no_clear {
            param = param + 0x80;
        }
        self.buffer.push(0x1B);
        self.buffer.push(0x69);
        self.buffer.push(0x4B);
        self.buffer.push(param);
        proof {
            assert(self.buffer@ =~= old(self).buffer@ + seq![
                0x1Bu8,
                0x69u8,
                0x4Bu8,
                spec_advanced_mode(
                    draft,
                    half_cut,
                    no_chain,
                    special_tape,
                    high_resolution,
                    no_clear,
                ),
            ]);
        }
    }

    /// Appends the margin-amount command: a symmetric margin in dots as a
    /// little-endian 16-bit value. A zero margin is refused and appends
    /// nothing: the hardware corrupts label boundaries when a job prints
    /// with no margin.
    pub fn specify_margin_amount(&mut self, dots: u16) -> (r: Result<(), PtouchError>)
        ensures
            dots == 0 ==> (r matches Err(PtouchError::MarginZero)) && final(self)@ == old(self)@,
            dots != 0 ==> r is Ok && final(self)@ == old(self)@ + seq![0x1Bu8, 0x69u8, 0x64u8]
                + spec_le16(dots),
    {
        if dots == 0 {
            return Err(PtouchError::MarginZero);
        }
        self.buffer.push(0x1B);
        self.buffer.push(0x69);
        self.buffer.push(0x64);
        self.buffer.push((dots & 0xFF) as u8);
        self.buffer.push(((dots >> 8) & 0xFF) as u8);
        proof {
            assert(self.buffer@ =~= old(self).buffer@ + seq![0x1Bu8, 0x69u8, 0x64u8] + spec_le16(
                dots,
            ));
        }
        Ok(())
    }

    /// Appends the page-number command: the cut interval in labels; zero
    /// disables cutting.
    pub fn specify_page_number(&mut self, n: u8)
        ensures
            final(self)@ == old(self)@ + seq![0x1Bu8, 0x69u8, 0x41u8, n],
    {
        self.buffer.push(0x1B);
        self.buffer.push(0x69);
        self.buffer.push(0x41);
        self.buffer.push(n);
        proof {
            assert(self.buffer@ =~= old(self).buffer@ + seq![0x1Bu8, 0x69u8, 0x41u8, n]);
        }
    }

    /// Appends the compression-mode select command: run-length compression
    /// on or off for the raster transfers that follow.
    pub fn select_compression_mode(&mut self, tiff: bool)
        ensures
            final(self)@ == old(self)@ + seq![0x4Du8, if tiff { 0x02u8 } else { 0x00u8 }],
    {
        self.buffer.push(0x4D);
        self.buffer.push(if tiff { 0x02 } else { 0x00 });
        proof {
            assert(self.buffer@ =~= old(self).buffer@ + seq![
                0x4Du8,
                if tiff { 0x02u8 } else { 0x00u8 },
            ]);
        }
    }

    /// Appends one raster-transfer record: the opcode, the payload length
    /// as a little-endian 16-bit value, and the payload itself.
    pub fn raster_graphics_transfer(&mut self, data: &[u8])
        requires
            data@.len() <= 0xFFFF,
        ensures
            final(self)@ == old(self)@ + seq![0x47u8] + spec_le16(data@.len() as u16) + data@,
    {
        self.buffer.push(0x47);
        let len: u16 = data.len() as u16;
        self.buffer.push((len & 0xFF) as u8);
        self.buffer.push(((len >> 8) & 0xFF) as u8);
        let ghost mid = self.buffer@;
        let mut k: usize = 0;
        while k < data.len()
            invariant
                k <= data@.len(),
                self.buffer@ == mid + data@.take(k as int),
            decreases data@.len() - k,
        {
            self.buffer.push(data[k]);
            proof {
                assert(data@.take(k + 1) =~= data@.take(k as int).push(data@[k as int]));
            }
            k = k + 1;
        }
        proof {
            assert(data@.take(data@.len() as int) =~= data@);
            assert(self.buffer@ =~= old(self).buffer@ + seq![0x47u8] + spec_le16(
                data@.len() as u16,
            ) + data@);
        }
    }

    /// Appends the zero-raster record: one blank raster line.
    pub fn zero_raster_graphics(&mut self)
        ensures
            final(self)@ == old(self)@ + seq![0x5Au8],
    {
        self.buffer.push(0x5A);
        proof {
            assert(self.buffer@ =~= old(self).buffer@ + seq![0x5Au8]);
        }
    }

    /// Appends the print command: print without feeding, for continuous
    /// printing.
    pub fn print_command(&mut self)
        ensures
            final(self)@ == old(self)@ + seq![0x0Cu8],
    {
        self.buffer.push(0x0C);
        proof {
            assert(self.buffer@ =~= old(self).buffer@ + seq![0x0Cu8]);
        }
    }

    /// Appends the print-with-feeding command: the terminal command of the
    /// final (or only) label.
    pub fn print_command_with_feeding(&mut self)
        ensures
            final(self)@ == old(self)@ + seq![0x1Au8],
    {
        self.buffer.push(0x1A);
        proof {
            assert(self.buffer@ =~= old(self).buffer@ + seq![0x1Au8]);
        }
    }

    /// Consumes the builder and yields the finished command stream.
    pub fn build(self) -> (r: Vec<u8>)
        ensures
            r@ == self@,
    {
        self.buffer
    }
}

} // verus!
