//! The print-job orchestrator: pre-flight status check, rasterization,
//! compression, command-stream assembly, and one transport write.

use vstd::prelude::*;
use crate::backend::Backend;
use crate::error::PtouchError;
use crate::printable_image::PrintableImage;
use crate::printable_image::spec_compress;
use crate::printable_image::spec_raster_lines;
use crate::printable_image::compress_tiff_group4;
use crate::raster_command::CommandMode;
use crate::raster_command::PageType;
use crate::raster_command::RasterCommand;
use crate::raster_command::spec_advanced_mode;
use crate::raster_command::spec_le16;
use crate::raster_command::spec_le32;
use crate::raster_command::spec_print_info_flag;
use crate::raster_command::spec_various_mode;
use crate::status::Status;
use crate::tape::TapeSpec;
use crate::tape::spec_tape_spec;
use crate::tape::spec_tape_for_width_dots;
use crate::tape::spec_tape_for_width_mm;

verus! {

/// Everything of one job's command stream that precedes the raster data:
/// invalidate, initialize, raster mode, print information (media type 0,
/// the tape's width, length 0, the raster-line count, a single last page),
/// various-mode settings (auto-cut unless continuous), page number 1,
/// advanced-mode settings (half-cut, and cut-last unless continuous), a
/// 14-dot margin, and compression on.
pub open spec fn spec_job_prefix(ts: TapeSpec, raster_count: u32, continuous: bool) -> Seq<u8> {
    Seq::new(200, |i: int| 0u8) + seq![0x1Bu8, 0x40u8] + seq![0x1Bu8, 0x69u8, 0x61u8, 0x01u8]
        + seq![
        0x1Bu8,
        0x69u8,
        0x7Au8,
        spec_print_info_flag(false, true, Some(0u8), Some(ts.width_mm), Some(0u8)),
        0u8,
        ts.width_mm,
        0u8,
    ] + spec_le32(raster_count) + seq![0x02u8, 0x00u8] + seq![
        0x1Bu8,
        0x69u8,
        0x4Du8,
        spec_various_mode(!continuous, false),
    ] + seq![0x1Bu8, 0x69u8, 0x41u8, 0x01u8] + seq![
        0x1Bu8,
        0x69u8,
        0x4Bu8,
        spec_advanced_mode(false, true, !continuous, false, false, false),
    ] + seq![0x1Bu8, 0x69u8, 0x64u8] + spec_le16(14) + seq![0x4Du8, 0x02u8]
}

/// The raster-transfer records of a job: one per raster line, in column
/// order, each holding the line's compressed form.
pub open spec fn spec_transfers(lines: Seq<Seq<u8>>) -> Seq<u8>
    decreases lines.len(),
{
    if lines.len() == 0 {
        Seq::empty()
    } else {
        let c = spec_compress(lines[0]);
        seq![0x47u8] + spec_le16(c.len() as u16) + c + spec_transfers(lines.drop_first())
    }
}

/// The complete command stream of one job: the fixed prefix, the raster
/// transfers, and the terminal print command — with feeding unless the job
/// is continuous.
pub open spec fn spec_print_stream(
    ts: TapeSpec,
    lines: Seq<Seq<u8>>,
    continuous: bool,
) -> Seq<u8> {
    spec_job_prefix(ts, lines.len() as u32, continuous) + spec_transfers(lines) + seq![
        if continuous {
            0x0Cu8
        } else {
            0x1Au8
        },
    ]
}

/// The compressed form of a line is at most twice as long as the line:
/// a run record covers at least two bytes with two, and a literal record
/// adds one control byte for at least one raw byte.
pub proof fn lemma_compress_len(s: Seq<u8>)
    ensures
        spec_compress(s).len() <= 2 * s.len(),
    decreases s.len(),
{
    if s.len() > 0 {
        if crate::printable_image::starts_run(s, 0) {
            crate::printable_image::lemma_run_take_bounds(s);
            let l = crate::printable_image::spec_run_take(s) as int;
            lemma_compress_len(s.skip(l));
        } else {
            crate::printable_image::lemma_lit_take_bounds(s);
            let l = crate::printable_image::lit_prefix_len(s) as int;
            lemma_compress_len(s.skip(l));
        }
    }
}

/// Pre-flight check: a status record with any error bit set aborts the
/// job before any print data is transmitted.
pub fn preflight(status: &Status) -> (r: Result<(), PtouchError>)
    ensures
        r is Ok <==> !status.spec_has_errors(),
        r matches Err(e) ==> e matches PtouchError::PrinterReported { error_info1, error_info2 }
            && error_info1 == status@[8] && error_info2 == status@[9],
{
    if status.has_errors() {
        Err(
            PtouchError::PrinterReported {
                error_info1: status.error_info1(),
                error_info2: status.error_info2(),
            },
        )
    } else {
        Ok(())
    }
}

/// Cross-validates a bitmap against what the printer reports: the bitmap's
/// height must imply a supported tape at the printer's resolution, the
/// reported media width must be a supported tape too, and the two must be
/// the same width. Returns the printer's tape geometry.
pub fn validate_job_geometry(bitmap_height: u32, status: &Status) -> (r: Result<
    TapeSpec,
    PtouchError,
>)
    ensures
        r == match spec_tape_for_width_dots(bitmap_height, status.spec_printer_dpi()) {
            None => Err::<TapeSpec, PtouchError>(
                PtouchError::UnsupportedBitmapHeight {
                    bitmap_height,
                    dpi: status.spec_printer_dpi(),
                },
            ),
            Some(t1) => match spec_tape_for_width_mm(status@[10], status.spec_printer_dpi()) {
                None => Err::<TapeSpec, PtouchError>(
                    PtouchError::UnsupportedMediaWidth {
                        media_width_mm: status@[10],
                        dpi: status.spec_printer_dpi(),
                    },
                ),
                Some(t2) => if spec_tape_spec(t1).width_dots == spec_tape_spec(t2).width_dots {
                    Ok::<TapeSpec, PtouchError>(spec_tape_spec(t2))
                } else {
                    Err::<TapeSpec, PtouchError>(
                        PtouchError::GeometryMismatch {
                            bitmap_width_mm: spec_tape_spec(t1).width_mm,
                            bitmap_width_dots: spec_tape_spec(t1).width_dots,
                            printer_width_mm: spec_tape_spec(t2).width_mm,
                            printer_width_dots: spec_tape_spec(t2).width_dots,
                        },
                    )
                },
            },
        },
{
    let dpi = status.printer_dpi();
    let bitmap_spec = match TapeSpec::from_width_dots_and_dpi(bitmap_height, dpi) {
        Some(ts) => ts,
        None => {
            return Err(PtouchError::UnsupportedBitmapHeight { bitmap_height, dpi });
        },
    };
    let media_width = status.media_width_mm();
    let printer_spec = match TapeSpec::from_width_mm_and_dpi(media_width, dpi) {
        Some(ts) => ts,
        None => {
            return Err(PtouchError::UnsupportedMediaWidth { media_width_mm: media_width, dpi });
        },
    };
    if bitmap_spec.width_dots != printer_spec.width_dots {
        return Err(
            PtouchError::GeometryMismatch {
                bitmap_width_mm: bitmap_spec.width_mm,
                bitmap_width_dots: bitmap_spec.width_dots,
                printer_width_mm: printer_spec.width_mm,
                printer_width_dots: printer_spec.width_dots,
            },
        );
    }
    Ok(printer_spec)
}

/// Builds the complete command stream of one print job: exactly
/// `spec_print_stream` of the image's raster lines. Never fails.
pub fn build_print_commands(printable: &PrintableImage, continuous: bool) -> (r: Result<
    Vec<u8>,
    PtouchError,
>)
    requires
        printable.wf(),
    ensures
        r matches Ok(data) && data@ == spec_print_stream(
            printable.tape_spec,
            spec_raster_lines(printable.bitmap, printable.tape_spec),
            continuous,
        ),
{
    let raster_lines = match printable.to_raster_lines() {
        Ok(lines) => lines,
        Err(e) => {
            return Err(e);
        },
    };
    let raster_count: u32 = printable.bitmap.width;
    let tape_spec = printable.tape_spec();
    let ghost model_lines = spec_raster_lines(printable.bitmap, printable.tape_spec);

    let mut cmd = RasterCommand::new();
    cmd.invalidate();
    cmd.initialize();
    cmd.switch_dynamic_command_mode(CommandMode::Raster);
    cmd.print_information_command(
        false,
        true,
        Some(0),
        Some(tape_spec.width_mm),
        Some(0),
        raster_count,
        PageType::LastPage,
    );
    cmd.various_mode_settings(!continuous, false);
    cmd.specify_page_number(1);
    cmd.advanced_mode_settings(false, true, !continuous, false, false, false);
    let margin_result = cmd.specify_margin_amount(14);
    proof {
        assert(margin_result is Ok);
    }
    cmd.select_compression_mode(true);
    proof {
        assert(cmd@ =~= spec_job_prefix(printable.tape_spec, raster_count, continuous));
    }
    let ghost prefix = cmd@;
    proof {
        assert(model_lines.take(0) =~= Seq::<Seq<u8>>::empty());
        assert(model_lines.skip(0) =~= model_lines);
        assert(spec_transfers(model_lines.take(0)) =~= Seq::<u8>::empty());
        assert(cmd@ =~= prefix + spec_transfers(model_lines.take(0)));
    }

    let mut i: usize = 0;
    while i < raster_lines.len()
        invariant
            printable.wf(),
            model_lines == spec_raster_lines(printable.bitmap, printable.tape_spec),
            i <= raster_lines@.len(),
            raster_lines.deep_view() == model_lines,
            raster_lines@.len() == model_lines.len(),
            cmd@ == prefix + spec_transfers(model_lines.take(i as int)),
            spec_transfers(model_lines.take(i as int)) + spec_transfers(model_lines.skip(
                i as int,
            )) == spec_transfers(model_lines),
        decreases raster_lines@.len() - i,
    {
        let line = &raster_lines[i];
        proof {
            assert(raster_lines.deep_view()[i as int] == raster_lines@[i as int].deep_view());
            assert(line@ =~= raster_lines@[i as int].deep_view());
            assert(line@ == model_lines[i as int]);
            assert(line@.len() == printable.tape_spec.total_pins as nat / 8);
            lemma_compress_len(line@);
            assert(spec_compress(line@).len() <= 0xFFFF);
        }
        let compressed = match compress_tiff_group4(line.as_slice()) {
            Ok(c) => c,
            Err(e) => {
                return Err(e);
            },
        };
        cmd.raster_graphics_transfer(compressed.as_slice());
        proof {
            let t = model_lines.skip(i as int);
            assert(t[0] == model_lines[i as int]);
            assert(t.drop_first() =~= model_lines.skip(i + 1));
            assert(spec_transfers(t) == seq![0x47u8] + spec_le16(
                spec_compress(t[0]).len() as u16,
            ) + spec_compress(t[0]) + spec_transfers(model_lines.skip(i + 1)));
            lemma_transfers_snoc(model_lines, i as int);
            assert(cmd@ =~= prefix + spec_transfers(model_lines.take(i + 1)));
            assert(spec_transfers(model_lines.take(i + 1)) + spec_transfers(model_lines.skip(
                i + 1,
            )) =~= spec_transfers(model_lines));
        }
        i = i + 1;
    }
    if continuous {
        cmd.print_command();
    } else {
        cmd.print_command_with_feeding();
    }
    proof {
        assert(model_lines.take(model_lines.len() as int) =~= model_lines);
        assert(cmd@ =~= spec_print_stream(printable.tape_spec, model_lines, continuous));
    }
    Ok(cmd.build())
}

/// Splitting the transfer records after any column keeps them one
/// concatenation: the records of the first `i + 1` lines are those of the
/// first `i` followed by the record of line `i`.
proof fn lemma_transfers_snoc(lines: Seq<Seq<u8>>, i: int)
    requires
        0 <= i < lines.len(),
    ensures
        spec_transfers(lines.take(i + 1)) == spec_transfers(lines.take(i)) + (seq![0x47u8]
            + spec_le16(spec_compress(lines[i]).len() as u16) + spec_compress(lines[i])),
    decreases i,
{
    let t = lines.take(i + 1);
    if i == 0 {
        assert(t.drop_first() =~= lines.take(0));
        assert(t[0] == lines[0]);
        assert(spec_transfers(lines.take(0)) =~= Seq::<u8>::empty());
        assert(spec_transfers(t) =~= spec_transfers(lines.take(0)) + (seq![0x47u8] + spec_le16(
            spec_compress(lines[0]).len() as u16,
        ) + spec_compress(lines[0])));
    } else {
        lemma_transfers_snoc(lines.drop_first(), i - 1);
        assert(t[0] == lines[0]);
        assert(t.drop_first() =~= lines.drop_first().take(i));
        assert(lines.take(i).drop_first() =~= lines.drop_first().take(i - 1));
        assert(lines.drop_first()[i - 1] == lines[i]);
        assert(spec_transfers(lines.take(i)) == seq![0x47u8] + spec_le16(
            spec_compress(lines[0]).len() as u16,
        ) + spec_compress(lines[0]) + spec_transfers(lines.drop_first().take(i - 1)));
        assert(spec_transfers(t) =~= spec_transfers(lines.take(i)) + (seq![0x47u8] + spec_le16(
            spec_compress(lines[i]).len() as u16,
        ) + spec_compress(lines[i])));
    }
}

/// One printer connection and the per-job operations on it.
pub struct Printer<B: Backend> {
    backend: B,
}

impl<B: Backend> Printer<B> {
    /// Wraps a transport for one job.
    pub fn new(backend: B) -> Printer<B> {
        Printer { backend }
    }

    /// Fetches the printer's status through the transport.
    pub fn get_status(&mut self) -> Result<Status, PtouchError> {
        self.backend.get_status()
    }

    /// Prints one image: fetches the status and aborts if any error bit is
    /// set, else builds the full command stream and sends it as one write.
    /// What the stream holds is fixed by `build_print_commands`; what the
    /// transport and the printer make of it is theirs.
    pub fn print(&mut self, printable: &PrintableImage, continuous: bool) -> Result<
        (),
        PtouchError,
    >
        requires
            printable.wf(),
    {
        let status = match self.backend.get_status() {
            Ok(s) => s,
            Err(e) => {
                return Err(e);
            },
        };
        match preflight(&status) {
            Ok(()) => (),
            Err(e) => {
                return Err(e);
            },
        }
        let command_data = match build_print_commands(printable, continuous) {
            Ok(d) => d,
            Err(e) => {
                return Err(e);
            },
        };
        self.backend.send_command(command_data.as_slice())
    }
}

} // verus!
