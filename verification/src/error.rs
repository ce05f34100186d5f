//! The library's error type.

use vstd::prelude::*;
use vstd::string::StringExecFns;
use crate::strutil::spec_decimal;
use crate::strutil::decimal_string;

verus! {

/// Everything that can go wrong in this library or in the transports
/// built on top of it.
#[derive(Debug, Clone)]
pub enum PtouchError {
    /// The layout script was empty.
    EmptyLayoutScript,
    /// A token could not be consumed where the grammar demanded progress.
    /// `position` counts tokens from one; `token` is `None` at end of input.
    SyntaxError { position: usize, token: Option<String> },
    /// A bracketed group was not closed.
    ExpectedClosingBracket { position: usize, token: Option<String> },
    /// A column production matched no element.
    NoColumn { position: usize, token: Option<String> },
    /// A `gap:`/`box:` dimension did not parse. `has_separator` records
    /// whether the spec held an `x` between two fields.
    InvalidGapSpec { spec: String, has_separator: bool },
    /// `bar:` elements are recognised but not supported.
    BarcodeNotImplemented { content: String },
    /// `img:` elements are recognised but not supported.
    ImageNotImplemented { content: String },
    /// The `qrc:` payload cannot be encoded as a QR code.
    QrNotEncodable { content: String },
    /// The bitmap's pixel height does not equal the tape's full width in dots.
    HeightMismatch { bitmap_height: u32, width_mm: u8, width_dots: u32 },
    /// The pixel buffer is not grayscale, RGB or RGBA.
    UnsupportedColorType,
    /// A status payload was not exactly 32 bytes long.
    StatusLength { got: usize },
    /// A margin amount of zero dots is refused: the hardware corrupts label
    /// boundaries when printing with no margin.
    MarginZero,
    /// The device specifier is not `vendor_id:product_id` in hexadecimal.
    MalformedDeviceSpecifier,
    /// The printer's status record reports error conditions.
    PrinterReported { error_info1: u8, error_info2: u8 },
    /// The bitmap implies one tape but the printer reports another.
    GeometryMismatch {
        bitmap_width_mm: u8,
        bitmap_width_dots: u32,
        printer_width_mm: u8,
        printer_width_dots: u32,
    },
    /// No supported tape has this full width in dots at this resolution.
    UnsupportedBitmapHeight { bitmap_height: u32, dpi: u32 },
    /// No supported tape has this nominal width at this resolution.
    UnsupportedMediaWidth { media_width_mm: u8, dpi: u32 },
    /// A transport failed; the text comes from the transport itself.
    Transport { detail: String },
}

/// The rendering of a parse position: the one-based token position and the
/// token itself, or the end of the input.
pub open spec fn spec_position_info(position: usize, token: Option<String>) -> Seq<char> {
    match token {
        Some(t) => "Position "@ + spec_decimal(position as nat) + ", Token: "@ + t@,
        None => "End of input"@,
    }
}

impl PtouchError {
    /// The error's message text.
    pub open spec fn spec_message(self) -> Seq<char> {
        match self {
            PtouchError::EmptyLayoutScript => "Empty layout script"@,
            PtouchError::SyntaxError { position, token } => "Syntax error at "@
                + spec_position_info(position, token),
            PtouchError::ExpectedClosingBracket { position, token } => "Expected ']' at "@
                + spec_position_info(position, token),
            PtouchError::NoColumn { position, token } => "No COLUMN at "@ + spec_position_info(
                position,
                token,
            ),
            PtouchError::InvalidGapSpec { spec, has_separator } => if has_separator {
                "Invalid gap/box spec '"@ + spec@ + "'"@
            } else {
                "Invalid gap/box spec: "@ + spec@
            },
            PtouchError::BarcodeNotImplemented { content } => "Barcode not yet implemented: "@
                + content@,
            PtouchError::ImageNotImplemented { content } => "Image not yet implemented: "@
                + content@,
            PtouchError::QrNotEncodable { content } => "Cannot encode QR code data: "@ + content@,
            PtouchError::HeightMismatch { bitmap_height, width_mm, width_dots } =>
                "Bitmap height mismatch: bitmap height is "@ + spec_decimal(bitmap_height as nat)
                + " pixels, but "@ + spec_decimal(width_mm as nat) + " mm tape requires "@
                + spec_decimal(width_dots as nat) + " pixels"@,
            PtouchError::UnsupportedColorType => "Unsupported color type"@,
            PtouchError::StatusLength { got } => "Invalid status data length: expected 32 bytes, got "@
                + spec_decimal(got as nat),
            PtouchError::MarginZero => "Margin amount must not be zero"@,
            PtouchError::MalformedDeviceSpecifier =>
                "USB device specifier must be in format vendor_id:product_id"@,
            PtouchError::PrinterReported { .. } => "Printer reported errors"@,
            PtouchError::GeometryMismatch {
                bitmap_width_mm,
                bitmap_width_dots,
                printer_width_mm,
                printer_width_dots,
            } => "Tape specification mismatch: bitmap expects "@ + spec_decimal(
                bitmap_width_mm as nat,
            ) + "mm tape ("@ + spec_decimal(bitmap_width_dots as nat)
                + "px width), but printer has "@ + spec_decimal(printer_width_mm as nat)
                + "mm tape ("@ + spec_decimal(printer_width_dots as nat) + "px width)"@,
            PtouchError::UnsupportedBitmapHeight { bitmap_height, dpi } =>
                "Unsupported bitmap height: "@ + spec_decimal(bitmap_height as nat) + " pixels at "@
                + spec_decimal(dpi as nat) + "DPI"@,
            PtouchError::UnsupportedMediaWidth { media_width_mm, dpi } =>
                "Unsupported tape width: "@ + spec_decimal(media_width_mm as nat) + " mm at "@
                + spec_decimal(dpi as nat) + "DPI"@,
            PtouchError::Transport { detail } => detail@,
        }
    }

    /// Renders the error's message text.
    pub fn message(&self) -> (r: String)
        ensures
            r@ == self.spec_message(),
    {
        match self {
            PtouchError::EmptyLayoutScript => "Empty layout script".to_owned(),
            PtouchError::SyntaxError { position, token } => {
                let mut m = "Syntax error at ".to_owned();
                append_position_info(&mut m, *position, token);
                m
            },
            PtouchError::ExpectedClosingBracket { position, token } => {
                let mut m = "Expected ']' at ".to_owned();
                append_position_info(&mut m, *position, token);
                m
            },
            PtouchError::NoColumn { position, token } => {
                let mut m = "No COLUMN at ".to_owned();
                append_position_info(&mut m, *position, token);
                m
            },
            PtouchError::InvalidGapSpec { spec, has_separator } => {
                if *has_separator {
                    let mut m = "Invalid gap/box spec '".to_owned();
                    m.append(spec.as_str());
                    m.append("'");
                    m
                } else {
                    let mut m = "Invalid gap/box spec: ".to_owned();
                    m.append(spec.as_str());
                    m
                }
            },
            PtouchError::BarcodeNotImplemented { content } => {
                let mut m = "Barcode not yet implemented: ".to_owned();
                m.append(content.as_str());
                m
            },
            PtouchError::ImageNotImplemented { content } => {
                let mut m = "Image not yet implemented: ".to_owned();
                m.append(content.as_str());
                m
            },
            PtouchError::QrNotEncodable { content } => {
                let mut m = "Cannot encode QR code data: ".to_owned();
                m.append(content.as_str());
                m
            },
            PtouchError::HeightMismatch { bitmap_height, width_mm, width_dots } => {
                let mut m = "Bitmap height mismatch: bitmap height is ".to_owned();
                let d1 = decimal_string(*bitmap_height as u64);
                m.append(d1.as_str());
                m.append(" pixels, but ");
                let d2 = decimal_string(*width_mm as u64);
                m.append(d2.as_str());
                m.append(" mm tape requires ");
                let d3 = decimal_string(*width_dots as u64);
                m.append(d3.as_str());
                m.append(" pixels");
                m
            },
            PtouchError::UnsupportedColorType => "Unsupported color type".to_owned(),
            PtouchError::StatusLength { got } => {
                let mut m = "Invalid status data length: expected 32 bytes, got ".to_owned();
                let d = decimal_string(*got as u64);
                m.append(d.as_str());
                m
            },
            PtouchError::MarginZero => "Margin amount must not be zero".to_owned(),
            PtouchError::MalformedDeviceSpecifier =>
                "USB device specifier must be in format vendor_id:product_id".to_owned(),
            PtouchError::PrinterReported { .. } => "Printer reported errors".to_owned(),
            PtouchError::GeometryMismatch {
                bitmap_width_mm,
                bitmap_width_dots,
                printer_width_mm,
                printer_width_dots,
            } => {
                let mut m = "Tape specification mismatch: bitmap expects ".to_owned();
                let d1 = decimal_string(*bitmap_width_mm as u64);
                m.append(d1.as_str());
                m.append("mm tape (");
                let d2 = decimal_string(*bitmap_width_dots as u64);
                m.append(d2.as_str());
                m.append("px width), but printer has ");
                let d3 = decimal_string(*printer_width_mm as u64);
                m.append(d3.as_str());
                m.append("mm tape (");
                let d4 = decimal_string(*printer_width_dots as u64);
                m.append(d4.as_str());
                m.append("px width)");
                m
            },
            PtouchError::UnsupportedBitmapHeight { bitmap_height, dpi } => {
                let mut m = "Unsupported bitmap height: ".to_owned();
                let d1 = decimal_string(*bitmap_height as u64);
                m.append(d1.as_str());
                m.append(" pixels at ");
                let d2 = decimal_string(*dpi as u64);
                m.append(d2.as_str());
                m.append("DPI");
                m
            },
            PtouchError::UnsupportedMediaWidth { media_width_mm, dpi } => {
                let mut m = "Unsupported tape width: ".to_owned();
                let d1 = decimal_string(*media_width_mm as u64);
                m.append(d1.as_str());
                m.append(" mm at ");
                let d2 = decimal_string(*dpi as u64);
                m.append(d2.as_str());
                m.append("DPI");
                m
            },
            PtouchError::Transport { detail } => detail.clone(),
        }
    }
}

/// Appends the rendering of a parse position.
fn append_position_info(m: &mut String, position: usize, token: &Option<String>)
    ensures
        final(m)@ == old(m)@ + spec_position_info(position, *token),
{
    match token {
        Some(t) => {
            m.append("Position ");
            let d = decimal_string(position as u64);
            m.append(d.as_str());
            m.append(", Token: ");
            m.append(t.as_str());
        },
        None => {
            m.append("End of input");
        },
    }
}

} // verus!
