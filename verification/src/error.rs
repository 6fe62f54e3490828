use vstd::prelude::*;

verus! {

/// Why a PCF buffer failed to decode. Every failure is terminal: the
/// caller gets either a fully decoded font or one of these, never a
/// partial result.
#[derive(Clone, Copy, Debug, PartialEq, Eq, Structural)]
pub enum PcfError {
    /// The magic word at the start of the buffer is wrong.
    InvalidHeader,
    /// A required sub-table is absent from the table directory.
    MissingTable,
    /// A sub-table's format word carries variant bits the decoder does
    /// not implement.
    UnsupportedFormat,
    /// The accelerators body is not encoded most-significant-byte first.
    UnsupportedEndianness,
    /// The bitmap table's rows are not padded to 32-bit words.
    UnsupportedPadding,
    /// The metrics table is not in the compressed form.
    UnsupportedMetricsForm,
    /// An offset or length runs past the end of the buffer.
    OutOfBounds,
    /// A glyph has a negative width or height.
    InvalidGeometry,
}

} // verus!
