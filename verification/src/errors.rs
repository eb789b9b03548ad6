//! Error taxonomy for the DBZ codec. Every failure of metadata parsing,
//! record decoding or encoding is reported through [`DbzError`].

use vstd::prelude::*;

verus! {

/// The region of the metadata that a bounds check failed in.
#[derive(Clone, Copy, Debug, PartialEq, Eq, Structural)]
pub enum Section {
    /// The 8-byte prelude (magic number and frame size).
    Prelude,
    /// The metadata frame as a whole (shorter than the prelude announced).
    Frame,
    /// The fixed-size header region of the metadata payload.
    FixedHeader,
    /// The schema-definition length field and its body.
    SchemaDefinition,
    /// The repeated section of query symbols.
    Symbols,
    /// The repeated section of partially resolved symbols.
    Partial,
    /// The repeated section of unresolved symbols.
    NotFound,
    /// The repeated section of symbol mappings.
    Mappings,
}

/// Which enumeration a wire value failed to convert into.
#[derive(Clone, Copy, Debug, PartialEq, Eq, Structural)]
pub enum EnumKind {
    Schema,
    SType,
    Compression,
}

/// Which part of a packed date failed validation.
#[derive(Clone, Copy, Debug, PartialEq, Eq, Structural)]
pub enum DatePart {
    /// The month digits are outside 1..=12.
    Month,
    /// The year and day digits do not name a calendar day.
    Calendar,
}

/// A capability the artifact asks for that this codec does not offer.
#[derive(Clone, Copy, Debug, PartialEq, Eq, Structural)]
pub enum Feature {
    /// The payload does not begin with the expected version string.
    VersionString,
    /// A non-zero schema-definition length.
    SchemaDefinitions,
    /// A value that does not fit its fixed-width field, or a count or length
    /// that does not fit the format's counters.
    Oversize,
    /// A schema whose records this codec does not read or write.
    SchemaRecords,
}

/// The error kinds this codec returns.
#[derive(Clone, Copy, Debug, PartialEq, Eq, Structural)]
pub enum DbzError {
    /// The prelude magic is outside the zstd skippable-frame range.
    BadMagic { magic: u32 },
    /// A fixed or variable region runs past the metadata buffer. `index` is
    /// the element index for repeated sections, zero otherwise.
    TruncatedMetadata { section: Section, index: u32 },
    /// The artifact's version is newer than this codec understands.
    UnsupportedVersion { version: u8 },
    /// The artifact asks for a capability this codec does not offer.
    Unsupported { feature: Feature },
    /// An enum byte or word is not in the table.
    UnknownEnum { kind: EnumKind, value: u16 },
    /// A symbol field is not valid UTF-8 after stripping trailing NUL bytes.
    InvalidUtf8,
    /// A packed date failed month or calendar-day validation.
    InvalidDate { raw: u32, part: DatePart },
    /// A record header disagrees with the requested record variant.
    TypeMismatch { expected: u8, found: u8 },
    /// The underlying byte stream failed.
    Io,
}

impl DbzError {
    /// A short human-readable description of the error.
    pub fn describe(&self) -> &'static str {
        match self {
            DbzError::BadMagic { .. } => "Invalid metadata: no zstd magic number",
            DbzError::TruncatedMetadata { .. } => "Unexpected end of metadata buffer",
            DbzError::UnsupportedVersion { .. } => "Can't read newer version of DBZ",
            DbzError::Unsupported { feature: Feature::VersionString } => "Invalid version string",
            DbzError::Unsupported { feature: Feature::SchemaDefinitions } => {
                "This version of dbz can't parse schema definitions"
            },
            DbzError::Unsupported { feature: Feature::Oversize } => {
                "Value does not fit the fixed-width wire format"
            },
            DbzError::Unsupported { feature: Feature::SchemaRecords } => {
                "Unsupported schema type for DBZ record bodies"
            },
            DbzError::UnknownEnum { .. } => "Value is not in the enum table",
            DbzError::InvalidUtf8 => "Failed to decode bytes [not valid UTF-8]",
            DbzError::InvalidDate { part: DatePart::Month, .. } => {
                "Invalid month while parsing date"
            },
            DbzError::InvalidDate { part: DatePart::Calendar, .. } => {
                "Couldn't convert to a valid date: no such day in that month and year"
            },
            DbzError::TypeMismatch { .. } => "Record type mismatch",
            DbzError::Io => "Underlying stream failure",
        }
    }
}

} // verus!
