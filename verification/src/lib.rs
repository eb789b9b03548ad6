//! Codec for the DBZ binary container format: a metadata prelude held in a
//! zstd skippable frame, followed by a zstd-compressed stream of fixed-size
//! market-data records.

pub mod buf;
pub mod cstr;
pub mod date;
pub mod enums;
pub mod errors;
pub mod metadata;
pub mod dbz;
pub mod record;

use vstd::prelude::*;

verus! {

/// The DBZ schema version this library reads and writes.
pub const SCHEMA_VERSION: u8 = 1;

} // verus!

