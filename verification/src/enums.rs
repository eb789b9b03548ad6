//! The enumerations of the wire format and their numeric and textual
//! conversion tables. The numeric encodings are stable and part of the format.

use vstd::prelude::*;
use crate::buf::str_eq;
use crate::errors::{DbzError, EnumKind};

verus! {

/// The tick family stored in an artifact; decides the record layout.
#[derive(Clone, Copy, Debug, PartialEq, Eq, Hash, Structural)]
pub enum Schema {
    /// Market by order.
    Mbo,
    /// Market by price with one book level.
    Mbp1,
    /// Market by price with ten book levels.
    Mbp10,
    /// Trades joined with the best bid and offer.
    Tbbo,
    /// Trades alone.
    Trades,
    /// One-second aggregates.
    Ohlcv1S,
    /// One-minute aggregates.
    Ohlcv1M,
    /// One-hour aggregates.
    Ohlcv1H,
    /// One-day aggregates.
    Ohlcv1D,
    /// Instrument definitions.
    Definition,
    /// Statistics.
    Statistics,
    /// Trading status.
    Status,
}

impl Schema {
    /// The stable wire value of each variant.
    pub open spec fn numeric(self) -> u16 {
        match self {
            Schema::Mbo => 0,
            Schema::Mbp1 => 1,
            Schema::Mbp10 => 2,
            Schema::Tbbo => 3,
            Schema::Trades => 4,
            Schema::Ohlcv1S => 5,
            Schema::Ohlcv1M => 6,
            Schema::Ohlcv1H => 7,
            Schema::Ohlcv1D => 8,
            Schema::Definition => 9,
            Schema::Statistics => 10,
            Schema::Status => 11,
        }
    }

    /// The variant a wire value names, if any.
    pub open spec fn from_numeric_spec(v: u16) -> Option<Schema> {
        if v == 0 {
            Some(Schema::Mbo)
        } else if v == 1 {
            Some(Schema::Mbp1)
        } else if v == 2 {
            Some(Schema::Mbp10)
        } else if v == 3 {
            Some(Schema::Tbbo)
        } else if v == 4 {
            Some(Schema::Trades)
        } else if v == 5 {
            Some(Schema::Ohlcv1S)
        } else if v == 6 {
            Some(Schema::Ohlcv1M)
        } else if v == 7 {
            Some(Schema::Ohlcv1H)
        } else if v == 8 {
            Some(Schema::Ohlcv1D)
        } else if v == 9 {
            Some(Schema::Definition)
        } else if v == 10 {
            Some(Schema::Statistics)
        } else if v == 11 {
            Some(Schema::Status)
        } else {
            None
        }
    }

    /// The short ASCII name of each variant.
    pub open spec fn text(self) -> Seq<char> {
        match self {
            Schema::Mbo => "mbo"@,
            Schema::Mbp1 => "mbp-1"@,
            Schema::Mbp10 => "mbp-10"@,
            Schema::Tbbo => "tbbo"@,
            Schema::Trades => "trades"@,
            Schema::Ohlcv1S => "ohlcv-1s"@,
            Schema::Ohlcv1M => "ohlcv-1m"@,
            Schema::Ohlcv1H => "ohlcv-1h"@,
            Schema::Ohlcv1D => "ohlcv-1d"@,
            Schema::Definition => "definition"@,
            Schema::Statistics => "statistics"@,
            Schema::Status => "status"@,
        }
    }

    /// The variant a name picks, if any.
    pub open spec fn from_text_spec(s: Seq<char>) -> Option<Schema> {
        if s == "mbo"@ {
            Some(Schema::Mbo)
        } else if s == "mbp-1"@ {
            Some(Schema::Mbp1)
        } else if s == "mbp-10"@ {
            Some(Schema::Mbp10)
        } else if s == "tbbo"@ {
            Some(Schema::Tbbo)
        } else if s == "trades"@ {
            Some(Schema::Trades)
        } else if s == "ohlcv-1s"@ {
            Some(Schema::Ohlcv1S)
        } else if s == "ohlcv-1m"@ {
            Some(Schema::Ohlcv1M)
        } else if s == "ohlcv-1h"@ {
            Some(Schema::Ohlcv1H)
        } else if s == "ohlcv-1d"@ {
            Some(Schema::Ohlcv1D)
        } else if s == "definition"@ {
            Some(Schema::Definition)
        } else if s == "statistics"@ {
            Some(Schema::Statistics)
        } else if s == "status"@ {
            Some(Schema::Status)
        } else {
            None
        }
    }

    pub fn to_numeric(self) -> (r: u16)
        ensures
            r == self.numeric(),
    {
        match self {
            Schema::Mbo => 0,
            Schema::Mbp1 => 1,
            Schema::Mbp10 => 2,
            Schema::Tbbo => 3,
            Schema::Trades => 4,
            Schema::Ohlcv1S => 5,
            Schema::Ohlcv1M => 6,
            Schema::Ohlcv1H => 7,
            Schema::Ohlcv1D => 8,
            Schema::Definition => 9,
            Schema::Statistics => 10,
            Schema::Status => 11,
        }
    }

    pub fn from_numeric(v: u16) -> (r: Result<Schema, DbzError>)
        ensures
            match Schema::from_numeric_spec(v) {
                Some(s) => r == Ok::<Schema, DbzError>(s),
                None => r == Err::<Schema, DbzError>(
                    DbzError::UnknownEnum { kind: EnumKind::Schema, value: v },
                ),
            },
    {
        if v == 0 {
            Ok(Schema::Mbo)
        } else if v == 1 {
            Ok(Schema::Mbp1)
        } else if v == 2 {
            Ok(Schema::Mbp10)
        } else if v == 3 {
            Ok(Schema::Tbbo)
        } else if v == 4 {
            Ok(Schema::Trades)
        } else if v == 5 {
            Ok(Schema::Ohlcv1S)
        } else if v == 6 {
            Ok(Schema::Ohlcv1M)
        } else if v == 7 {
            Ok(Schema::Ohlcv1H)
        } else if v == 8 {
            Ok(Schema::Ohlcv1D)
        } else if v == 9 {
            Ok(Schema::Definition)
        } else if v == 10 {
            Ok(Schema::Statistics)
        } else if v == 11 {
            Ok(Schema::Status)
        } else {
            Err(DbzError::UnknownEnum { kind: EnumKind::Schema, value: v })
        }
    }

    pub fn as_text(self) -> (r: &'static str)
        ensures
            r@ == self.text(),
    {
        match self {
            Schema::Mbo => "mbo",
            Schema::Mbp1 => "mbp-1",
            Schema::Mbp10 => "mbp-10",
            Schema::Tbbo => "tbbo",
            Schema::Trades => "trades",
            Schema::Ohlcv1S => "ohlcv-1s",
            Schema::Ohlcv1M => "ohlcv-1m",
            Schema::Ohlcv1H => "ohlcv-1h",
            Schema::Ohlcv1D => "ohlcv-1d",
            Schema::Definition => "definition",
            Schema::Statistics => "statistics",
            Schema::Status => "status",
        }
    }

    pub fn parse(s: &str) -> (r: Result<Schema, DbzError>)
        ensures
            match Schema::from_text_spec(s@) {
                Some(v) => r == Ok::<Schema, DbzError>(v),
                None => r == Err::<Schema, DbzError>(
                    DbzError::UnknownEnum { kind: EnumKind::Schema, value: 0 },
                ),
            },
    {
        if str_eq(s, "mbo") {
            Ok(Schema::Mbo)
        } else if str_eq(s, "mbp-1") {
            Ok(Schema::Mbp1)
        } else if str_eq(s, "mbp-10") {
            Ok(Schema::Mbp10)
        } else if str_eq(s, "tbbo") {
            Ok(Schema::Tbbo)
        } else if str_eq(s, "trades") {
            Ok(Schema::Trades)
        } else if str_eq(s, "ohlcv-1s") {
            Ok(Schema::Ohlcv1S)
        } else if str_eq(s, "ohlcv-1m") {
            Ok(Schema::Ohlcv1M)
        } else if str_eq(s, "ohlcv-1h") {
            Ok(Schema::Ohlcv1H)
        } else if str_eq(s, "ohlcv-1d") {
            Ok(Schema::Ohlcv1D)
        } else if str_eq(s, "definition") {
            Ok(Schema::Definition)
        } else if str_eq(s, "statistics") {
            Ok(Schema::Statistics)
        } else if str_eq(s, "status") {
            Ok(Schema::Status)
        } else {
            Err(DbzError::UnknownEnum { kind: EnumKind::Schema, value: 0 })
        }
    }
}

/// The symbology type a symbol is interpreted in.
#[derive(Clone, Copy, Debug, PartialEq, Eq, Hash, Structural)]
pub enum SType {
    /// A unique numeric product ID.
    ProductId,
    /// The symbols as the publisher provides them.
    Native,
    /// Symbologies for groups of symbols.
    Smart,
}

impl SType {
    /// The stable wire value of each variant.
    pub open spec fn numeric(self) -> u8 {
        match self {
            SType::ProductId => 0,
            SType::Native => 1,
            SType::Smart => 2,
        }
    }

    /// The variant a wire value names, if any.
    pub open spec fn from_numeric_spec(v: u8) -> Option<SType> {
        if v == 0 {
            Some(SType::ProductId)
        } else if v == 1 {
            Some(SType::Native)
        } else if v == 2 {
            Some(SType::Smart)
        } else {
            None
        }
    }

    /// The short ASCII name of each variant.
    pub open spec fn text(self) -> Seq<char> {
        match self {
            SType::ProductId => "product_id"@,
            SType::Native => "native"@,
            SType::Smart => "smart"@,
        }
    }

    /// The variant a name picks, if any.
    pub open spec fn from_text_spec(s: Seq<char>) -> Option<SType> {
        if s == "product_id"@ {
            Some(SType::ProductId)
        } else if s == "native"@ {
            Some(SType::Native)
        } else if s == "smart"@ {
            Some(SType::Smart)
        } else {
            None
        }
    }

    pub fn to_numeric(self) -> (r: u8)
        ensures
            r == self.numeric(),
    {
        match self {
            SType::ProductId => 0,
            SType::Native => 1,
            SType::Smart => 2,
        }
    }

    pub fn from_numeric(v: u8) -> (r: Result<SType, DbzError>)
        ensures
            match SType::from_numeric_spec(v) {
                Some(s) => r == Ok::<SType, DbzError>(s),
                None => r == Err::<SType, DbzError>(
                    DbzError::UnknownEnum { kind: EnumKind::SType, value: v as u16 },
                ),
            },
    {
        if v == 0 {
            Ok(SType::ProductId)
        } else if v == 1 {
            Ok(SType::Native)
        } else if v == 2 {
            Ok(SType::Smart)
        } else {
            Err(DbzError::UnknownEnum { kind: EnumKind::SType, value: v as u16 })
        }
    }

    pub fn as_text(self) -> (r: &'static str)
        ensures
            r@ == self.text(),
    {
        match self {
            SType::ProductId => "product_id",
            SType::Native => "native",
            SType::Smart => "smart",
        }
    }

    pub fn parse(s: &str) -> (r: Result<SType, DbzError>)
        ensures
            match SType::from_text_spec(s@) {
                Some(v) => r == Ok::<SType, DbzError>(v),
                None => r == Err::<SType, DbzError>(
                    DbzError::UnknownEnum { kind: EnumKind::SType, value: 0 },
                ),
            },
    {
        if str_eq(s, "product_id") {
            Ok(SType::ProductId)
        } else if str_eq(s, "native") {
            Ok(SType::Native)
        } else if str_eq(s, "smart") {
            Ok(SType::Smart)
        } else {
            Err(DbzError::UnknownEnum { kind: EnumKind::SType, value: 0 })
        }
    }
}

/// The compression mode recorded in the metadata.
#[derive(Clone, Copy, Debug, PartialEq, Eq, Hash, Structural)]
pub enum Compression {
    /// Uncompressed.
    Uncompressed,
    /// Zstandard compressed.
    ZStd,
}

impl Compression {
    /// The stable wire value of each variant.
    pub open spec fn numeric(self) -> u8 {
        match self {
            Compression::Uncompressed => 0,
            Compression::ZStd => 1,
        }
    }

    /// The variant a wire value names, if any.
    pub open spec fn from_numeric_spec(v: u8) -> Option<Compression> {
        if v == 0 {
            Some(Compression::Uncompressed)
        } else if v == 1 {
            Some(Compression::ZStd)
        } else {
            None
        }
    }

    /// The short ASCII name of each variant.
    pub open spec fn text(self) -> Seq<char> {
        match self {
            Compression::Uncompressed => "none"@,
            Compression::ZStd => "zstd"@,
        }
    }

    /// The variant a name picks, if any.
    pub open spec fn from_text_spec(s: Seq<char>) -> Option<Compression> {
        if s == "none"@ {
            Some(Compression::Uncompressed)
        } else if s == "zstd"@ {
            Some(Compression::ZStd)
        } else {
            None
        }
    }

    pub fn to_numeric(self) -> (r: u8)
        ensures
            r == self.numeric(),
    {
        match self {
            Compression::Uncompressed => 0,
            Compression::ZStd => 1,
        }
    }

    pub fn from_numeric(v: u8) -> (r: Result<Compression, DbzError>)
        ensures
            match Compression::from_numeric_spec(v) {
                Some(c) => r == Ok::<Compression, DbzError>(c),
                None => r == Err::<Compression, DbzError>(
                    DbzError::UnknownEnum { kind: EnumKind::Compression, value: v as u16 },
                ),
            },
    {
        if v == 0 {
            Ok(Compression::Uncompressed)
        } else if v == 1 {
            Ok(Compression::ZStd)
        } else {
            Err(DbzError::UnknownEnum { kind: EnumKind::Compression, value: v as u16 })
        }
    }

    pub fn as_text(self) -> (r: &'static str)
        ensures
            r@ == self.text(),
    {
        match self {
            Compression::Uncompressed => "none",
            Compression::ZStd => "zstd",
        }
    }

    pub fn parse(s: &str) -> (r: Result<Compression, DbzError>)
        ensures
            match Compression::from_text_spec(s@) {
                Some(v) => r == Ok::<Compression, DbzError>(v),
                None => r == Err::<Compression, DbzError>(
                    DbzError::UnknownEnum { kind: EnumKind::Compression, value: 0 },
                ),
            },
    {
        if str_eq(s, "none") {
            Ok(Compression::Uncompressed)
        } else if str_eq(s, "zstd") {
            Ok(Compression::ZStd)
        } else {
            Err(DbzError::UnknownEnum { kind: EnumKind::Compression, value: 0 })
        }
    }
}

/// Law: every schema survives the numeric round trip.
pub proof fn lemma_schema_numeric_round_trip(v: Schema)
    ensures
        Schema::from_numeric_spec(v.numeric()) == Some(v),
{
}

/// Law: every schema survives the textual round trip.
pub proof fn lemma_schema_text_round_trip(v: Schema)
    ensures
        Schema::from_text_spec(v.text()) == Some(v),
{
    broadcast use vstd::string::group_string_axioms;

    reveal_strlit("mbo");
    reveal_strlit("mbp-1");
    reveal_strlit("mbp-10");
    reveal_strlit("tbbo");
    reveal_strlit("trades");
    reveal_strlit("ohlcv-1s");
    reveal_strlit("ohlcv-1m");
    reveal_strlit("ohlcv-1h");
    reveal_strlit("ohlcv-1d");
    reveal_strlit("definition");
    reveal_strlit("statistics");
    reveal_strlit("status");
    assert("mbo"@.len() == 3);
    assert("mbp-1"@.len() == 5);
    assert("mbp-10"@.len() == 6);
    assert("tbbo"@.len() == 4);
    assert("trades"@.len() == 6);
    assert("ohlcv-1s"@.len() == 8);
    assert("ohlcv-1m"@.len() == 8);
    assert("ohlcv-1h"@.len() == 8);
    assert("ohlcv-1d"@.len() == 8);
    assert("definition"@.len() == 10);
    assert("statistics"@.len() == 10);
    assert("status"@.len() == 6);
    assert("mbo"@[0] == 'm');
    assert("mbp-10"@[0] == 'm');
    assert("tbbo"@[0] == 't');
    assert("trades"@[0] == 't');
    assert("status"@[0] == 's');
    assert("definition"@[0] == 'd');
    assert("statistics"@[0] == 's');
    assert("ohlcv-1s"@[7] == 's');
    assert("ohlcv-1m"@[7] == 'm');
    assert("ohlcv-1h"@[7] == 'h');
    assert("ohlcv-1d"@[7] == 'd');
}

/// Law: every symbology type survives the numeric round trip.
pub proof fn lemma_stype_numeric_round_trip(v: SType)
    ensures
        SType::from_numeric_spec(v.numeric()) == Some(v),
{
}

/// Law: every symbology type survives the textual round trip.
pub proof fn lemma_stype_text_round_trip(v: SType)
    ensures
        SType::from_text_spec(v.text()) == Some(v),
{
    broadcast use vstd::string::group_string_axioms;

    reveal_strlit("product_id");
    reveal_strlit("native");
    reveal_strlit("smart");
    assert("product_id"@.len() == 10);
    assert("native"@.len() == 6);
    assert("smart"@.len() == 5);
}

/// Law: every compression mode survives the numeric round trip.
pub proof fn lemma_compression_numeric_round_trip(v: Compression)
    ensures
        Compression::from_numeric_spec(v.numeric()) == Some(v),
{
}

/// Law: every compression mode survives the textual round trip.
pub proof fn lemma_compression_text_round_trip(v: Compression)
    ensures
        Compression::from_text_spec(v.text()) == Some(v),
{
    broadcast use vstd::string::group_string_axioms;

    reveal_strlit("none");
    reveal_strlit("zstd");
    assert("none"@[0] == 'n');
    assert("zstd"@[0] == 'z');
}

} // verus!

