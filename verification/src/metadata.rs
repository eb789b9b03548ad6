//! The metadata codec: the artifact's header value, its exact byte layout,
//! and the verified encoder and decoder, with the round-trip, fixed-offset
//! and truncation laws.

use vstd::prelude::*;
use vstd::bytes::{spec_u16_to_le_bytes, spec_u32_to_le_bytes, spec_u64_to_le_bytes};
use crate::buf::{
    lemma_le_round_trip, push_u16_le, push_u32_le, push_u64_le, read_u16_at, read_u32_at,
    read_u64_at, spec_u16_at, spec_u32_at, spec_u64_at,
};
use crate::cstr::{
    cstr_fits, encode_cstr, lemma_cstr_round_trip, parse_cstr, push_cstr, read_cstr, wf_cstr,
    zero_bytes,
};
use crate::date::{decode_iso8601, encode_iso8601, spec_decode_iso8601, Date};
use crate::date::lemma_date_round_trip;
use crate::enums::{Compression, SType, Schema};
use crate::errors::{DbzError, Feature, Section};
use crate::SCHEMA_VERSION;

verus! {

/// The first prelude byte sequence of every artifact: the low end of the zstd
/// skippable-frame magic range.
pub const ZSTD_MAGIC: u32 = 0x184D2A50;

/// The width of the version field, the three version bytes plus the raw
/// version number.
pub const VERSION_CSTR_LEN: usize = 4;

/// The width of the dataset field.
pub const DATASET_CSTR_LEN: usize = 16;

/// The width of every symbol field.
pub const SYMBOL_CSTR_LEN: usize = 22;

/// The reserved space after the fixed fields.
pub const RESERVED_LEN: usize = 39;

/// The size of the fixed region of the metadata payload, before the
/// schema-definition length field.
pub const FIXED_METADATA_LEN: usize = 96;

/// The resolved symbol for a date range.
#[derive(Clone, Debug, PartialEq, Eq)]
pub struct MappingInterval {
    /// UTC start date of the interval.
    pub start_date: Date,
    /// UTC end date of the interval.
    pub end_date: Date,
    /// The resolved symbol for this interval.
    pub symbol: String,
}

/// A native symbol and its mappings for date ranges within the query range.
#[derive(Clone, Debug, PartialEq, Eq)]
pub struct SymbolMapping {
    /// The native symbol.
    pub native: String,
    /// The mappings of `native` for different date ranges.
    pub intervals: Vec<MappingInterval>,
}

/// Information about the data held in a DBZ artifact.
#[derive(Clone, Debug, PartialEq, Eq)]
pub struct Metadata {
    /// The DBZ schema version number.
    pub version: u8,
    /// The dataset name.
    pub dataset: String,
    /// The data record schema held in the body.
    pub schema: Schema,
    /// The UNIX nanosecond timestamp of the query start.
    pub start: u64,
    /// The UNIX nanosecond timestamp of the query end.
    pub end: u64,
    /// The maximum number of records for the query; zero means unset.
    pub limit: u64,
    /// The advisory count of records in the body.
    pub record_count: u64,
    /// The data output compression mode.
    pub compression: Compression,
    /// The input symbology type.
    pub stype_in: SType,
    /// The output symbology type.
    pub stype_out: SType,
    /// The original query symbols.
    pub symbols: Vec<String>,
    /// Symbols that did not resolve for at least one day in the range.
    pub partial: Vec<String>,
    /// Symbols that did not resolve for any day in the range.
    pub not_found: Vec<String>,
    /// Symbol mappings, one per native symbol.
    pub mappings: Vec<SymbolMapping>,
}

/// The mathematical value of a mapping interval.
pub ghost struct IntervalV {
    pub start_date: Date,
    pub end_date: Date,
    pub symbol: Seq<char>,
}

/// The mathematical value of a symbol mapping.
pub ghost struct MappingV {
    pub native: Seq<char>,
    pub intervals: Seq<IntervalV>,
}

/// The mathematical value of a metadata header.
pub ghost struct MetaV {
    pub version: u8,
    pub dataset: Seq<char>,
    pub schema: Schema,
    pub start: u64,
    pub end: u64,
    pub limit: u64,
    pub record_count: u64,
    pub compression: Compression,
    pub stype_in: SType,
    pub stype_out: SType,
    pub symbols: Seq<Seq<char>>,
    pub partial: Seq<Seq<char>>,
    pub not_found: Seq<Seq<char>>,
    pub mappings: Seq<MappingV>,
}

impl View for MappingInterval {
    type V = IntervalV;

    open spec fn view(&self) -> IntervalV {
        IntervalV { start_date: self.start_date, end_date: self.end_date, symbol: self.symbol@ }
    }
}

impl View for SymbolMapping {
    type V = MappingV;

    open spec fn view(&self) -> MappingV {
        MappingV {
            native: self.native@,
            intervals: self.intervals@.map_values(|iv: MappingInterval| iv@),
        }
    }
}

impl View for Metadata {
    type V = MetaV;

    open spec fn view(&self) -> MetaV {
        MetaV {
            version: self.version,
            dataset: self.dataset@,
            schema: self.schema,
            start: self.start,
            end: self.end,
            limit: self.limit,
            record_count: self.record_count,
            compression: self.compression,
            stype_in: self.stype_in,
            stype_out: self.stype_out,
            symbols: self.symbols@.map_values(|s: String| s@),
            partial: self.partial@.map_values(|s: String| s@),
            not_found: self.not_found@.map_values(|s: String| s@),
            mappings: self.mappings@.map_values(|m: SymbolMapping| m@),
        }
    }
}

/// An interval the wire format can carry: valid dates and a symbol that fits
/// its field.
pub open spec fn wf_interval(iv: IntervalV) -> bool {
    &&& iv.start_date.is_valid()
    &&& iv.end_date.is_valid()
    &&& wf_cstr(iv.symbol, SYMBOL_CSTR_LEN as int)
}

/// A mapping the wire format can carry.
pub open spec fn wf_mapping(mp: MappingV) -> bool {
    &&& wf_cstr(mp.native, SYMBOL_CSTR_LEN as int)
    &&& mp.intervals.len() <= u32::MAX
    &&& forall|i: int| 0 <= i < mp.intervals.len() ==> wf_interval(#[trigger] mp.intervals[i])
}

/// A symbol list one repeated section can carry.
pub open spec fn wf_syms(v: Seq<Seq<char>>) -> bool {
    &&& v.len() <= u32::MAX
    &&& forall|i: int| 0 <= i < v.len() ==> wf_cstr(#[trigger] v[i], SYMBOL_CSTR_LEN as int)
}

/// A mapping list the mappings section can carry.
pub open spec fn wf_mappings(v: Seq<MappingV>) -> bool {
    &&& v.len() <= u32::MAX
    &&& forall|i: int| 0 <= i < v.len() ==> wf_mapping(#[trigger] v[i])
}

/// A metadata value the wire format can carry and give back unchanged,
/// except for the bound on the total payload size.
pub open spec fn wf_meta_fields(m: MetaV) -> bool {
    &&& m.version <= SCHEMA_VERSION
    &&& wf_cstr(m.dataset, DATASET_CSTR_LEN as int)
    &&& wf_syms(m.symbols)
    &&& wf_syms(m.partial)
    &&& wf_syms(m.not_found)
    &&& wf_mappings(m.mappings)
}

/// A metadata value the encoder is owed to encode: well-formed fields and a
/// payload that fits the frame-size field.
pub open spec fn wf_meta(m: MetaV) -> bool {
    &&& wf_meta_fields(m)
    &&& spec_encode_payload(m).len() <= u32::MAX
}

// The encoded byte layout, leaves first.
/// The fixed region: version bytes, dataset, schema, the four 64-bit fields,
/// the three mode bytes, the reserved space and a zero schema-definition
/// length.
pub open spec fn spec_encode_fixed(m: MetaV) -> Seq<u8> {
    seq![0x44u8, 0x42u8, 0x5Au8, m.version] + encode_cstr(m.dataset, DATASET_CSTR_LEN as int)
        + spec_u16_to_le_bytes(m.schema.numeric()) + spec_u64_to_le_bytes(m.start)
        + spec_u64_to_le_bytes(m.end) + spec_u64_to_le_bytes(m.limit) + spec_u64_to_le_bytes(
        m.record_count,
    ) + seq![m.compression.numeric(), m.stype_in.numeric(), m.stype_out.numeric()] + zero_bytes(
        RESERVED_LEN as int,
    ) + spec_u32_to_le_bytes(0)
}

pub open spec fn spec_encode_syms(ss: Seq<Seq<char>>) -> Seq<u8>
    decreases ss.len(),
{
    if ss.len() == 0 {
        Seq::empty()
    } else {
        encode_cstr(ss.first(), SYMBOL_CSTR_LEN as int) + spec_encode_syms(ss.drop_first())
    }
}

/// A repeated symbol section: the count, then the symbols' fields.
pub open spec fn spec_encode_sym_section(ss: Seq<Seq<char>>) -> Seq<u8> {
    spec_u32_to_le_bytes(ss.len() as u32) + spec_encode_syms(ss)
}

/// One mapping interval: both packed dates, then the symbol's field.
pub open spec fn spec_encode_interval(iv: IntervalV) -> Seq<u8> {
    spec_u32_to_le_bytes(iv.start_date.packed()) + spec_u32_to_le_bytes(iv.end_date.packed())
        + encode_cstr(iv.symbol, SYMBOL_CSTR_LEN as int)
}

pub open spec fn spec_encode_intervals(ivs: Seq<IntervalV>) -> Seq<u8>
    decreases ivs.len(),
{
    if ivs.len() == 0 {
        Seq::empty()
    } else {
        spec_encode_interval(ivs.first()) + spec_encode_intervals(ivs.drop_first())
    }
}

/// One symbol mapping: the native symbol's field, the interval count, then
/// the intervals.
pub open spec fn spec_encode_mapping(mp: MappingV) -> Seq<u8> {
    encode_cstr(mp.native, SYMBOL_CSTR_LEN as int) + spec_u32_to_le_bytes(mp.intervals.len() as u32)
        + spec_encode_intervals(mp.intervals)
}

pub open spec fn spec_encode_mappings(ms: Seq<MappingV>) -> Seq<u8>
    decreases ms.len(),
{
    if ms.len() == 0 {
        Seq::empty()
    } else {
        spec_encode_mapping(ms.first()) + spec_encode_mappings(ms.drop_first())
    }
}

/// The mappings section: the count, then the mappings.
pub open spec fn spec_encode_mappings_section(ms: Seq<MappingV>) -> Seq<u8> {
    spec_u32_to_le_bytes(ms.len() as u32) + spec_encode_mappings(ms)
}

/// The whole metadata payload: the fixed region, the three symbol sections
/// and the mappings section, in order.
pub open spec fn spec_encode_payload(m: MetaV) -> Seq<u8> {
    spec_encode_fixed(m) + spec_encode_sym_section(m.symbols) + spec_encode_sym_section(m.partial)
        + spec_encode_sym_section(m.not_found) + spec_encode_mappings_section(m.mappings)
}

/// The whole artifact header: the prelude (magic and frame size), then the
/// payload.
pub open spec fn spec_encode_full(m: MetaV) -> Seq<u8> {
    spec_u32_to_le_bytes(ZSTD_MAGIC) + spec_u32_to_le_bytes(spec_encode_payload(m).len() as u32)
        + spec_encode_payload(m)
}

proof fn lemma_encode_syms_snoc(ss: Seq<Seq<char>>, x: Seq<char>)
    ensures
        spec_encode_syms(ss.push(x)) == spec_encode_syms(ss) + encode_cstr(
            x,
            SYMBOL_CSTR_LEN as int,
        ),
    decreases ss.len(),
{
    let w = SYMBOL_CSTR_LEN as int;
    if ss.len() == 0 {
        assert(ss.push(x).first() == x);
        assert(ss.push(x).drop_first() =~= Seq::<Seq<char>>::empty());
        assert(spec_encode_syms(ss.push(x)) == encode_cstr(x, w) + spec_encode_syms(
            Seq::<Seq<char>>::empty(),
        ));
        assert(spec_encode_syms(ss) == Seq::<u8>::empty());
        assert(encode_cstr(x, w) + Seq::<u8>::empty() =~= Seq::<u8>::empty() + encode_cstr(x, w));
    } else {
        assert(ss.push(x).first() == ss.first());
        assert(ss.push(x).drop_first() =~= ss.drop_first().push(x));
        lemma_encode_syms_snoc(ss.drop_first(), x);
        assert(spec_encode_syms(ss.push(x)) == encode_cstr(ss.first(), w) + (spec_encode_syms(
            ss.drop_first(),
        ) + encode_cstr(x, w)));
        assert(spec_encode_syms(ss) == encode_cstr(ss.first(), w) + spec_encode_syms(
            ss.drop_first(),
        ));
        assert(encode_cstr(ss.first(), w) + (spec_encode_syms(ss.drop_first()) + encode_cstr(x, w))
            =~= (encode_cstr(ss.first(), w) + spec_encode_syms(ss.drop_first())) + encode_cstr(
            x,
            w,
        ));
    }
}

proof fn lemma_encode_intervals_snoc(ivs: Seq<IntervalV>, x: IntervalV)
    ensures
        spec_encode_intervals(ivs.push(x)) == spec_encode_intervals(ivs) + spec_encode_interval(x),
    decreases ivs.len(),
{
    if ivs.len() == 0 {
        assert(ivs.push(x).first() == x);
        assert(ivs.push(x).drop_first() =~= Seq::<IntervalV>::empty());
        assert(spec_encode_intervals(ivs.push(x)) == spec_encode_interval(x)
            + spec_encode_intervals(Seq::<IntervalV>::empty()));
        assert(spec_encode_intervals(ivs) == Seq::<u8>::empty());
        assert(spec_encode_interval(x) + Seq::<u8>::empty() =~= Seq::<u8>::empty()
            + spec_encode_interval(x));
    } else {
        assert(ivs.push(x).first() == ivs.first());
        assert(ivs.push(x).drop_first() =~= ivs.drop_first().push(x));
        lemma_encode_intervals_snoc(ivs.drop_first(), x);
        assert(spec_encode_intervals(ivs.push(x)) == spec_encode_interval(ivs.first()) + (
        spec_encode_intervals(ivs.drop_first()) + spec_encode_interval(x)));
        assert(spec_encode_intervals(ivs) == spec_encode_interval(ivs.first())
            + spec_encode_intervals(ivs.drop_first()));
        assert(spec_encode_interval(ivs.first()) + (spec_encode_intervals(ivs.drop_first())
            + spec_encode_interval(x)) =~= (spec_encode_interval(ivs.first())
            + spec_encode_intervals(ivs.drop_first())) + spec_encode_interval(x));
    }
}

proof fn lemma_encode_mappings_snoc(ms: Seq<MappingV>, x: MappingV)
    ensures
        spec_encode_mappings(ms.push(x)) == spec_encode_mappings(ms) + spec_encode_mapping(x),
    decreases ms.len(),
{
    if ms.len() == 0 {
        assert(ms.push(x).first() == x);
        assert(ms.push(x).drop_first() =~= Seq::<MappingV>::empty());
        assert(spec_encode_mappings(ms.push(x)) == spec_encode_mapping(x) + spec_encode_mappings(
            Seq::<MappingV>::empty(),
        ));
        assert(spec_encode_mappings(ms) == Seq::<u8>::empty());
        assert(spec_encode_mapping(x) + Seq::<u8>::empty() =~= Seq::<u8>::empty()
            + spec_encode_mapping(x));
    } else {
        assert(ms.push(x).first() == ms.first());
        assert(ms.push(x).drop_first() =~= ms.drop_first().push(x));
        lemma_encode_mappings_snoc(ms.drop_first(), x);
        assert(spec_encode_mappings(ms.push(x)) == spec_encode_mapping(ms.first()) + (
        spec_encode_mappings(ms.drop_first()) + spec_encode_mapping(x)));
        assert(spec_encode_mappings(ms) == spec_encode_mapping(ms.first()) + spec_encode_mappings(
            ms.drop_first(),
        ));
        assert(spec_encode_mapping(ms.first()) + (spec_encode_mappings(ms.drop_first())
            + spec_encode_mapping(x)) =~= (spec_encode_mapping(ms.first()) + spec_encode_mappings(
            ms.drop_first(),
        )) + spec_encode_mapping(x));
    }
}

/// Append one repeated symbol section to `out`.
fn push_sym_section(out: &mut Vec<u8>, syms: &Vec<String>)
    requires
        wf_syms(syms@.map_values(|s: String| s@)),
    ensures
        final(out)@ == old(out)@ + spec_encode_sym_section(syms@.map_values(|s: String| s@)),
{
    let ghost view = syms@.map_values(|s: String| s@);
    push_u32_le(out, syms.len() as u32);
    let n = syms.len();
    let mut i: usize = 0;
    while i < n
        invariant
            n == syms@.len(),
            view == syms@.map_values(|s: String| s@),
            wf_syms(view),
            0 <= i <= n,
            out@ == old(out)@ + spec_u32_to_le_bytes(n as u32) + spec_encode_syms(
                view.take(i as int),
            ),
        decreases n - i,
    {
        proof {
            assert(view[i as int] == syms@[i as int]@);
        }
        push_cstr(out, syms[i].as_str(), SYMBOL_CSTR_LEN);
        proof {
            assert(view.take(i + 1) =~= view.take(i as int).push(view[i as int]));
            lemma_encode_syms_snoc(view.take(i as int), view[i as int]);
            assert(out@ =~= old(out)@ + spec_u32_to_le_bytes(n as u32) + spec_encode_syms(
                view.take(i + 1),
            ));
        }
        i += 1;
    }
    proof {
        assert(view.take(n as int) =~= view);
        assert(out@ =~= old(out)@ + spec_encode_sym_section(view));
    }
}

/// Append the mappings section to `out`.
fn push_mappings_section(out: &mut Vec<u8>, mappings: &Vec<SymbolMapping>)
    requires
        wf_mappings(mappings@.map_values(|m: SymbolMapping| m@)),
    ensures
        final(out)@ == old(out)@ + spec_encode_mappings_section(
            mappings@.map_values(|m: SymbolMapping| m@),
        ),
{
    let ghost view = mappings@.map_values(|m: SymbolMapping| m@);
    push_u32_le(out, mappings.len() as u32);
    let n = mappings.len();
    let mut i: usize = 0;
    while i < n
        invariant
            n == mappings@.len(),
            view == mappings@.map_values(|m: SymbolMapping| m@),
            wf_mappings(view),
            0 <= i <= n,
            out@ == old(out)@ + spec_u32_to_le_bytes(n as u32) + spec_encode_mappings(
                view.take(i as int),
            ),
        decreases n - i,
    {
        proof {
            assert(view[i as int] == mappings@[i as int]@);
        }
        push_mapping(out, &mappings[i]);
        proof {
            assert(view.take(i + 1) =~= view.take(i as int).push(view[i as int]));
            lemma_encode_mappings_snoc(view.take(i as int), view[i as int]);
            assert(out@ =~= old(out)@ + spec_u32_to_le_bytes(n as u32) + spec_encode_mappings(
                view.take(i + 1),
            ));
        }
        i += 1;
    }
    proof {
        assert(view.take(n as int) =~= view);
        assert(out@ =~= old(out)@ + spec_encode_mappings_section(view));
    }
}

/// Append one symbol mapping to `out`.
fn push_mapping(out: &mut Vec<u8>, mp: &SymbolMapping)
    requires
        wf_mapping(mp@),
    ensures
        final(out)@ == old(out)@ + spec_encode_mapping(mp@),
{
    let ghost view = mp@.intervals;
    push_cstr(out, mp.native.as_str(), SYMBOL_CSTR_LEN);
    push_u32_le(out, mp.intervals.len() as u32);
    let n = mp.intervals.len();
    let mut i: usize = 0;
    while i < n
        invariant
            n == mp.intervals@.len(),
            view == mp@.intervals,
            view == mp.intervals@.map_values(|iv: MappingInterval| iv@),
            wf_mapping(mp@),
            0 <= i <= n,
            out@ == old(out)@ + encode_cstr(mp.native@, SYMBOL_CSTR_LEN as int)
                + spec_u32_to_le_bytes(n as u32) + spec_encode_intervals(view.take(i as int)),
        decreases n - i,
    {
        let iv = &mp.intervals[i];
        proof {
            assert(view[i as int] == mp.intervals@[i as int]@);
            assert(wf_interval(iv@));
        }
        push_u32_le(out, encode_iso8601(iv.start_date));
        push_u32_le(out, encode_iso8601(iv.end_date));
        push_cstr(out, iv.symbol.as_str(), SYMBOL_CSTR_LEN);
        proof {
            assert(view.take(i + 1) =~= view.take(i as int).push(view[i as int]));
            lemma_encode_intervals_snoc(view.take(i as int), view[i as int]);
            assert(out@ =~= old(out)@ + encode_cstr(mp.native@, SYMBOL_CSTR_LEN as int)
                + spec_u32_to_le_bytes(n as u32) + spec_encode_intervals(view.take(i + 1)));
        }
        i += 1;
    }
    proof {
        assert(view.take(n as int) =~= view);
        assert(out@ =~= old(out)@ + spec_encode_mapping(mp@));
    }
}

impl Metadata {
    /// True when the encoder is owed success on this value, except for the
    /// bound on the total payload size, which is checked after encoding.
    fn encodable_fields(&self) -> (r: bool)
        ensures
            r == wf_meta_fields(self@),
    {
        if self.version > SCHEMA_VERSION {
            return false;
        }
        if !cstr_fits(self.dataset.as_str(), DATASET_CSTR_LEN) {
            return false;
        }
        if !syms_fit(&self.symbols) || !syms_fit(&self.partial) || !syms_fit(&self.not_found) {
            return false;
        }
        if self.mappings.len() as u64 > u32::MAX as u64 {
            return false;
        }
        let ghost mview = self.mappings@.map_values(|m: SymbolMapping| m@);
        let n = self.mappings.len();
        let mut i: usize = 0;
        while i < n
            invariant
                n == self.mappings@.len(),
                mview == self.mappings@.map_values(|m: SymbolMapping| m@),
                0 <= i <= n,
                forall|k: int| 0 <= k < i ==> wf_mapping(#[trigger] mview[k]),
            decreases n - i,
        {
            if !mapping_fits(&self.mappings[i]) {
                proof {
                    assert(mview[i as int] == self.mappings@[i as int]@);
                }
                return false;
            }
            proof {
                assert(mview[i as int] == self.mappings@[i as int]@);
            }
            i += 1;
        }
        proof {
            assert(wf_mappings(mview));
        }
        true
    }

    /// Encode this value into the exact artifact-header byte layout: the
    /// prelude, then the payload. Fails exactly when the value is not
    /// well formed for the wire format.
    pub fn encode(&self) -> (r: Result<Vec<u8>, DbzError>)
        ensures
            wf_meta(self@) ==> r is Ok && r->Ok_0@ == spec_encode_full(self@),
            !wf_meta(self@) ==> r is Err,
    {
        if !self.encodable_fields() {
            return Err(DbzError::Unsupported { feature: Feature::Oversize });
        }
        let mut payload: Vec<u8> = Vec::new();
        payload.push(0x44u8);
        payload.push(0x42u8);
        payload.push(0x5Au8);
        payload.push(self.version);
        push_cstr(&mut payload, self.dataset.as_str(), DATASET_CSTR_LEN);
        push_u16_le(&mut payload, self.schema.to_numeric());
        push_u64_le(&mut payload, self.start);
        push_u64_le(&mut payload, self.end);
        push_u64_le(&mut payload, self.limit);
        push_u64_le(&mut payload, self.record_count);
        payload.push(self.compression.to_numeric());
        payload.push(self.stype_in.to_numeric());
        payload.push(self.stype_out.to_numeric());
        let ghost before_reserved = payload@;
        let mut k: usize = 0;
        while k < RESERVED_LEN
            invariant
                0 <= k <= RESERVED_LEN,
                payload@ == before_reserved + zero_bytes(k as int),
            decreases RESERVED_LEN - k,
        {
            payload.push(0u8);
            k += 1;
            proof {
                assert(payload@ =~= before_reserved + zero_bytes(k as int));
            }
        }
        push_u32_le(&mut payload, 0);
        proof {
            assert(payload@ =~= spec_encode_fixed(self@));
        }
        push_sym_section(&mut payload, &self.symbols);
        push_sym_section(&mut payload, &self.partial);
        push_sym_section(&mut payload, &self.not_found);
        push_mappings_section(&mut payload, &self.mappings);
        proof {
            assert(payload@ =~= spec_encode_payload(self@));
        }
        if payload.len() as u64 > u32::MAX as u64 {
            return Err(DbzError::Unsupported { feature: Feature::Oversize });
        }
        let mut out: Vec<u8> = Vec::new();
        push_u32_le(&mut out, ZSTD_MAGIC);
        push_u32_le(&mut out, payload.len() as u32);
        let pn = payload.len();
        let mut j: usize = 0;
        while j < pn
            invariant
                pn == payload@.len(),
                0 <= j <= pn,
                out@ == spec_u32_to_le_bytes(ZSTD_MAGIC) + spec_u32_to_le_bytes(pn as u32)
                    + payload@.subrange(0, j as int),
            decreases pn - j,
        {
            out.push(payload[j]);
            j += 1;
            proof {
                assert(out@ =~= spec_u32_to_le_bytes(ZSTD_MAGIC) + spec_u32_to_le_bytes(pn as u32)
                    + payload@.subrange(0, j as int));
            }
        }
        proof {
            assert(payload@.subrange(0, pn as int) =~= payload@);
            assert(out@ =~= spec_encode_full(self@));
        }
        Ok(out)
    }
}

/// True when every symbol of the list fits its field and the count fits the
/// section's counter.
fn syms_fit(syms: &Vec<String>) -> (r: bool)
    ensures
        r == wf_syms(syms@.map_values(|s: String| s@)),
{
    let ghost view = syms@.map_values(|s: String| s@);
    if syms.len() as u64 > u32::MAX as u64 {
        return false;
    }
    let n = syms.len();
    let mut i: usize = 0;
    while i < n
        invariant
            n == syms@.len(),
            view == syms@.map_values(|s: String| s@),
            0 <= i <= n,
            forall|k: int| 0 <= k < i ==> wf_cstr(#[trigger] view[k], SYMBOL_CSTR_LEN as int),
        decreases n - i,
    {
        if !cstr_fits(syms[i].as_str(), SYMBOL_CSTR_LEN) {
            proof {
                assert(view[i as int] == syms@[i as int]@);
            }
            return false;
        }
        proof {
            assert(view[i as int] == syms@[i as int]@);
        }
        i += 1;
    }
    proof {
        assert(wf_syms(view));
    }
    true
}

/// True when the mapping's native symbol, interval count, dates and interval
/// symbols all fit the wire format.
fn mapping_fits(mp: &SymbolMapping) -> (r: bool)
    ensures
        r == wf_mapping(mp@),
{
    if !cstr_fits(mp.native.as_str(), SYMBOL_CSTR_LEN) {
        return false;
    }
    if mp.intervals.len() as u64 > u32::MAX as u64 {
        return false;
    }
    let n = mp.intervals.len();
    let mut i: usize = 0;
    while i < n
        invariant
            n == mp.intervals@.len(),
            0 <= i <= n,
            forall|k: int| 0 <= k < i ==> wf_interval(#[trigger] mp.intervals@[k]@),
        decreases n - i,
    {
        let iv = &mp.intervals[i];
        if !date_valid(iv.start_date) || !date_valid(iv.end_date) || !cstr_fits(
            iv.symbol.as_str(),
            SYMBOL_CSTR_LEN,
        ) {
            proof {
                assert(mp.intervals@.map_values(|iv: MappingInterval| iv@)[i as int]
                    == mp.intervals@[i as int]@);
            }
            return false;
        }
        proof {
            assert(mp.intervals@.map_values(|iv: MappingInterval| iv@)[i as int]
                == mp.intervals@[i as int]@);
        }
        i += 1;
    }
    true
}

/// True when the date names a real calendar day the packed form can carry.
fn date_valid(d: Date) -> (r: bool)
    ensures
        r == d.is_valid(),
{
    d.year <= 9999 && 1 <= d.month && d.month <= 12 && 1 <= d.day && d.day
        <= crate::date::days_in_month(d.year, d.month)
}

// The parse functions: what decoding returns on every byte sequence,
// including which error comes on which malformed input.
pub open spec fn spec_parse_syms(b: Seq<u8>, pos: int, count: int) -> Result<
    (Seq<Seq<char>>, int),
    DbzError,
>
    decreases count,
{
    if count <= 0 {
        Ok((Seq::empty(), pos))
    } else {
        match parse_cstr(b.subrange(pos, pos + SYMBOL_CSTR_LEN as int)) {
            Ok(sym) => match spec_parse_syms(b, pos + SYMBOL_CSTR_LEN as int, count - 1) {
                Ok((rest, end)) => Ok((seq![sym] + rest, end)),
                Err(e) => Err(e),
            },
            Err(e) => Err(e),
        }
    }
}

/// One repeated symbol section: the count, a bound check for the whole
/// section, then the symbols.
pub open spec fn spec_parse_sym_section(b: Seq<u8>, pos: int, section: Section) -> Result<
    (Seq<Seq<char>>, int),
    DbzError,
> {
    if pos + 4 > b.len() {
        Err(DbzError::TruncatedMetadata { section, index: 0 })
    } else {
        let count = spec_u32_at(b, pos) as int;
        if pos + 4 + count * SYMBOL_CSTR_LEN > b.len() {
            Err(DbzError::TruncatedMetadata { section, index: 0 })
        } else {
            spec_parse_syms(b, pos + 4, count)
        }
    }
}

pub open spec fn spec_parse_intervals(b: Seq<u8>, pos: int, count: int) -> Result<
    (Seq<IntervalV>, int),
    DbzError,
>
    decreases count,
{
    if count <= 0 {
        Ok((Seq::empty(), pos))
    } else {
        match spec_decode_iso8601(spec_u32_at(b, pos)) {
            Ok(sd) => match spec_decode_iso8601(spec_u32_at(b, pos + 4)) {
                Ok(ed) => match parse_cstr(b.subrange(pos + 8, pos + 8 + SYMBOL_CSTR_LEN as int)) {
                    Ok(sym) => match spec_parse_intervals(b, pos + 30, count - 1) {
                        Ok((rest, end)) => Ok(
                            (
                                seq![IntervalV { start_date: sd, end_date: ed, symbol: sym }]
                                    + rest,
                                end,
                            ),
                        ),
                        Err(e) => Err(e),
                    },
                    Err(e) => Err(e),
                },
                Err(e) => Err(e),
            },
            Err(e) => Err(e),
        }
    }
}

/// One symbol mapping: the native symbol, the interval count, a bound check
/// for the intervals, then the intervals.
pub open spec fn spec_parse_mapping(b: Seq<u8>, pos: int, idx: int) -> Result<
    (MappingV, int),
    DbzError,
> {
    if pos + 26 > b.len() {
        Err(DbzError::TruncatedMetadata { section: Section::Mappings, index: idx as u32 })
    } else {
        match parse_cstr(b.subrange(pos, pos + SYMBOL_CSTR_LEN as int)) {
            Ok(native) => {
                let icount = spec_u32_at(b, pos + 22) as int;
                if pos + 26 + icount * 30 > b.len() {
                    Err(
                        DbzError::TruncatedMetadata {
                            section: Section::Mappings,
                            index: idx as u32,
                        },
                    )
                } else {
                    match spec_parse_intervals(b, pos + 26, icount) {
                        Ok((ivs, end)) => Ok((MappingV { native, intervals: ivs }, end)),
                        Err(e) => Err(e),
                    }
                }
            },
            Err(e) => Err(e),
        }
    }
}

pub open spec fn spec_parse_mappings(b: Seq<u8>, pos: int, count: int, idx: int) -> Result<
    (Seq<MappingV>, int),
    DbzError,
>
    decreases count,
{
    if count <= 0 {
        Ok((Seq::empty(), pos))
    } else {
        match spec_parse_mapping(b, pos, idx) {
            Ok((mp, next)) => match spec_parse_mappings(b, next, count - 1, idx + 1) {
                Ok((rest, end)) => Ok((seq![mp] + rest, end)),
                Err(e) => Err(e),
            },
            Err(e) => Err(e),
        }
    }
}

/// The mappings section: the count, then the mappings.
pub open spec fn spec_parse_mappings_section(b: Seq<u8>, pos: int) -> Result<
    (Seq<MappingV>, int),
    DbzError,
> {
    if pos + 4 > b.len() {
        Err(DbzError::TruncatedMetadata { section: Section::Mappings, index: 0 })
    } else {
        spec_parse_mappings(b, pos + 4, spec_u32_at(b, pos) as int, 0)
    }
}

/// What decoding a metadata payload returns: the header value, or the first
/// error in parse order.
pub open spec fn spec_parse_payload(b: Seq<u8>) -> Result<MetaV, DbzError> {
    if b.len() < FIXED_METADATA_LEN {
        Err(DbzError::TruncatedMetadata { section: Section::FixedHeader, index: 0 })
    } else if !(b[0] == 0x44 && b[1] == 0x42 && b[2] == 0x5A) {
        Err(DbzError::Unsupported { feature: Feature::VersionString })
    } else if b[3] > SCHEMA_VERSION {
        Err(DbzError::UnsupportedVersion { version: b[3] })
    } else {
        match parse_cstr(b.subrange(4, 4 + DATASET_CSTR_LEN as int)) {
            Err(e) => Err(e),
            Ok(dataset) => match Schema::from_numeric_spec(spec_u16_at(b, 20)) {
                None => Err(
                    DbzError::UnknownEnum {
                        kind: crate::errors::EnumKind::Schema,
                        value: spec_u16_at(b, 20),
                    },
                ),
                Some(schema) => match Compression::from_numeric_spec(b[54]) {
                    None => Err(
                        DbzError::UnknownEnum {
                            kind: crate::errors::EnumKind::Compression,
                            value: b[54] as u16,
                        },
                    ),
                    Some(compression) => match SType::from_numeric_spec(b[55]) {
                        None => Err(
                            DbzError::UnknownEnum {
                                kind: crate::errors::EnumKind::SType,
                                value: b[55] as u16,
                            },
                        ),
                        Some(stype_in) => match SType::from_numeric_spec(b[56]) {
                            None => Err(
                                DbzError::UnknownEnum {
                                    kind: crate::errors::EnumKind::SType,
                                    value: b[56] as u16,
                                },
                            ),
                            Some(stype_out) => {
                                if b.len() < FIXED_METADATA_LEN + 4 {
                                    Err(
                                        DbzError::TruncatedMetadata {
                                            section: Section::SchemaDefinition,
                                            index: 0,
                                        },
                                    )
                                } else if spec_u32_at(b, FIXED_METADATA_LEN as int) != 0 {
                                    Err(
                                        DbzError::Unsupported {
                                            feature: Feature::SchemaDefinitions,
                                        },
                                    )
                                } else {
                                    match spec_parse_sym_section(b, 100, Section::Symbols) {
                                        Err(e) => Err(e),
                                        Ok((symbols, p1)) => match spec_parse_sym_section(
                                            b,
                                            p1,
                                            Section::Partial,
                                        ) {
                                            Err(e) => Err(e),
                                            Ok((partial, p2)) => match spec_parse_sym_section(
                                                b,
                                                p2,
                                                Section::NotFound,
                                            ) {
                                                Err(e) => Err(e),
                                                Ok((not_found, p3)) => match
                                                spec_parse_mappings_section(b, p3) {
                                                    Err(e) => Err(e),
                                                    Ok((mappings, _p4)) => Ok(
                                                        MetaV {
                                                            version: b[3],
                                                            dataset,
                                                            schema,
                                                            start: spec_u64_at(b, 22),
                                                            end: spec_u64_at(b, 30),
                                                            limit: spec_u64_at(b, 38),
                                                            record_count: spec_u64_at(b, 46),
                                                            compression,
                                                            stype_in,
                                                            stype_out,
                                                            symbols,
                                                            partial,
                                                            not_found,
                                                            mappings,
                                                        },
                                                    ),
                                                },
                                            },
                                        },
                                    }
                                }
                            },
                        },
                    },
                },
            },
        }
    }
}

/// What decoding a whole artifact's head returns: the header value and the
/// offset where the compressed body starts, or the first error.
pub open spec fn spec_read(bytes: Seq<u8>) -> Result<(MetaV, int), DbzError> {
    if bytes.len() < 8 {
        Err(DbzError::TruncatedMetadata { section: Section::Prelude, index: 0 })
    } else {
        let magic = spec_u32_at(bytes, 0);
        if !(ZSTD_MAGIC <= magic < 0x184D2A60) {
            Err(DbzError::BadMagic { magic })
        } else {
            let frame = spec_u32_at(bytes, 4) as int;
            if frame < FIXED_METADATA_LEN {
                Err(DbzError::TruncatedMetadata { section: Section::FixedHeader, index: 0 })
            } else if bytes.len() < 8 + frame {
                Err(DbzError::TruncatedMetadata { section: Section::Frame, index: 0 })
            } else {
                match spec_parse_payload(bytes.subrange(8, 8 + frame)) {
                    Ok(m) => Ok((m, 8 + frame)),
                    Err(e) => Err(e),
                }
            }
        }
    }
}

/// Prefix composition for the symbol parser: prepend already-parsed symbols
/// to the outcome of the remaining ones.
pub open spec fn syms_then(
    prefix: Seq<Seq<char>>,
    r: Result<(Seq<Seq<char>>, int), DbzError>,
) -> Result<(Seq<Seq<char>>, int), DbzError> {
    match r {
        Ok((rest, end)) => Ok((prefix + rest, end)),
        Err(e) => Err(e),
    }
}

/// Prefix composition for the interval parser.
pub open spec fn ivs_then(
    prefix: Seq<IntervalV>,
    r: Result<(Seq<IntervalV>, int), DbzError>,
) -> Result<(Seq<IntervalV>, int), DbzError> {
    match r {
        Ok((rest, end)) => Ok((prefix + rest, end)),
        Err(e) => Err(e),
    }
}

/// Prefix composition for the mapping parser.
pub open spec fn maps_then(
    prefix: Seq<MappingV>,
    r: Result<(Seq<MappingV>, int), DbzError>,
) -> Result<(Seq<MappingV>, int), DbzError> {
    match r {
        Ok((rest, end)) => Ok((prefix + rest, end)),
        Err(e) => Err(e),
    }
}

/// Read one repeated symbol section at `*pos`, advancing `*pos` past it on
/// success.
fn decode_repeated_symbol_cstr(buffer: &[u8], pos: &mut usize, section: Section) -> (r: Result<
    Vec<String>,
    DbzError,
>)
    requires
        *old(pos) <= buffer@.len(),
    ensures
        match spec_parse_sym_section(buffer@, *old(pos) as int, section) {
            Ok(p) => {
                &&& r is Ok
                &&& r->Ok_0@.map_values(|s: String| s@) == p.0
                &&& *final(pos) == p.1
                &&& *old(pos) <= p.1 <= buffer@.len()
            },
            Err(e) => {
                &&& r is Err
                &&& r->Err_0 == e
            },
        },
{
    let ghost b = buffer@;
    let n = buffer.len();
    let start = *pos;
    if n - start < 4 {
        return Err(DbzError::TruncatedMetadata { section, index: 0 });
    }
    let count = read_u32_at(buffer, start) as usize;
    let after = start + 4;
    if (count as u64) * 22 > (n - after) as u64 {
        return Err(DbzError::TruncatedMetadata { section, index: 0 });
    }
    *pos = after;
    let ghost total = spec_parse_sym_section(b, start as int, section);
    proof {
        assert(total == spec_parse_syms(b, after as int, count as int));
    }
    let mut res: Vec<String> = Vec::new();
    let mut i: usize = 0;
    proof {
        assert(res@.map_values(|s: String| s@) =~= Seq::<Seq<char>>::empty());
        match spec_parse_syms(b, after as int, count as int) {
            Ok((rest, end)) => {
                assert(Seq::<Seq<char>>::empty() + rest =~= rest);
            },
            Err(_) => {},
        }
    }
    while i < count
        invariant
            start == *old(pos),
            b == buffer@,
            n == b.len(),
            after + count * 22 <= n,
            *pos == after + i * 22,
            res@.len() == i,
            0 <= i <= count,
            total == spec_parse_sym_section(b, start as int, section),
            total == syms_then(
                res@.map_values(|s: String| s@),
                spec_parse_syms(b, *pos as int, (count - i) as int),
            ),
        decreases count - i,
    {
        let ghost resv = res@.map_values(|s: String| s@);
        let ghost cur = *pos as int;
        proof {
            assert((i + 1) * 22 <= count * 22) by (nonlinear_arith)
                requires
                    i + 1 <= count,
            ;
            assert(i * 22 + 22 == (i + 1) * 22) by (nonlinear_arith);
            assert(cur + 22 <= n);
        }
        match read_cstr(buffer, pos, SYMBOL_CSTR_LEN) {
            Ok(sym) => {
                proof {
                    let k = (count - i) as int;
                    let rest = spec_parse_syms(b, cur + 22, k - 1);
                    match rest {
                        Ok((rs, end)) => {
                            assert(resv + (seq![sym@] + rs) =~= resv.push(sym@) + rs);
                        },
                        Err(_) => {},
                    }
                }
                res.push(sym);
                i += 1;
                proof {
                    assert(res@.map_values(|s: String| s@) =~= resv.push(sym@));
                    assert((i - 1) * 22 + 22 == i * 22) by (nonlinear_arith);
                }
            },
            Err(e) => {
                proof {
                    let k = (count - i) as int;
                    assert(spec_parse_syms(b, cur, k) == Err::<(Seq<Seq<char>>, int), DbzError>(
                        e,
                    ));
                    assert(total == syms_then(resv, spec_parse_syms(b, cur, k)));
                    assert(total == Err::<(Seq<Seq<char>>, int), DbzError>(e));
                    assert(spec_parse_sym_section(b, start as int, section) == Err::<
                        (Seq<Seq<char>>, int),
                        DbzError,
                    >(e));
                }
                return Err(e);
            },
        }
    }
    proof {
        assert(spec_parse_syms(b, *pos as int, 0) == Ok::<(Seq<Seq<char>>, int), DbzError>(
            (Seq::<Seq<char>>::empty(), *pos as int),
        ));
        assert(res@.map_values(|s: String| s@) + Seq::<Seq<char>>::empty() =~= res@.map_values(
            |s: String| s@,
        ));
    }
    Ok(res)
}

/// Read one symbol mapping at `*pos`, advancing `*pos` past it on success.
/// `idx` is the mapping's position in its section, carried into truncation
/// errors.
fn decode_symbol_mapping(buffer: &[u8], pos: &mut usize, idx: u32) -> (r: Result<
    SymbolMapping,
    DbzError,
>)
    requires
        *old(pos) <= buffer@.len(),
    ensures
        match spec_parse_mapping(buffer@, *old(pos) as int, idx as int) {
            Ok(p) => {
                &&& r is Ok
                &&& r->Ok_0@ == p.0
                &&& *final(pos) == p.1
                &&& *old(pos) <= p.1 <= buffer@.len()
            },
            Err(e) => {
                &&& r is Err
                &&& r->Err_0 == e
            },
        },
{
    let ghost b = buffer@;
    let n = buffer.len();
    let start = *pos;
    if n - start < 26 {
        return Err(DbzError::TruncatedMetadata { section: Section::Mappings, index: idx });
    }
    let native = match read_cstr(buffer, pos, SYMBOL_CSTR_LEN) {
        Ok(sym) => sym,
        Err(e) => {
            proof {
                assert(spec_parse_mapping(b, start as int, idx as int) == Err::<
                    (MappingV, int),
                    DbzError,
                >(e));
            }
            return Err(e);
        },
    };
    let icount = read_u32_at(buffer, *pos) as usize;
    *pos = *pos + 4;
    let after = *pos;
    if (icount as u64) * 30 > (n - after) as u64 {
        return Err(DbzError::TruncatedMetadata { section: Section::Mappings, index: idx });
    }
    let ghost inner = spec_parse_intervals(b, after as int, icount as int);
    let ghost natv = native@;
    let mut intervals: Vec<MappingInterval> = Vec::new();
    let mut i: usize = 0;
    proof {
        assert(intervals@.map_values(|iv: MappingInterval| iv@) =~= Seq::<IntervalV>::empty());
        match inner {
            Ok((rest, end)) => {
                assert(Seq::<IntervalV>::empty() + rest =~= rest);
            },
            Err(_) => {},
        }
        assert(spec_parse_mapping(b, start as int, idx as int) == (match inner {
            Ok(p) => Ok::<(MappingV, int), DbzError>(
                (MappingV { native: natv, intervals: p.0 }, p.1),
            ),
            Err(e) => Err::<(MappingV, int), DbzError>(e),
        }));
    }
    while i < icount
        invariant
            start == *old(pos),
            natv == native@,
            b == buffer@,
            n == b.len(),
            after + icount * 30 <= n,
            *pos == after + i * 30,
            intervals@.len() == i,
            0 <= i <= icount,
            inner == spec_parse_intervals(b, after as int, icount as int),
            spec_parse_mapping(b, start as int, idx as int) == (match inner {
                Ok(p) => Ok::<(MappingV, int), DbzError>(
                    (MappingV { native: natv, intervals: p.0 }, p.1),
                ),
                Err(e) => Err::<(MappingV, int), DbzError>(e),
            }),
            inner == ivs_then(
                intervals@.map_values(|iv: MappingInterval| iv@),
                spec_parse_intervals(b, *pos as int, (icount - i) as int),
            ),
        decreases icount - i,
    {
        let ghost ivsv = intervals@.map_values(|iv: MappingInterval| iv@);
        let ghost cur = *pos as int;
        proof {
            assert((i + 1) * 30 <= icount * 30) by (nonlinear_arith)
                requires
                    i + 1 <= icount,
            ;
            assert(i * 30 + 30 == (i + 1) * 30) by (nonlinear_arith);
            assert(cur + 30 <= n);
        }
        let ghost k = (icount - i) as int;
        let raw_start = read_u32_at(buffer, *pos);
        let start_date = match decode_iso8601(raw_start) {
            Ok(d) => d,
            Err(e) => {
                proof {
                    assert(spec_parse_intervals(b, cur, k) == Err::<(Seq<IntervalV>, int), DbzError>(
                        e,
                    ));
                }
                return Err(e);
            },
        };
        let raw_end = read_u32_at(buffer, *pos + 4);
        let end_date = match decode_iso8601(raw_end) {
            Ok(d) => d,
            Err(e) => {
                proof {
                    assert(spec_parse_intervals(b, cur, k) == Err::<(Seq<IntervalV>, int), DbzError>(
                        e,
                    ));
                }
                return Err(e);
            },
        };
        *pos = *pos + 8;
        let symbol = match read_cstr(buffer, pos, SYMBOL_CSTR_LEN) {
            Ok(sym) => sym,
            Err(e) => {
                proof {
                    assert(spec_parse_intervals(b, cur, k) == Err::<(Seq<IntervalV>, int), DbzError>(
                        e,
                    ));
                }
                return Err(e);
            },
        };
        let iv = MappingInterval { start_date, end_date, symbol };
        proof {
            let k = (icount - i) as int;
            let rest = spec_parse_intervals(b, cur + 30, k - 1);
            match rest {
                Ok((rs, end)) => {
                    assert(ivsv + (seq![iv@] + rs) =~= ivsv.push(iv@) + rs);
                },
                Err(_) => {},
            }
        }
        intervals.push(iv);
        i += 1;
        proof {
            assert(intervals@.map_values(|x: MappingInterval| x@) =~= ivsv.push(iv@));
            assert((i - 1) * 30 + 30 == i * 30) by (nonlinear_arith);
        }
    }
    proof {
        assert(spec_parse_intervals(b, *pos as int, 0) == Ok::<(Seq<IntervalV>, int), DbzError>(
            (Seq::<IntervalV>::empty(), *pos as int),
        ));
        assert(intervals@.map_values(|iv: MappingInterval| iv@) + Seq::<IntervalV>::empty()
            =~= intervals@.map_values(|iv: MappingInterval| iv@));
    }
    Ok(SymbolMapping { native, intervals })
}

/// Read the mappings section at `*pos`, advancing `*pos` past it on success.
fn decode_symbol_mappings(buffer: &[u8], pos: &mut usize) -> (r: Result<
    Vec<SymbolMapping>,
    DbzError,
>)
    requires
        *old(pos) <= buffer@.len(),
    ensures
        match spec_parse_mappings_section(buffer@, *old(pos) as int) {
            Ok(p) => {
                &&& r is Ok
                &&& r->Ok_0@.map_values(|m: SymbolMapping| m@) == p.0
                &&& *final(pos) == p.1
                &&& *old(pos) <= p.1 <= buffer@.len()
            },
            Err(e) => {
                &&& r is Err
                &&& r->Err_0 == e
            },
        },
{
    let ghost b = buffer@;
    let n = buffer.len();
    let start = *pos;
    if n - start < 4 {
        return Err(DbzError::TruncatedMetadata { section: Section::Mappings, index: 0 });
    }
    let count = read_u32_at(buffer, start) as usize;
    *pos = start + 4;
    let ghost total = spec_parse_mappings(b, *pos as int, count as int, 0);
    let mut res: Vec<SymbolMapping> = Vec::new();
    let mut i: usize = 0;
    proof {
        assert(res@.map_values(|m: SymbolMapping| m@) =~= Seq::<MappingV>::empty());
        match total {
            Ok((rest, end)) => {
                assert(Seq::<MappingV>::empty() + rest =~= rest);
            },
            Err(_) => {},
        }
        assert(spec_parse_mappings_section(b, start as int) == total);
    }
    while i < count
        invariant
            start == *old(pos),
            b == buffer@,
            n == b.len(),
            start + 4 <= *pos <= n,
            res@.len() == i,
            0 <= i <= count,
            count <= u32::MAX,
            total == spec_parse_mappings(b, (start + 4) as int, count as int, 0),
            spec_parse_mappings_section(b, start as int) == total,
            total == maps_then(
                res@.map_values(|m: SymbolMapping| m@),
                spec_parse_mappings(b, *pos as int, (count - i) as int, i as int),
            ),
        decreases count - i,
    {
        let ghost resv = res@.map_values(|m: SymbolMapping| m@);
        let ghost cur = *pos as int;
        match decode_symbol_mapping(buffer, pos, i as u32) {
            Ok(mp) => {
                proof {
                    let k = (count - i) as int;
                    match spec_parse_mapping(b, cur, i as int) {
                        Ok((mpv, next)) => {
                            let rest = spec_parse_mappings(b, next, k - 1, i + 1);
                            match rest {
                                Ok((rs, end)) => {
                                    assert(resv + (seq![mpv] + rs) =~= resv.push(mpv) + rs);
                                },
                                Err(_) => {},
                            }
                        },
                        Err(_) => {},
                    }
                }
                res.push(mp);
                i += 1;
                proof {
                    assert(res@.map_values(|m: SymbolMapping| m@) =~= resv.push(
                        res@[i - 1]@,
                    ));
                }
            },
            Err(e) => {
                proof {
                    let k = (count - i) as int;
                    assert(spec_parse_mappings(b, cur, k, i as int) == Err::<
                        (Seq<MappingV>, int),
                        DbzError,
                    >(e));
                }
                return Err(e);
            },
        }
    }
    proof {
        assert(spec_parse_mappings(b, *pos as int, 0, count as int) == Ok::<
            (Seq<MappingV>, int),
            DbzError,
        >((Seq::<MappingV>::empty(), *pos as int)));
        assert(res@.map_values(|m: SymbolMapping| m@) + Seq::<MappingV>::empty() =~= res@
            .map_values(|m: SymbolMapping| m@));
    }
    Ok(res)
}

/// The bytes after splicing the four updatable fields into an encoded
/// artifact: `start` at offset 30, `end` at 38, `limit` at 46 and
/// `record_count` at 54; every other byte unchanged.
pub open spec fn spec_update(
    b: Seq<u8>,
    start: u64,
    end: u64,
    limit: u64,
    record_count: u64,
) -> Seq<u8> {
    b.take(30) + spec_u64_to_le_bytes(start) + spec_u64_to_le_bytes(end) + spec_u64_to_le_bytes(
        limit,
    ) + spec_u64_to_le_bytes(record_count) + b.skip(62)
}

/// Overwrite the eight bytes at `off` with the little-endian form of `x`.
fn write_u64_at(buf: &mut Vec<u8>, off: usize, x: u64)
    requires
        off + 8 <= old(buf)@.len(),
    ensures
        final(buf)@.len() == old(buf)@.len(),
        forall|j: int|
            0 <= j < old(buf)@.len() && !(off <= j < off + 8) ==> final(buf)@[j] == old(buf)@[j],
        final(buf)@.subrange(off as int, off + 8) == spec_u64_to_le_bytes(x),
{
    let bytes = vstd::bytes::u64_to_le_bytes(x);
    let n = buf.len();
    let mut i: usize = 0;
    while i < 8
        invariant
            n == buf@.len(),
            off + 8 <= old(buf)@.len(),
            buf@.len() == old(buf)@.len(),
            bytes@ == spec_u64_to_le_bytes(x),
            bytes@.len() == 8,
            0 <= i <= 8,
            forall|j: int|
                0 <= j < old(buf)@.len() && !(off <= j < off + 8) ==> buf@[j] == old(buf)@[j],
            forall|j: int| 0 <= j < i ==> buf@[off + j] == bytes@[j],
        decreases 8 - i,
    {
        buf[off + i] = bytes[i];
        i += 1;
    }
    proof {
        assert(buf@.subrange(off as int, off + 8) =~= bytes@);
    }
}

impl Metadata {
    /// Read one zero-padded symbol field at `*pos`, advancing `*pos` past it
    /// on success and leaving it unchanged on failure.
    pub fn decode_symbol(buffer: &[u8], pos: &mut usize) -> (r: Result<String, DbzError>)
        requires
            *old(pos) + SYMBOL_CSTR_LEN <= buffer@.len(),
        ensures
            match parse_cstr(
                buffer@.subrange(*old(pos) as int, *old(pos) + SYMBOL_CSTR_LEN as int),
            ) {
                Ok(sym) => {
                    &&& r is Ok
                    &&& r->Ok_0@ == sym
                    &&& *final(pos) == *old(pos) + SYMBOL_CSTR_LEN
                },
                Err(e) => {
                    &&& r is Err
                    &&& r->Err_0 == e
                    &&& *final(pos) == *old(pos)
                },
            },
    {
        read_cstr(buffer, pos, SYMBOL_CSTR_LEN)
    }

    /// Decode a packed base-ten date, validating the month and the calendar
    /// day.
    pub fn decode_iso8601(raw: u32) -> (r: Result<Date, DbzError>)
        ensures
            r == spec_decode_iso8601(raw),
            r is Ok ==> r->Ok_0.is_valid(),
    {
        decode_iso8601(raw)
    }

    /// Decode a metadata payload (the bytes after the 8-byte prelude).
    /// Returns exactly what the payload parse says: the header value, or the
    /// first error in parse order.
    pub fn decode(buffer: &[u8]) -> (r: Result<Metadata, DbzError>)
        ensures
            match spec_parse_payload(buffer@) {
                Ok(mv) => r is Ok && r->Ok_0@ == mv,
                Err(e) => r is Err && r->Err_0 == e,
            },
    {
        let n = buffer.len();
        if n < FIXED_METADATA_LEN {
            return Err(
                DbzError::TruncatedMetadata { section: Section::FixedHeader, index: 0 },
            );
        }
        if !(buffer[0] == 0x44 && buffer[1] == 0x42 && buffer[2] == 0x5A) {
            return Err(DbzError::Unsupported { feature: Feature::VersionString });
        }
        let version = buffer[3];
        if version > SCHEMA_VERSION {
            return Err(DbzError::UnsupportedVersion { version });
        }
        let mut pos: usize = 4;
        let dataset = match read_cstr(buffer, &mut pos, DATASET_CSTR_LEN) {
            Ok(d) => d,
            Err(e) => {
                return Err(e);
            },
        };
        let schema = match Schema::from_numeric(read_u16_at(buffer, 20)) {
            Ok(sc) => sc,
            Err(e) => {
                return Err(e);
            },
        };
        let start = read_u64_at(buffer, 22);
        let end = read_u64_at(buffer, 30);
        let limit = read_u64_at(buffer, 38);
        let record_count = read_u64_at(buffer, 46);
        let compression = match Compression::from_numeric(buffer[54]) {
            Ok(c) => c,
            Err(e) => {
                return Err(e);
            },
        };
        let stype_in = match SType::from_numeric(buffer[55]) {
            Ok(t) => t,
            Err(e) => {
                return Err(e);
            },
        };
        let stype_out = match SType::from_numeric(buffer[56]) {
            Ok(t) => t,
            Err(e) => {
                return Err(e);
            },
        };
        if n < FIXED_METADATA_LEN + 4 {
            return Err(
                DbzError::TruncatedMetadata { section: Section::SchemaDefinition, index: 0 },
            );
        }
        let sdl = read_u32_at(buffer, FIXED_METADATA_LEN);
        if sdl != 0 {
            return Err(DbzError::Unsupported { feature: Feature::SchemaDefinitions });
        }
        let mut p: usize = 100;
        let symbols = match decode_repeated_symbol_cstr(buffer, &mut p, Section::Symbols) {
            Ok(v) => v,
            Err(e) => {
                return Err(e);
            },
        };
        let partial = match decode_repeated_symbol_cstr(buffer, &mut p, Section::Partial) {
            Ok(v) => v,
            Err(e) => {
                return Err(e);
            },
        };
        let not_found = match decode_repeated_symbol_cstr(buffer, &mut p, Section::NotFound) {
            Ok(v) => v,
            Err(e) => {
                return Err(e);
            },
        };
        let mappings = match decode_symbol_mappings(buffer, &mut p) {
            Ok(v) => v,
            Err(e) => {
                return Err(e);
            },
        };
        Ok(
            Metadata {
                version,
                dataset,
                schema,
                start,
                end,
                limit,
                record_count,
                compression,
                stype_in,
                stype_out,
                symbols,
                partial,
                not_found,
                mappings,
            },
        )
    }

    /// Decode an artifact's head: the prelude, then the metadata payload.
    /// On success also returns the offset where the compressed body starts.
    pub fn read(bytes: &[u8]) -> (r: Result<(Metadata, usize), DbzError>)
        ensures
            match spec_read(bytes@) {
                Ok(p) => {
                    &&& r is Ok
                    &&& r->Ok_0.0@ == p.0
                    &&& r->Ok_0.1 == p.1
                },
                Err(e) => {
                    &&& r is Err
                    &&& r->Err_0 == e
                },
            },
    {
        let n = bytes.len();
        if n < 8 {
            return Err(DbzError::TruncatedMetadata { section: Section::Prelude, index: 0 });
        }
        let magic = read_u32_at(bytes, 0);
        if !(ZSTD_MAGIC <= magic && magic < 0x184D2A60) {
            return Err(DbzError::BadMagic { magic });
        }
        let frame = read_u32_at(bytes, 4) as usize;
        if frame < FIXED_METADATA_LEN {
            return Err(
                DbzError::TruncatedMetadata { section: Section::FixedHeader, index: 0 },
            );
        }
        if n - 8 < frame {
            return Err(DbzError::TruncatedMetadata { section: Section::Frame, index: 0 });
        }
        let payload = vstd::slice::slice_subrange(bytes, 8, 8 + frame);
        match Self::decode(payload) {
            Ok(m) => Ok((m, 8 + frame)),
            Err(e) => Err(e),
        }
    }

    /// Overwrite the four updatable fields of an encoded artifact in place:
    /// `start` at offset 30, `end` at 38, `limit` at 46 and `record_count` at
    /// 54. No other byte changes. Fails, changing nothing, exactly when the
    /// buffer is too short to hold the fields.
    pub fn update_encoded(
        buf: &mut Vec<u8>,
        start: u64,
        end: u64,
        limit: u64,
        record_count: u64,
    ) -> (r: Result<(), DbzError>)
        ensures
            old(buf)@.len() >= 62 ==> r is Ok && final(buf)@ == spec_update(
                old(buf)@,
                start,
                end,
                limit,
                record_count,
            ),
            old(buf)@.len() < 62 ==> r is Err && final(buf)@ == old(buf)@,
    {
        if buf.len() < 62 {
            return Err(
                DbzError::TruncatedMetadata { section: Section::FixedHeader, index: 0 },
            );
        }
        write_u64_at(buf, 30, start);
        write_u64_at(buf, 38, end);
        write_u64_at(buf, 46, limit);
        write_u64_at(buf, 54, record_count);
        proof {
            assert(buf@ =~= spec_update(old(buf)@, start, end, limit, record_count));
        }
        Ok(())
    }
}

proof fn lemma_encode_syms_len(ss: Seq<Seq<char>>)
    requires
        forall|i: int| 0 <= i < ss.len() ==> wf_cstr(#[trigger] ss[i], SYMBOL_CSTR_LEN as int),
    ensures
        spec_encode_syms(ss).len() == 22 * ss.len(),
    decreases ss.len(),
{
    if ss.len() == 0 {
    } else {
        lemma_cstr_round_trip(ss.first(), SYMBOL_CSTR_LEN as int);
        assert(forall|i: int|
            0 <= i < ss.drop_first().len() ==> wf_cstr(
                #[trigger] ss.drop_first()[i],
                SYMBOL_CSTR_LEN as int,
            ));
        lemma_encode_syms_len(ss.drop_first());
    }
}

proof fn lemma_encode_intervals_len(ivs: Seq<IntervalV>)
    requires
        forall|i: int| 0 <= i < ivs.len() ==> wf_interval(#[trigger] ivs[i]),
    ensures
        spec_encode_intervals(ivs).len() == 30 * ivs.len(),
    decreases ivs.len(),
{
    if ivs.len() == 0 {
    } else {
        lemma_cstr_round_trip(ivs.first().symbol, SYMBOL_CSTR_LEN as int);
        lemma_le_round_trip();
        assert(spec_encode_interval(ivs.first()).len() == 30);
        assert(forall|i: int|
            0 <= i < ivs.drop_first().len() ==> wf_interval(#[trigger] ivs.drop_first()[i]));
        lemma_encode_intervals_len(ivs.drop_first());
    }
}

proof fn lemma_parse_syms_of_encoded(b: Seq<u8>, pos: int, ss: Seq<Seq<char>>)
    requires
        forall|i: int| 0 <= i < ss.len() ==> wf_cstr(#[trigger] ss[i], SYMBOL_CSTR_LEN as int),
        0 <= pos,
        pos + 22 * ss.len() <= b.len(),
        b.subrange(pos, pos + 22 * ss.len()) == spec_encode_syms(ss),
    ensures
        spec_parse_syms(b, pos, ss.len() as int) == Ok::<(Seq<Seq<char>>, int), DbzError>(
            (ss, pos + 22 * ss.len()),
        ),
    decreases ss.len(),
{
    let whole = b.subrange(pos, pos + 22 * ss.len());
    assert forall|k: int|
        pos <= k < pos + 22 * ss.len() implies #[trigger] b[k] == spec_encode_syms(ss)[k - pos] by {
        assert(b[k] == whole[k - pos]);
    }
    lemma_encode_syms_len(ss);
    if ss.len() == 0 {
        assert(ss =~= Seq::<Seq<char>>::empty());
    } else {
        let first = ss.first();
        let rest = ss.drop_first();
        lemma_cstr_round_trip(first, SYMBOL_CSTR_LEN as int);
        assert(forall|i: int|
            0 <= i < rest.len() ==> wf_cstr(#[trigger] rest[i], SYMBOL_CSTR_LEN as int));
        lemma_encode_syms_len(rest);
        assert(spec_encode_syms(ss) == encode_cstr(first, SYMBOL_CSTR_LEN as int)
            + spec_encode_syms(rest));
        assert(encode_cstr(first, SYMBOL_CSTR_LEN as int).len() == 22);
        assert(22 <= 22 * ss.len());
        assert(forall|j: int|
            0 <= j < 22 ==> spec_encode_syms(ss)[j] == encode_cstr(
                first,
                SYMBOL_CSTR_LEN as int,
            )[j]);
        assert(b.subrange(pos, pos + 22) =~= encode_cstr(first, SYMBOL_CSTR_LEN as int));
        assert(parse_cstr(b.subrange(pos, pos + 22)) == Ok::<Seq<char>, DbzError>(first));
        assert(b.subrange(pos + 22, pos + 22 + 22 * rest.len()) =~= spec_encode_syms(rest));
        lemma_parse_syms_of_encoded(b, pos + 22, rest);
        assert(seq![first] + rest =~= ss);
    }
}

proof fn lemma_parse_intervals_of_encoded(b: Seq<u8>, pos: int, ivs: Seq<IntervalV>)
    requires
        forall|i: int| 0 <= i < ivs.len() ==> wf_interval(#[trigger] ivs[i]),
        0 <= pos,
        pos + 30 * ivs.len() <= b.len(),
        b.subrange(pos, pos + 30 * ivs.len()) == spec_encode_intervals(ivs),
    ensures
        spec_parse_intervals(b, pos, ivs.len() as int) == Ok::<(Seq<IntervalV>, int), DbzError>(
            (ivs, pos + 30 * ivs.len()),
        ),
    decreases ivs.len(),
{
    let whole = b.subrange(pos, pos + 30 * ivs.len());
    assert forall|k: int|
        pos <= k < pos + 30 * ivs.len() implies #[trigger] b[k] == spec_encode_intervals(ivs)[k
            - pos] by {
        assert(b[k] == whole[k - pos]);
    }
    lemma_le_round_trip();
    lemma_encode_intervals_len(ivs);
    if ivs.len() == 0 {
        assert(ivs =~= Seq::<IntervalV>::empty());
    } else {
        let first = ivs.first();
        let rest = ivs.drop_first();
        lemma_cstr_round_trip(first.symbol, SYMBOL_CSTR_LEN as int);
        assert(forall|i: int| 0 <= i < rest.len() ==> wf_interval(#[trigger] rest[i]));
        lemma_encode_intervals_len(rest);
        let e = spec_encode_interval(first);
        assert(b.subrange(pos, pos + 30) =~= e);
        assert(b.subrange(pos, pos + 4) =~= e.subrange(0, 4));
        assert(e.subrange(0, 4) =~= spec_u32_to_le_bytes(first.start_date.packed()));
        assert(spec_u32_at(b, pos) == first.start_date.packed());
        lemma_date_round_trip(first.start_date);
        assert(b.subrange(pos + 4, pos + 8) =~= e.subrange(4, 8));
        assert(e.subrange(4, 8) =~= spec_u32_to_le_bytes(first.end_date.packed()));
        assert(spec_u32_at(b, pos + 4) == first.end_date.packed());
        lemma_date_round_trip(first.end_date);
        assert(b.subrange(pos + 8, pos + 30) =~= e.subrange(8, 30));
        assert(e.subrange(8, 30) =~= encode_cstr(first.symbol, SYMBOL_CSTR_LEN as int));
        assert(parse_cstr(b.subrange(pos + 8, pos + 30)) == Ok::<Seq<char>, DbzError>(
            first.symbol,
        ));
        assert(b.subrange(pos + 30, pos + 30 + 30 * rest.len()) =~= spec_encode_intervals(rest));
        lemma_parse_intervals_of_encoded(b, pos + 30, rest);
        assert(seq![first] + rest =~= ivs);
    }
}

proof fn lemma_parse_mapping_of_encoded(b: Seq<u8>, pos: int, idx: int, mp: MappingV)
    requires
        wf_mapping(mp),
        0 <= pos,
        pos + spec_encode_mapping(mp).len() <= b.len(),
        b.subrange(pos, pos + spec_encode_mapping(mp).len()) == spec_encode_mapping(mp),
    ensures
        spec_encode_mapping(mp).len() == 26 + 30 * mp.intervals.len(),
        spec_parse_mapping(b, pos, idx) == Ok::<(MappingV, int), DbzError>(
            (mp, pos + spec_encode_mapping(mp).len()),
        ),
{
    let whole = b.subrange(pos, pos + spec_encode_mapping(mp).len());
    assert forall|k: int|
        pos <= k < pos + spec_encode_mapping(mp).len() implies #[trigger] b[k]
            == spec_encode_mapping(mp)[k - pos] by {
        assert(b[k] == whole[k - pos]);
    }
    lemma_le_round_trip();
    lemma_cstr_round_trip(mp.native, SYMBOL_CSTR_LEN as int);
    lemma_encode_intervals_len(mp.intervals);
    let e = spec_encode_mapping(mp);
    let n = mp.intervals.len() as int;
    assert(e.len() == 26 + 30 * n);
    assert(b.subrange(pos, pos + 22) =~= encode_cstr(mp.native, SYMBOL_CSTR_LEN as int));
    assert(parse_cstr(b.subrange(pos, pos + 22)) == Ok::<Seq<char>, DbzError>(mp.native));
    assert(b.subrange(pos + 22, pos + 26) =~= spec_u32_to_le_bytes(mp.intervals.len() as u32));
    assert(spec_u32_at(b, pos + 22) == mp.intervals.len() as u32);
    assert(b.subrange(pos + 26, pos + 26 + 30 * n) =~= spec_encode_intervals(mp.intervals));
    lemma_parse_intervals_of_encoded(b, pos + 26, mp.intervals);
}

proof fn lemma_parse_mappings_of_encoded(b: Seq<u8>, pos: int, idx: int, ms: Seq<MappingV>)
    requires
        forall|i: int| 0 <= i < ms.len() ==> wf_mapping(#[trigger] ms[i]),
        0 <= pos,
        pos + spec_encode_mappings(ms).len() <= b.len(),
        b.subrange(pos, pos + spec_encode_mappings(ms).len()) == spec_encode_mappings(ms),
    ensures
        spec_parse_mappings(b, pos, ms.len() as int, idx) == Ok::<(Seq<MappingV>, int), DbzError>(
            (ms, pos + spec_encode_mappings(ms).len()),
        ),
    decreases ms.len(),
{
    let whole = b.subrange(pos, pos + spec_encode_mappings(ms).len());
    assert forall|k: int|
        pos <= k < pos + spec_encode_mappings(ms).len() implies #[trigger] b[k]
            == spec_encode_mappings(ms)[k - pos] by {
        assert(b[k] == whole[k - pos]);
    }
    if ms.len() == 0 {
        assert(ms =~= Seq::<MappingV>::empty());
    } else {
        let first = ms.first();
        let rest = ms.drop_first();
        let ef = spec_encode_mapping(first);
        let er = spec_encode_mappings(rest);
        assert(spec_encode_mappings(ms) == ef + er);
        assert(b.subrange(pos, pos + ef.len()) =~= ef);
        lemma_parse_mapping_of_encoded(b, pos, idx, first);
        assert(forall|i: int| 0 <= i < rest.len() ==> wf_mapping(#[trigger] rest[i]));
        assert(b.subrange(pos + ef.len(), pos + ef.len() + er.len()) =~= er);
        lemma_parse_mappings_of_encoded(b, pos + ef.len(), idx + 1, rest);
        assert(seq![first] + rest =~= ms);
    }
}

proof fn lemma_parse_sym_section_of_encoded(b: Seq<u8>, pos: int, ss: Seq<Seq<char>>, section: Section)
    requires
        wf_syms(ss),
        0 <= pos,
        pos + 4 + 22 * ss.len() <= b.len(),
        b.subrange(pos, pos + 4 + 22 * ss.len()) == spec_encode_sym_section(ss),
    ensures
        spec_encode_sym_section(ss).len() == 4 + 22 * ss.len(),
        spec_parse_sym_section(b, pos, section) == Ok::<(Seq<Seq<char>>, int), DbzError>(
            (ss, pos + 4 + 22 * ss.len()),
        ),
{
    let whole = b.subrange(pos, pos + 4 + 22 * ss.len());
    assert forall|k: int|
        pos <= k < pos + 4 + 22 * ss.len() implies #[trigger] b[k] == spec_encode_sym_section(
            ss,
        )[k - pos] by {
        assert(b[k] == whole[k - pos]);
    }
    lemma_le_round_trip();
    lemma_encode_syms_len(ss);
    assert(b.subrange(pos, pos + 4) =~= spec_u32_to_le_bytes(ss.len() as u32));
    assert(spec_u32_at(b, pos) == ss.len() as u32);
    assert(b.subrange(pos + 4, pos + 4 + 22 * ss.len()) =~= spec_encode_syms(ss));
    lemma_parse_syms_of_encoded(b, pos + 4, ss);
}

proof fn lemma_parse_mappings_section_of_encoded(b: Seq<u8>, pos: int, ms: Seq<MappingV>)
    requires
        wf_mappings(ms),
        0 <= pos,
        pos + spec_encode_mappings_section(ms).len() <= b.len(),
        b.subrange(pos, pos + spec_encode_mappings_section(ms).len())
            == spec_encode_mappings_section(ms),
    ensures
        spec_encode_mappings_section(ms).len() == 4 + spec_encode_mappings(ms).len(),
        spec_parse_mappings_section(b, pos) == Ok::<(Seq<MappingV>, int), DbzError>(
            (ms, pos + spec_encode_mappings_section(ms).len()),
        ),
{
    let whole = b.subrange(pos, pos + spec_encode_mappings_section(ms).len());
    assert forall|k: int|
        pos <= k < pos + spec_encode_mappings_section(ms).len() implies #[trigger] b[k]
            == spec_encode_mappings_section(ms)[k - pos] by {
        assert(b[k] == whole[k - pos]);
    }
    lemma_le_round_trip();
    let em = spec_encode_mappings(ms);
    assert(b.subrange(pos, pos + 4) =~= spec_u32_to_le_bytes(ms.len() as u32));
    assert(spec_u32_at(b, pos) == ms.len() as u32);
    assert(b.subrange(pos + 4, pos + 4 + em.len()) =~= em);
    lemma_parse_mappings_of_encoded(b, pos + 4, 0, ms);
}

/// The fixed region of a well-formed header is exactly 100 bytes.
proof fn lemma_encode_fixed_len(m: MetaV)
    requires
        wf_cstr(m.dataset, DATASET_CSTR_LEN as int),
    ensures
        spec_encode_fixed(m).len() == 100,
{
    lemma_le_round_trip();
    lemma_cstr_round_trip(m.dataset, DATASET_CSTR_LEN as int);
}

/// Law: every well-formed metadata value survives the round trip through its
/// payload bytes.
#[verifier::rlimit(100)]
pub proof fn lemma_payload_round_trip(m: MetaV)
    requires
        wf_meta(m),
    ensures
        spec_parse_payload(spec_encode_payload(m)) == Ok::<MetaV, DbzError>(m),
{
    lemma_le_round_trip();
    lemma_encode_fixed_len(m);
    lemma_cstr_round_trip(m.dataset, DATASET_CSTR_LEN as int);
    lemma_encode_syms_len(m.symbols);
    lemma_encode_syms_len(m.partial);
    lemma_encode_syms_len(m.not_found);
    let b = spec_encode_payload(m);
    let fx = spec_encode_fixed(m);
    let s1 = spec_encode_sym_section(m.symbols);
    let s2 = spec_encode_sym_section(m.partial);
    let s3 = spec_encode_sym_section(m.not_found);
    let ms = spec_encode_mappings_section(m.mappings);
    let p1 = 100 + s1.len() as int;
    let p2 = p1 + s2.len() as int;
    let p3 = p2 + s3.len() as int;
    assert(b.len() == 100 + s1.len() + s2.len() + s3.len() + ms.len());
    assert(b.subrange(0, 100) =~= fx);
    // the fixed fields, at their offsets
    assert(b[0] == 0x44 && b[1] == 0x42 && b[2] == 0x5A && b[3] == m.version);
    assert(b.subrange(4, 20) =~= encode_cstr(m.dataset, DATASET_CSTR_LEN as int));
    assert(parse_cstr(b.subrange(4, 20)) == Ok::<Seq<char>, DbzError>(m.dataset));
    assert(b.subrange(20, 22) =~= spec_u16_to_le_bytes(m.schema.numeric()));
    assert(spec_u16_at(b, 20) == m.schema.numeric());
    crate::enums::lemma_schema_numeric_round_trip(m.schema);
    assert(b.subrange(22, 30) =~= spec_u64_to_le_bytes(m.start));
    assert(b.subrange(30, 38) =~= spec_u64_to_le_bytes(m.end));
    assert(b.subrange(38, 46) =~= spec_u64_to_le_bytes(m.limit));
    assert(b.subrange(46, 54) =~= spec_u64_to_le_bytes(m.record_count));
    assert(spec_u64_at(b, 22) == m.start);
    assert(spec_u64_at(b, 30) == m.end);
    assert(spec_u64_at(b, 38) == m.limit);
    assert(spec_u64_at(b, 46) == m.record_count);
    assert(b[54] == m.compression.numeric() && b[55] == m.stype_in.numeric() && b[56]
        == m.stype_out.numeric());
    crate::enums::lemma_compression_numeric_round_trip(m.compression);
    crate::enums::lemma_stype_numeric_round_trip(m.stype_in);
    crate::enums::lemma_stype_numeric_round_trip(m.stype_out);
    assert(b.subrange(96, 100) =~= spec_u32_to_le_bytes(0));
    assert(spec_u32_at(b, 96) == 0);
    // the four variable sections, in order
    assert(b.subrange(100, p1) =~= s1);
    lemma_parse_sym_section_of_encoded(b, 100, m.symbols, Section::Symbols);
    assert(b.subrange(p1, p2) =~= s2);
    lemma_parse_sym_section_of_encoded(b, p1, m.partial, Section::Partial);
    assert(b.subrange(p2, p3) =~= s3);
    lemma_parse_sym_section_of_encoded(b, p2, m.not_found, Section::NotFound);
    assert(b.subrange(p3, p3 + ms.len() as int) =~= ms);
    lemma_parse_mappings_section_of_encoded(b, p3, m.mappings);
}

/// Law: every well-formed metadata value survives the round trip through its
/// full artifact head, and decoding reports the body offset just past it.
pub proof fn lemma_metadata_round_trip(m: MetaV)
    requires
        wf_meta(m),
    ensures
        spec_read(spec_encode_full(m)) == Ok::<(MetaV, int), DbzError>(
            (m, spec_encode_full(m).len() as int),
        ),
{
    lemma_le_round_trip();
    lemma_payload_round_trip(m);
    lemma_encode_fixed_len(m);
    let full = spec_encode_full(m);
    let payload = spec_encode_payload(m);
    assert(payload.len() >= 100);
    assert(full.subrange(0, 4) =~= spec_u32_to_le_bytes(ZSTD_MAGIC));
    assert(spec_u32_at(full, 0) == ZSTD_MAGIC);
    assert(full.subrange(4, 8) =~= spec_u32_to_le_bytes(payload.len() as u32));
    assert(spec_u32_at(full, 4) == payload.len() as u32);
    assert(full.subrange(8, 8 + payload.len() as int) =~= payload);
}

/// Law: the prelude of every encoded artifact holds the skippable-frame magic
/// in its first four bytes and the payload length in the next four.
pub proof fn lemma_prelude_invariant(m: MetaV)
    requires
        wf_meta(m),
    ensures
        spec_encode_full(m).subrange(0, 4) == spec_u32_to_le_bytes(ZSTD_MAGIC),
        spec_u32_at(spec_encode_full(m), 4) == spec_encode_payload(m).len() as u32,
{
    lemma_le_round_trip();
    let full = spec_encode_full(m);
    assert(full.subrange(0, 4) =~= spec_u32_to_le_bytes(ZSTD_MAGIC));
    assert(full.subrange(4, 8) =~= spec_u32_to_le_bytes(spec_encode_payload(m).len() as u32));
}

/// Law: in every encoded artifact, `start` sits at file offset 30, `end` at
/// 38, `limit` at 46 and `record_count` at 54.
pub proof fn lemma_fixed_offsets(m: MetaV)
    requires
        wf_meta(m),
    ensures
        spec_u64_at(spec_encode_full(m), 30) == m.start,
        spec_u64_at(spec_encode_full(m), 38) == m.end,
        spec_u64_at(spec_encode_full(m), 46) == m.limit,
        spec_u64_at(spec_encode_full(m), 54) == m.record_count,
{
    lemma_le_round_trip();
    lemma_encode_fixed_len(m);
    let full = spec_encode_full(m);
    assert(full.subrange(30, 38) =~= spec_u64_to_le_bytes(m.start));
    assert(full.subrange(38, 46) =~= spec_u64_to_le_bytes(m.end));
    assert(full.subrange(46, 54) =~= spec_u64_to_le_bytes(m.limit));
    assert(full.subrange(54, 62) =~= spec_u64_to_le_bytes(m.record_count));
}

/// Law: applying the in-place update twice gives the same bytes as applying
/// it once, and no byte outside the four fields changes.
pub proof fn lemma_update_idempotent(b: Seq<u8>, start: u64, end: u64, limit: u64, rc: u64)
    requires
        b.len() >= 62,
    ensures
        spec_update(spec_update(b, start, end, limit, rc), start, end, limit, rc) == spec_update(
            b,
            start,
            end,
            limit,
            rc,
        ),
        spec_update(b, start, end, limit, rc).len() == b.len(),
        forall|j: int|
            0 <= j < b.len() && !(30 <= j < 62) ==> spec_update(b, start, end, limit, rc)[j]
                == b[j],
{
    lemma_le_round_trip();
    let u = spec_update(b, start, end, limit, rc);
    assert(u.len() == b.len());
    assert(spec_update(u, start, end, limit, rc) =~= u);
}

/// Law: splicing new values of the four updatable fields into a well-formed
/// encoded artifact gives exactly the encoding of the same metadata with
/// those four fields replaced, so decoding it afterwards yields that value;
/// every byte outside the four fields survives.
#[verifier::rlimit(100)]
pub proof fn lemma_update_then_decode(m: MetaV, start: u64, end: u64, limit: u64, rc: u64)
    requires
        wf_meta(m),
    ensures
        spec_update(spec_encode_full(m), start, end, limit, rc) == spec_encode_full(
            MetaV { start, end, limit, record_count: rc, ..m },
        ),
        spec_read(spec_update(spec_encode_full(m), start, end, limit, rc)) == Ok::<
            (MetaV, int),
            DbzError,
        >((MetaV { start, end, limit, record_count: rc, ..m }, spec_encode_full(m).len() as int)),
{
    lemma_le_round_trip();
    let m2 = MetaV { start, end, limit, record_count: rc, ..m };
    lemma_encode_fixed_len(m);
    lemma_encode_fixed_len(m2);
    let p1 = spec_encode_payload(m);
    let p2 = spec_encode_payload(m2);
    assert(p1.len() == p2.len());
    assert(wf_meta(m2));
    let f1 = spec_encode_full(m);
    let f2 = spec_encode_full(m2);
    assert(f1.len() == f2.len());
    // the four fields sit at payload offsets 22..54, file offsets 30..62
    assert(f2.subrange(30, 38) =~= spec_u64_to_le_bytes(start));
    assert(f2.subrange(38, 46) =~= spec_u64_to_le_bytes(end));
    assert(f2.subrange(46, 54) =~= spec_u64_to_le_bytes(limit));
    assert(f2.subrange(54, 62) =~= spec_u64_to_le_bytes(rc));
    // outside them, the two artifacts agree byte for byte
    assert(f1.subrange(0, 30) =~= f2.subrange(0, 30));
    assert(f1.subrange(62, f1.len() as int) =~= f2.subrange(62, f2.len() as int));
    assert(f1.take(30) =~= f1.subrange(0, 30));
    assert(f1.skip(62) =~= f1.subrange(62, f1.len() as int));
    assert(spec_update(f1, start, end, limit, rc) =~= f2);
    lemma_metadata_round_trip(m2);
}

/// Law: every prefix of a valid artifact that is shorter than the full
/// metadata head fails to decode with a truncation error.
pub proof fn lemma_truncation_safety(m: MetaV, body: Seq<u8>, n: int)
    requires
        wf_meta(m),
        0 <= n < spec_encode_full(m).len(),
    ensures
        (spec_encode_full(m) + body).take(n).len() == n,
        spec_read((spec_encode_full(m) + body).take(n)) == Err::<(MetaV, int), DbzError>(
            DbzError::TruncatedMetadata {
                section: if n < 8 {
                    Section::Prelude
                } else {
                    Section::Frame
                },
                index: 0,
            },
        ),
{
    lemma_le_round_trip();
    lemma_encode_fixed_len(m);
    let full = spec_encode_full(m);
    let payload = spec_encode_payload(m);
    let pfx = (full + body).take(n);
    if n < 8 {
    } else {
        assert(payload.len() >= 100);
        assert(pfx.subrange(0, 4) =~= spec_u32_to_le_bytes(ZSTD_MAGIC));
        assert(spec_u32_at(pfx, 0) == ZSTD_MAGIC);
        assert(pfx.subrange(4, 8) =~= spec_u32_to_le_bytes(payload.len() as u32));
        assert(spec_u32_at(pfx, 4) == payload.len() as u32);
        assert(full.len() == 8 + payload.len());
        assert(pfx.len() < 8 + payload.len());
    }
}

} // verus!
