//! The record layout registry: the typed tick variants, their fixed sizes and
//! type IDs, and the byte codec for each. All scalars are little-endian and
//! the layouts carry no padding beyond what the fixed schema requires.

use vstd::prelude::*;
use vstd::bytes::{spec_u16_to_le_bytes, spec_u32_to_le_bytes, spec_u64_to_le_bytes};
use crate::buf::{
    lemma_i8_round_trip, lemma_le_round_trip, push_i32_le, push_i64_le, push_u16_le, push_u32_le, push_u64_le,
    read_i32_at, read_i64_at, read_u16_at, read_u32_at, read_u64_at, spec_i32_at, spec_i64_at,
    spec_u16_at, spec_u32_at, spec_u64_at,
};
use crate::enums::Schema;
use crate::errors::DbzError;

verus! {

/// Common data for every record; 16 bytes on the wire.
#[derive(Clone, Copy, Debug, PartialEq, Eq)]
pub struct RecordHeader {
    /// The length of the record in 32-bit words.
    pub length: u8,
    /// The record's type ID.
    pub rtype: u8,
    /// The publisher ID.
    pub publisher_id: u16,
    /// The product ID assigned by the venue.
    pub product_id: u32,
    /// The matching-engine timestamp, in nanoseconds since the UNIX epoch.
    pub ts_event: u64,
}

/// One book level; 32 bytes on the wire.
#[derive(Clone, Copy, Debug, PartialEq, Eq)]
pub struct BidAskPair {
    pub bid_px: i64,
    pub ask_px: i64,
    pub bid_sz: u32,
    pub ask_sz: u32,
    pub bid_ct: u32,
    pub ask_ct: u32,
}

/// A market-by-order tick; 56 bytes on the wire.
#[derive(Clone, Copy, Debug, PartialEq, Eq)]
pub struct TickMsg {
    pub hd: RecordHeader,
    pub order_id: u64,
    pub price: i64,
    pub size: u32,
    pub flags: i8,
    pub channel_id: u8,
    pub action: i8,
    pub side: i8,
    pub ts_recv: u64,
    pub ts_in_delta: i32,
    pub sequence: u32,
}

/// A trade tick (market by price with no book levels); 48 bytes on the wire.
#[derive(Clone, Copy, Debug, PartialEq, Eq)]
pub struct TradeMsg {
    pub hd: RecordHeader,
    pub price: i64,
    pub size: u32,
    pub action: i8,
    pub side: i8,
    pub flags: i8,
    pub depth: u8,
    pub ts_recv: u64,
    pub ts_in_delta: i32,
    pub sequence: u32,
}

/// Market by price with one book level; 80 bytes on the wire.
#[derive(Clone, Copy, Debug, PartialEq, Eq)]
pub struct Mbp1Msg {
    pub hd: RecordHeader,
    pub price: i64,
    pub size: u32,
    pub action: i8,
    pub side: i8,
    pub flags: i8,
    pub depth: u8,
    pub ts_recv: u64,
    pub ts_in_delta: i32,
    pub sequence: u32,
    pub booklevel: [BidAskPair; 1],
}

/// Market by price with ten book levels; 368 bytes on the wire.
#[derive(Clone, Copy, Debug, PartialEq, Eq)]
pub struct Mbp10Msg {
    pub hd: RecordHeader,
    pub price: i64,
    pub size: u32,
    pub action: i8,
    pub side: i8,
    pub flags: i8,
    pub depth: u8,
    pub ts_recv: u64,
    pub ts_in_delta: i32,
    pub sequence: u32,
    pub booklevel: [BidAskPair; 10],
}

/// An open/high/low/close/volume aggregate; 56 bytes on the wire.
#[derive(Clone, Copy, Debug, PartialEq, Eq)]
pub struct OhlcvMsg {
    pub hd: RecordHeader,
    pub open: i64,
    pub high: i64,
    pub low: i64,
    pub close: i64,
    pub volume: u64,
}

/// A typed record of any supported variant.
#[derive(Clone, Copy, Debug, PartialEq, Eq)]
pub enum Record {
    Mbo(TickMsg),
    Trade(TradeMsg),
    Mbp1(Mbp1Msg),
    Mbp10(Mbp10Msg),
    Ohlcv(OhlcvMsg),
}

/// Schemas whose records this codec can read and write.
pub open spec fn spec_schema_supported(s: Schema) -> bool {
    !(s is Definition || s is Statistics || s is Status)
}

pub fn schema_supported(s: Schema) -> (r: bool)
    ensures
        r == spec_schema_supported(s),
{
    !(matches!(s, Schema::Definition) || matches!(s, Schema::Statistics) || matches!(
        s,
        Schema::Status,
    ))
}

/// The fixed record size of each supported schema, in bytes.
pub open spec fn spec_record_size(s: Schema) -> usize {
    match s {
        Schema::Mbo => 56,
        Schema::Mbp1 => 80,
        Schema::Mbp10 => 368,
        Schema::Tbbo => 80,
        Schema::Trades => 48,
        Schema::Ohlcv1S => 56,
        Schema::Ohlcv1M => 56,
        Schema::Ohlcv1H => 56,
        Schema::Ohlcv1D => 56,
        Schema::Definition => 0,
        Schema::Statistics => 0,
        Schema::Status => 0,
    }
}

pub fn record_size(s: Schema) -> (r: usize)
    ensures
        r == spec_record_size(s),
{
    match s {
        Schema::Mbo => 56,
        Schema::Mbp1 => 80,
        Schema::Mbp10 => 368,
        Schema::Tbbo => 80,
        Schema::Trades => 48,
        Schema::Ohlcv1S => 56,
        Schema::Ohlcv1M => 56,
        Schema::Ohlcv1H => 56,
        Schema::Ohlcv1D => 56,
        Schema::Definition => 0,
        Schema::Statistics => 0,
        Schema::Status => 0,
    }
}

/// The type ID of each supported schema's record variant.
pub open spec fn spec_type_id(s: Schema) -> u8 {
    match s {
        Schema::Mbo => 0xA0,
        Schema::Mbp1 => 1,
        Schema::Mbp10 => 10,
        Schema::Tbbo => 1,
        Schema::Trades => 0,
        Schema::Ohlcv1S => 0x11,
        Schema::Ohlcv1M => 0x11,
        Schema::Ohlcv1H => 0x11,
        Schema::Ohlcv1D => 0x11,
        Schema::Definition => 0,
        Schema::Statistics => 0,
        Schema::Status => 0,
    }
}

pub fn type_id(s: Schema) -> (r: u8)
    ensures
        r == spec_type_id(s),
{
    match s {
        Schema::Mbo => 0xA0,
        Schema::Mbp1 => 1,
        Schema::Mbp10 => 10,
        Schema::Tbbo => 1,
        Schema::Trades => 0,
        Schema::Ohlcv1S => 0x11,
        Schema::Ohlcv1M => 0x11,
        Schema::Ohlcv1H => 0x11,
        Schema::Ohlcv1D => 0x11,
        Schema::Definition => 0,
        Schema::Statistics => 0,
        Schema::Status => 0,
    }
}

/// True when the record's variant is the one the schema stores.
pub open spec fn spec_record_matches_schema(r: Record, s: Schema) -> bool {
    match r {
        Record::Mbo(_) => s is Mbo,
        Record::Trade(_) => s is Trades,
        Record::Mbp1(_) => s is Mbp1 || s is Tbbo,
        Record::Mbp10(_) => s is Mbp10,
        Record::Ohlcv(_) => s is Ohlcv1S || s is Ohlcv1M || s is Ohlcv1H || s is Ohlcv1D,
    }
}

pub fn record_matches_schema(r: &Record, s: Schema) -> (b: bool)
    ensures
        b == spec_record_matches_schema(*r, s),
{
    match r {
        Record::Mbo(_) => matches!(s, Schema::Mbo),
        Record::Trade(_) => matches!(s, Schema::Trades),
        Record::Mbp1(_) => matches!(s, Schema::Mbp1) || matches!(s, Schema::Tbbo),
        Record::Mbp10(_) => matches!(s, Schema::Mbp10),
        Record::Ohlcv(_) => matches!(s, Schema::Ohlcv1S) || matches!(s, Schema::Ohlcv1M)
            || matches!(s, Schema::Ohlcv1H) || matches!(s, Schema::Ohlcv1D),
    }
}

/// The record's own header.
pub open spec fn spec_record_header(r: Record) -> RecordHeader {
    match r {
        Record::Mbo(m) => m.hd,
        Record::Trade(m) => m.hd,
        Record::Mbp1(m) => m.hd,
        Record::Mbp10(m) => m.hd,
        Record::Ohlcv(m) => m.hd,
    }
}

/// True when the record is of the schema's variant and its header carries the
/// schema's type ID and length-in-words.
pub open spec fn spec_record_conforms(r: Record, s: Schema) -> bool {
    &&& spec_record_matches_schema(r, s)
    &&& spec_record_header(r).rtype == spec_type_id(s)
    &&& 4 * (spec_record_header(r).length as int) == spec_record_size(s) as int
}

pub fn record_conforms(r: &Record, s: Schema) -> (b: bool)
    ensures
        b == spec_record_conforms(*r, s),
{
    let hd = match r {
        Record::Mbo(m) => m.hd,
        Record::Trade(m) => m.hd,
        Record::Mbp1(m) => m.hd,
        Record::Mbp10(m) => m.hd,
        Record::Ohlcv(m) => m.hd,
    };
    record_matches_schema(r, s) && hd.rtype == type_id(s) && 4 * (hd.length as usize)
        == record_size(s)
}

/// True when a chunk's first two bytes carry the schema's length-in-words and
/// type ID.
pub open spec fn spec_chunk_ok(s: Schema, b: Seq<u8>) -> bool {
    &&& b[1] == spec_type_id(s)
    &&& 4 * (b[0] as int) == spec_record_size(s) as int
}

// Encoding: each record is the concatenation of its fields' little-endian
// bytes, in declaration order.
pub open spec fn spec_encode_header(h: RecordHeader) -> Seq<u8> {
    seq![h.length, h.rtype] + spec_u16_to_le_bytes(h.publisher_id) + spec_u32_to_le_bytes(
        h.product_id,
    ) + spec_u64_to_le_bytes(h.ts_event)
}

pub open spec fn spec_encode_pair(p: BidAskPair) -> Seq<u8> {
    spec_u64_to_le_bytes(p.bid_px as u64) + spec_u64_to_le_bytes(p.ask_px as u64)
        + spec_u32_to_le_bytes(p.bid_sz) + spec_u32_to_le_bytes(p.ask_sz) + spec_u32_to_le_bytes(
        p.bid_ct,
    ) + spec_u32_to_le_bytes(p.ask_ct)
}

pub open spec fn spec_encode_tick(m: TickMsg) -> Seq<u8> {
    spec_encode_header(m.hd) + spec_u64_to_le_bytes(m.order_id) + spec_u64_to_le_bytes(
        m.price as u64,
    ) + spec_u32_to_le_bytes(m.size) + seq![m.flags as u8, m.channel_id, m.action as u8, m.side as u8]
        + spec_u64_to_le_bytes(m.ts_recv) + spec_u32_to_le_bytes(m.ts_in_delta as u32)
        + spec_u32_to_le_bytes(m.sequence)
}

/// The fields shared by the market-by-price variants, after the header.
pub open spec fn spec_encode_mbp_body(
    price: i64,
    size: u32,
    action: i8,
    side: i8,
    flags: i8,
    depth: u8,
    ts_recv: u64,
    ts_in_delta: i32,
    sequence: u32,
) -> Seq<u8> {
    spec_u64_to_le_bytes(price as u64) + spec_u32_to_le_bytes(size) + seq![
        action as u8,
        side as u8,
        flags as u8,
        depth,
    ] + spec_u64_to_le_bytes(ts_recv) + spec_u32_to_le_bytes(ts_in_delta as u32)
        + spec_u32_to_le_bytes(sequence)
}

pub open spec fn spec_encode_trade(m: TradeMsg) -> Seq<u8> {
    spec_encode_header(m.hd) + spec_encode_mbp_body(
        m.price,
        m.size,
        m.action,
        m.side,
        m.flags,
        m.depth,
        m.ts_recv,
        m.ts_in_delta,
        m.sequence,
    )
}

pub open spec fn spec_encode_mbp1(m: Mbp1Msg) -> Seq<u8> {
    spec_encode_header(m.hd) + spec_encode_mbp_body(
        m.price,
        m.size,
        m.action,
        m.side,
        m.flags,
        m.depth,
        m.ts_recv,
        m.ts_in_delta,
        m.sequence,
    ) + spec_encode_pair(m.booklevel[0])
}

pub open spec fn spec_encode_mbp10(m: Mbp10Msg) -> Seq<u8> {
    spec_encode_header(m.hd) + spec_encode_mbp_body(
        m.price,
        m.size,
        m.action,
        m.side,
        m.flags,
        m.depth,
        m.ts_recv,
        m.ts_in_delta,
        m.sequence,
    ) + spec_encode_pair(m.booklevel[0]) + spec_encode_pair(m.booklevel[1]) + spec_encode_pair(
        m.booklevel[2],
    ) + spec_encode_pair(m.booklevel[3]) + spec_encode_pair(m.booklevel[4]) + spec_encode_pair(
        m.booklevel[5],
    ) + spec_encode_pair(m.booklevel[6]) + spec_encode_pair(m.booklevel[7]) + spec_encode_pair(
        m.booklevel[8],
    ) + spec_encode_pair(m.booklevel[9])
}

pub open spec fn spec_encode_ohlcv(m: OhlcvMsg) -> Seq<u8> {
    spec_encode_header(m.hd) + spec_u64_to_le_bytes(m.open as u64) + spec_u64_to_le_bytes(
        m.high as u64,
    ) + spec_u64_to_le_bytes(m.low as u64) + spec_u64_to_le_bytes(m.close as u64)
        + spec_u64_to_le_bytes(m.volume)
}

pub open spec fn spec_encode_record(r: Record) -> Seq<u8> {
    match r {
        Record::Mbo(m) => spec_encode_tick(m),
        Record::Trade(m) => spec_encode_trade(m),
        Record::Mbp1(m) => spec_encode_mbp1(m),
        Record::Mbp10(m) => spec_encode_mbp10(m),
        Record::Ohlcv(m) => spec_encode_ohlcv(m),
    }
}

// Parsing: each field is read back from its fixed offset.
pub open spec fn spec_parse_header(b: Seq<u8>) -> RecordHeader {
    RecordHeader {
        length: b[0],
        rtype: b[1],
        publisher_id: spec_u16_at(b, 2),
        product_id: spec_u32_at(b, 4),
        ts_event: spec_u64_at(b, 8),
    }
}

pub open spec fn spec_parse_pair(b: Seq<u8>, off: int) -> BidAskPair {
    BidAskPair {
        bid_px: spec_i64_at(b, off),
        ask_px: spec_i64_at(b, off + 8),
        bid_sz: spec_u32_at(b, off + 16),
        ask_sz: spec_u32_at(b, off + 20),
        bid_ct: spec_u32_at(b, off + 24),
        ask_ct: spec_u32_at(b, off + 28),
    }
}

pub open spec fn spec_parse_tick(b: Seq<u8>) -> TickMsg {
    TickMsg {
        hd: spec_parse_header(b),
        order_id: spec_u64_at(b, 16),
        price: spec_i64_at(b, 24),
        size: spec_u32_at(b, 32),
        flags: b[36] as i8,
        channel_id: b[37],
        action: b[38] as i8,
        side: b[39] as i8,
        ts_recv: spec_u64_at(b, 40),
        ts_in_delta: spec_i32_at(b, 48),
        sequence: spec_u32_at(b, 52),
    }
}

pub open spec fn spec_parse_trade(b: Seq<u8>) -> TradeMsg {
    TradeMsg {
        hd: spec_parse_header(b),
        price: spec_i64_at(b, 16),
        size: spec_u32_at(b, 24),
        action: b[28] as i8,
        side: b[29] as i8,
        flags: b[30] as i8,
        depth: b[31],
        ts_recv: spec_u64_at(b, 32),
        ts_in_delta: spec_i32_at(b, 40),
        sequence: spec_u32_at(b, 44),
    }
}

pub open spec fn spec_parse_mbp1(b: Seq<u8>) -> Mbp1Msg {
    Mbp1Msg {
        hd: spec_parse_header(b),
        price: spec_i64_at(b, 16),
        size: spec_u32_at(b, 24),
        action: b[28] as i8,
        side: b[29] as i8,
        flags: b[30] as i8,
        depth: b[31],
        ts_recv: spec_u64_at(b, 32),
        ts_in_delta: spec_i32_at(b, 40),
        sequence: spec_u32_at(b, 44),
        booklevel: [spec_parse_pair(b, 48)],
    }
}

pub open spec fn spec_parse_mbp10(b: Seq<u8>) -> Mbp10Msg {
    Mbp10Msg {
        hd: spec_parse_header(b),
        price: spec_i64_at(b, 16),
        size: spec_u32_at(b, 24),
        action: b[28] as i8,
        side: b[29] as i8,
        flags: b[30] as i8,
        depth: b[31],
        ts_recv: spec_u64_at(b, 32),
        ts_in_delta: spec_i32_at(b, 40),
        sequence: spec_u32_at(b, 44),
        booklevel: [
            spec_parse_pair(b, 48),
            spec_parse_pair(b, 80),
            spec_parse_pair(b, 112),
            spec_parse_pair(b, 144),
            spec_parse_pair(b, 176),
            spec_parse_pair(b, 208),
            spec_parse_pair(b, 240),
            spec_parse_pair(b, 272),
            spec_parse_pair(b, 304),
            spec_parse_pair(b, 336),
        ],
    }
}

pub open spec fn spec_parse_ohlcv(b: Seq<u8>) -> OhlcvMsg {
    OhlcvMsg {
        hd: spec_parse_header(b),
        open: spec_i64_at(b, 16),
        high: spec_i64_at(b, 24),
        low: spec_i64_at(b, 32),
        close: spec_i64_at(b, 40),
        volume: spec_u64_at(b, 48),
    }
}

/// The record a chunk of the schema's fixed size holds.
pub open spec fn spec_parse_record(s: Schema, b: Seq<u8>) -> Record {
    match s {
        Schema::Mbo => Record::Mbo(spec_parse_tick(b)),
        Schema::Trades => Record::Trade(spec_parse_trade(b)),
        Schema::Mbp1 => Record::Mbp1(spec_parse_mbp1(b)),
        Schema::Tbbo => Record::Mbp1(spec_parse_mbp1(b)),
        Schema::Mbp10 => Record::Mbp10(spec_parse_mbp10(b)),
        _ => Record::Ohlcv(spec_parse_ohlcv(b)),
    }
}

fn read_pair(buf: &[u8], off: usize) -> (r: BidAskPair)
    requires
        off + 32 <= buf@.len(),
    ensures
        r == spec_parse_pair(buf@, off as int),
{
    let n = buf.len();
    BidAskPair {
        bid_px: read_i64_at(buf, off),
        ask_px: read_i64_at(buf, off + 8),
        bid_sz: read_u32_at(buf, off + 16),
        ask_sz: read_u32_at(buf, off + 20),
        bid_ct: read_u32_at(buf, off + 24),
        ask_ct: read_u32_at(buf, off + 28),
    }
}

impl Record {
    /// The record's common header.
    pub fn header(&self) -> (h: RecordHeader)
        ensures
            h == spec_record_header(*self),
    {
        match self {
            Record::Mbo(m) => m.hd,
            Record::Trade(m) => m.hd,
            Record::Mbp1(m) => m.hd,
            Record::Mbp10(m) => m.hd,
            Record::Ohlcv(m) => m.hd,
        }
    }

    /// Construct the schema's record variant from a chunk of its fixed size.
    /// Fails exactly when the chunk's header bytes do not carry the schema's
    /// type ID and length-in-words.
    pub fn from_bytes(schema: Schema, buf: &[u8]) -> (r: Result<Record, DbzError>)
        requires
            spec_schema_supported(schema),
            buf@.len() == spec_record_size(schema),
        ensures
            spec_chunk_ok(schema, buf@) ==> r == Ok::<Record, DbzError>(
                spec_parse_record(schema, buf@),
            ),
            !spec_chunk_ok(schema, buf@) ==> r == Err::<Record, DbzError>(
                DbzError::TypeMismatch { expected: spec_type_id(schema), found: buf@[1] },
            ),
    {
        let tid = type_id(schema);
        let size = record_size(schema);
        let lenw = buf[0];
        let found = buf[1];
        if found != tid || (lenw as usize) * 4 != size {
            return Err(DbzError::TypeMismatch { expected: tid, found });
        }
        let hd = RecordHeader {
            length: lenw,
            rtype: found,
            publisher_id: read_u16_at(buf, 2),
            product_id: read_u32_at(buf, 4),
            ts_event: read_u64_at(buf, 8),
        };
        match schema {
            Schema::Mbo => Ok(
                Record::Mbo(
                    TickMsg {
                        hd,
                        order_id: read_u64_at(buf, 16),
                        price: read_i64_at(buf, 24),
                        size: read_u32_at(buf, 32),
                        flags: buf[36] as i8,
                        channel_id: buf[37],
                        action: buf[38] as i8,
                        side: buf[39] as i8,
                        ts_recv: read_u64_at(buf, 40),
                        ts_in_delta: read_i32_at(buf, 48),
                        sequence: read_u32_at(buf, 52),
                    },
                ),
            ),
            Schema::Trades => Ok(
                Record::Trade(
                    TradeMsg {
                        hd,
                        price: read_i64_at(buf, 16),
                        size: read_u32_at(buf, 24),
                        action: buf[28] as i8,
                        side: buf[29] as i8,
                        flags: buf[30] as i8,
                        depth: buf[31],
                        ts_recv: read_u64_at(buf, 32),
                        ts_in_delta: read_i32_at(buf, 40),
                        sequence: read_u32_at(buf, 44),
                    },
                ),
            ),
            Schema::Mbp1 | Schema::Tbbo => Ok(
                Record::Mbp1(
                    Mbp1Msg {
                        hd,
                        price: read_i64_at(buf, 16),
                        size: read_u32_at(buf, 24),
                        action: buf[28] as i8,
                        side: buf[29] as i8,
                        flags: buf[30] as i8,
                        depth: buf[31],
                        ts_recv: read_u64_at(buf, 32),
                        ts_in_delta: read_i32_at(buf, 40),
                        sequence: read_u32_at(buf, 44),
                        booklevel: [read_pair(buf, 48)],
                    },
                ),
            ),
            Schema::Mbp10 => Ok(
                Record::Mbp10(
                    Mbp10Msg {
                        hd,
                        price: read_i64_at(buf, 16),
                        size: read_u32_at(buf, 24),
                        action: buf[28] as i8,
                        side: buf[29] as i8,
                        flags: buf[30] as i8,
                        depth: buf[31],
                        ts_recv: read_u64_at(buf, 32),
                        ts_in_delta: read_i32_at(buf, 40),
                        sequence: read_u32_at(buf, 44),
                        booklevel: [
                            read_pair(buf, 48),
                            read_pair(buf, 80),
                            read_pair(buf, 112),
                            read_pair(buf, 144),
                            read_pair(buf, 176),
                            read_pair(buf, 208),
                            read_pair(buf, 240),
                            read_pair(buf, 272),
                            read_pair(buf, 304),
                            read_pair(buf, 336),
                        ],
                    },
                ),
            ),
            _ => Ok(
                Record::Ohlcv(
                    OhlcvMsg {
                        hd,
                        open: read_i64_at(buf, 16),
                        high: read_i64_at(buf, 24),
                        low: read_i64_at(buf, 32),
                        close: read_i64_at(buf, 40),
                        volume: read_u64_at(buf, 48),
                    },
                ),
            ),
        }
    }
}

fn push_header(out: &mut Vec<u8>, h: &RecordHeader)
    ensures
        final(out)@ == old(out)@ + spec_encode_header(*h),
{
    out.push(h.length);
    out.push(h.rtype);
    push_u16_le(out, h.publisher_id);
    push_u32_le(out, h.product_id);
    push_u64_le(out, h.ts_event);
    proof {
        assert(out@ =~= old(out)@ + spec_encode_header(*h));
    }
}

fn push_pair(out: &mut Vec<u8>, p: &BidAskPair)
    ensures
        final(out)@ == old(out)@ + spec_encode_pair(*p),
{
    push_i64_le(out, p.bid_px);
    push_i64_le(out, p.ask_px);
    push_u32_le(out, p.bid_sz);
    push_u32_le(out, p.ask_sz);
    push_u32_le(out, p.bid_ct);
    push_u32_le(out, p.ask_ct);
    proof {
        assert(out@ =~= old(out)@ + spec_encode_pair(*p));
    }
}

/// Append the record's wire bytes to `out`.
#[verifier::rlimit(100)]
pub fn push_record(out: &mut Vec<u8>, r: &Record)
    ensures
        final(out)@ == old(out)@ + spec_encode_record(*r),
{
    match r {
        Record::Mbo(m) => {
            push_header(out, &m.hd);
            push_u64_le(out, m.order_id);
            push_i64_le(out, m.price);
            push_u32_le(out, m.size);
            out.push(m.flags as u8);
            out.push(m.channel_id);
            out.push(m.action as u8);
            out.push(m.side as u8);
            push_u64_le(out, m.ts_recv);
            push_i32_le(out, m.ts_in_delta);
            push_u32_le(out, m.sequence);
            proof {
                assert(out@ =~= old(out)@ + spec_encode_record(*r));
            }
        },
        Record::Trade(m) => {
            push_header(out, &m.hd);
            push_i64_le(out, m.price);
            push_u32_le(out, m.size);
            out.push(m.action as u8);
            out.push(m.side as u8);
            out.push(m.flags as u8);
            out.push(m.depth);
            push_u64_le(out, m.ts_recv);
            push_i32_le(out, m.ts_in_delta);
            push_u32_le(out, m.sequence);
            proof {
                assert(out@ =~= old(out)@ + spec_encode_record(*r));
            }
        },
        Record::Mbp1(m) => {
            push_header(out, &m.hd);
            push_i64_le(out, m.price);
            push_u32_le(out, m.size);
            out.push(m.action as u8);
            out.push(m.side as u8);
            out.push(m.flags as u8);
            out.push(m.depth);
            push_u64_le(out, m.ts_recv);
            push_i32_le(out, m.ts_in_delta);
            push_u32_le(out, m.sequence);
            push_pair(out, &m.booklevel[0]);
            proof {
                assert(out@ =~= old(out)@ + spec_encode_record(*r));
            }
        },
        Record::Mbp10(m) => {
            push_header(out, &m.hd);
            push_i64_le(out, m.price);
            push_u32_le(out, m.size);
            out.push(m.action as u8);
            out.push(m.side as u8);
            out.push(m.flags as u8);
            out.push(m.depth);
            push_u64_le(out, m.ts_recv);
            push_i32_le(out, m.ts_in_delta);
            push_u32_le(out, m.sequence);
            push_pair(out, &m.booklevel[0]);
            push_pair(out, &m.booklevel[1]);
            push_pair(out, &m.booklevel[2]);
            push_pair(out, &m.booklevel[3]);
            push_pair(out, &m.booklevel[4]);
            push_pair(out, &m.booklevel[5]);
            push_pair(out, &m.booklevel[6]);
            push_pair(out, &m.booklevel[7]);
            push_pair(out, &m.booklevel[8]);
            push_pair(out, &m.booklevel[9]);
            proof {
                assert(out@ =~= old(out)@ + spec_encode_record(*r));
            }
        },
        Record::Ohlcv(m) => {
            push_header(out, &m.hd);
            push_i64_le(out, m.open);
            push_i64_le(out, m.high);
            push_i64_le(out, m.low);
            push_i64_le(out, m.close);
            push_u64_le(out, m.volume);
            proof {
                assert(out@ =~= old(out)@ + spec_encode_record(*r));
            }
        },
    }
}

/// Reading a book level back from its encoded bytes inside `b` returns it.
proof fn lemma_pair_at(b: Seq<u8>, off: int, p: BidAskPair)
    requires
        0 <= off,
        off + 32 <= b.len(),
        b.subrange(off, off + 32) == spec_encode_pair(p),
    ensures
        spec_parse_pair(b, off) == p,
{
    lemma_le_round_trip();
    let e = spec_encode_pair(p);
    assert(b.subrange(off, off + 8) =~= e.subrange(0, 8));
    assert(e.subrange(0, 8) =~= spec_u64_to_le_bytes(p.bid_px as u64));
    assert(b.subrange(off + 8, off + 16) =~= e.subrange(8, 16));
    assert(e.subrange(8, 16) =~= spec_u64_to_le_bytes(p.ask_px as u64));
    assert(b.subrange(off + 16, off + 20) =~= e.subrange(16, 20));
    assert(e.subrange(16, 20) =~= spec_u32_to_le_bytes(p.bid_sz));
    assert(b.subrange(off + 20, off + 24) =~= e.subrange(20, 24));
    assert(e.subrange(20, 24) =~= spec_u32_to_le_bytes(p.ask_sz));
    assert(b.subrange(off + 24, off + 28) =~= e.subrange(24, 28));
    assert(e.subrange(24, 28) =~= spec_u32_to_le_bytes(p.bid_ct));
    assert(b.subrange(off + 28, off + 32) =~= e.subrange(28, 32));
    assert(e.subrange(28, 32) =~= spec_u32_to_le_bytes(p.ask_ct));
}

/// Reading a header back from the first sixteen bytes of its encoding
/// returns it.
proof fn lemma_header_at(b: Seq<u8>, h: RecordHeader)
    requires
        b.len() >= 16,
        b.subrange(0, 16) == spec_encode_header(h),
    ensures
        spec_parse_header(b) == h,
{
    lemma_le_round_trip();
    let e = spec_encode_header(h);
    assert(b[0] == e[0] && b[1] == e[1]);
    assert(b.subrange(2, 4) =~= e.subrange(2, 4));
    assert(e.subrange(2, 4) =~= spec_u16_to_le_bytes(h.publisher_id));
    assert(b.subrange(4, 8) =~= e.subrange(4, 8));
    assert(e.subrange(4, 8) =~= spec_u32_to_le_bytes(h.product_id));
    assert(b.subrange(8, 16) =~= e.subrange(8, 16));
    assert(e.subrange(8, 16) =~= spec_u64_to_le_bytes(h.ts_event));
}

proof fn lemma_mbo_round_trip(m: TickMsg)
    ensures
        spec_encode_tick(m).len() == 56,
        spec_parse_tick(spec_encode_tick(m)) == m,
{
    broadcast use vstd::array::group_array_axioms;

    lemma_le_round_trip();
    let b = spec_encode_tick(m);
    assert(b.subrange(0, 16) =~= spec_encode_header(m.hd));
    lemma_header_at(b, m.hd);
    assert(b.subrange(16, 24) =~= spec_u64_to_le_bytes(m.order_id));
    assert(b.subrange(24, 32) =~= spec_u64_to_le_bytes(m.price as u64));
    assert(b.subrange(32, 36) =~= spec_u32_to_le_bytes(m.size));
    assert(b[36] == m.flags as u8 && b[37] == m.channel_id && b[38] == m.action as u8
        && b[39] == m.side as u8);
    lemma_i8_round_trip(m.flags);
    lemma_i8_round_trip(m.action);
    lemma_i8_round_trip(m.side);
    assert(b.subrange(40, 48) =~= spec_u64_to_le_bytes(m.ts_recv));
    assert(b.subrange(48, 52) =~= spec_u32_to_le_bytes(m.ts_in_delta as u32));
    assert(b.subrange(52, 56) =~= spec_u32_to_le_bytes(m.sequence));
    assert(spec_parse_tick(b) == m);
}

proof fn lemma_trade_round_trip(m: TradeMsg)
    ensures
        spec_encode_trade(m).len() == 48,
        spec_parse_trade(spec_encode_trade(m)) == m,
{
    broadcast use vstd::array::group_array_axioms;

    lemma_le_round_trip();
    let b = spec_encode_trade(m);
    assert(b.subrange(0, 16) =~= spec_encode_header(m.hd));
    lemma_header_at(b, m.hd);
    assert(b.subrange(16, 24) =~= spec_u64_to_le_bytes(m.price as u64));
    assert(b.subrange(24, 28) =~= spec_u32_to_le_bytes(m.size));
    assert(b[28] == m.action as u8 && b[29] == m.side as u8 && b[30] == m.flags as u8
        && b[31] == m.depth);
    lemma_i8_round_trip(m.action);
    lemma_i8_round_trip(m.side);
    lemma_i8_round_trip(m.flags);
    assert(b.subrange(32, 40) =~= spec_u64_to_le_bytes(m.ts_recv));
    assert(b.subrange(40, 44) =~= spec_u32_to_le_bytes(m.ts_in_delta as u32));
    assert(b.subrange(44, 48) =~= spec_u32_to_le_bytes(m.sequence));
    assert(spec_parse_trade(b) == m);
}

proof fn lemma_mbp1_round_trip(m: Mbp1Msg)
    ensures
        spec_encode_mbp1(m).len() == 80,
        spec_parse_mbp1(spec_encode_mbp1(m)) == m,
{
    broadcast use vstd::array::group_array_axioms;

    lemma_le_round_trip();
    let b = spec_encode_mbp1(m);
    assert(b.subrange(0, 16) =~= spec_encode_header(m.hd));
    lemma_header_at(b, m.hd);
    assert(b.subrange(16, 24) =~= spec_u64_to_le_bytes(m.price as u64));
    assert(b.subrange(24, 28) =~= spec_u32_to_le_bytes(m.size));
    assert(b[28] == m.action as u8 && b[29] == m.side as u8 && b[30] == m.flags as u8
        && b[31] == m.depth);
    lemma_i8_round_trip(m.action);
    lemma_i8_round_trip(m.side);
    lemma_i8_round_trip(m.flags);
    assert(b.subrange(32, 40) =~= spec_u64_to_le_bytes(m.ts_recv));
    assert(b.subrange(40, 44) =~= spec_u32_to_le_bytes(m.ts_in_delta as u32));
    assert(b.subrange(44, 48) =~= spec_u32_to_le_bytes(m.sequence));
    assert(b.subrange(48, 80) =~= spec_encode_pair(m.booklevel[0]));
    lemma_pair_at(b, 48, m.booklevel[0]);
    assert(spec_parse_mbp1(b).booklevel =~= m.booklevel);
    assert(spec_parse_mbp1(b) == m);
}

proof fn lemma_mbp10_round_trip(m: Mbp10Msg)
    ensures
        spec_encode_mbp10(m).len() == 368,
        spec_parse_mbp10(spec_encode_mbp10(m)) == m,
{
    broadcast use vstd::array::group_array_axioms;

    lemma_le_round_trip();
    let b = spec_encode_mbp10(m);
    assert(b.subrange(0, 16) =~= spec_encode_header(m.hd));
    lemma_header_at(b, m.hd);
    assert(b.subrange(16, 24) =~= spec_u64_to_le_bytes(m.price as u64));
    assert(b.subrange(24, 28) =~= spec_u32_to_le_bytes(m.size));
    assert(b[28] == m.action as u8 && b[29] == m.side as u8 && b[30] == m.flags as u8
        && b[31] == m.depth);
    lemma_i8_round_trip(m.action);
    lemma_i8_round_trip(m.side);
    lemma_i8_round_trip(m.flags);
    assert(b.subrange(32, 40) =~= spec_u64_to_le_bytes(m.ts_recv));
    assert(b.subrange(40, 44) =~= spec_u32_to_le_bytes(m.ts_in_delta as u32));
    assert(b.subrange(44, 48) =~= spec_u32_to_le_bytes(m.sequence));
    assert(b.subrange(48, 80) =~= spec_encode_pair(m.booklevel[0]));
    lemma_pair_at(b, 48, m.booklevel[0]);
    assert(b.subrange(80, 112) =~= spec_encode_pair(m.booklevel[1]));
    lemma_pair_at(b, 80, m.booklevel[1]);
    assert(b.subrange(112, 144) =~= spec_encode_pair(m.booklevel[2]));
    lemma_pair_at(b, 112, m.booklevel[2]);
    assert(b.subrange(144, 176) =~= spec_encode_pair(m.booklevel[3]));
    lemma_pair_at(b, 144, m.booklevel[3]);
    assert(b.subrange(176, 208) =~= spec_encode_pair(m.booklevel[4]));
    lemma_pair_at(b, 176, m.booklevel[4]);
    assert(b.subrange(208, 240) =~= spec_encode_pair(m.booklevel[5]));
    lemma_pair_at(b, 208, m.booklevel[5]);
    assert(b.subrange(240, 272) =~= spec_encode_pair(m.booklevel[6]));
    lemma_pair_at(b, 240, m.booklevel[6]);
    assert(b.subrange(272, 304) =~= spec_encode_pair(m.booklevel[7]));
    lemma_pair_at(b, 272, m.booklevel[7]);
    assert(b.subrange(304, 336) =~= spec_encode_pair(m.booklevel[8]));
    lemma_pair_at(b, 304, m.booklevel[8]);
    assert(b.subrange(336, 368) =~= spec_encode_pair(m.booklevel[9]));
    lemma_pair_at(b, 336, m.booklevel[9]);
    assert(spec_parse_mbp10(b).booklevel =~= m.booklevel);
    assert(spec_parse_mbp10(b) == m);
}

proof fn lemma_ohlcv_round_trip(m: OhlcvMsg)
    ensures
        spec_encode_ohlcv(m).len() == 56,
        spec_parse_ohlcv(spec_encode_ohlcv(m)) == m,
{
    broadcast use vstd::array::group_array_axioms;

    lemma_le_round_trip();
    let b = spec_encode_ohlcv(m);
    assert(b.subrange(0, 16) =~= spec_encode_header(m.hd));
    lemma_header_at(b, m.hd);
    assert(b.subrange(16, 24) =~= spec_u64_to_le_bytes(m.open as u64));
    assert(b.subrange(24, 32) =~= spec_u64_to_le_bytes(m.high as u64));
    assert(b.subrange(32, 40) =~= spec_u64_to_le_bytes(m.low as u64));
    assert(b.subrange(40, 48) =~= spec_u64_to_le_bytes(m.close as u64));
    assert(b.subrange(48, 56) =~= spec_u64_to_le_bytes(m.volume));
    assert(spec_parse_ohlcv(b) == m);
}

/// Law: every record of the schema's variant survives the round trip through
/// its wire bytes, the encoding has the schema's fixed size, and the encoded
/// header bytes pass the chunk check exactly when the record's header
/// conforms to the schema.
pub proof fn lemma_record_round_trip(r: Record, s: Schema)
    requires
        spec_record_matches_schema(r, s),
    ensures
        spec_encode_record(r).len() == spec_record_size(s),
        spec_parse_record(s, spec_encode_record(r)) == r,
        spec_chunk_ok(s, spec_encode_record(r)) <==> spec_record_conforms(r, s),
{
    let b = spec_encode_record(r);
    match r {
        Record::Mbo(m) => {
            lemma_mbo_round_trip(m);
            assert(b[0] == m.hd.length && b[1] == m.hd.rtype);
        },
        Record::Trade(m) => {
            lemma_trade_round_trip(m);
            assert(b[0] == m.hd.length && b[1] == m.hd.rtype);
        },
        Record::Mbp1(m) => {
            lemma_mbp1_round_trip(m);
            assert(b[0] == m.hd.length && b[1] == m.hd.rtype);
        },
        Record::Mbp10(m) => {
            lemma_mbp10_round_trip(m);
            assert(b[0] == m.hd.length && b[1] == m.hd.rtype);
        },
        Record::Ohlcv(m) => {
            lemma_ohlcv_round_trip(m);
            assert(b[0] == m.hd.length && b[1] == m.hd.rtype);
        },
    }
}

} // verus!
