use dbz::date::Date;
use dbz::dbz::{decode_metadata, update_encoded_metadata, write_dbz, write_dbz_file, Dbz};
use dbz::enums::{Compression, SType, Schema};
use dbz::errors::{DatePart, DbzError, Section};
use dbz::metadata::{MappingInterval, Metadata, SymbolMapping, SYMBOL_CSTR_LEN};
use dbz::record::{BidAskPair, Mbp10Msg, Mbp1Msg, OhlcvMsg, Record, RecordHeader, TickMsg, TradeMsg};

#[test]
fn test_decode_symbol() {
    let bytes = b"SPX.1.2\0\0\0\0\0\0\0\0\0\0\0\0\0\0\0";
    assert_eq!(bytes.len(), SYMBOL_CSTR_LEN);
    let mut pos = 0;
    let res = Metadata::decode_symbol(bytes.as_slice(), &mut pos).unwrap();
    assert_eq!(pos, SYMBOL_CSTR_LEN);
    assert_eq!(&res, "SPX.1.2");
}

#[test]
fn test_decode_symbol_invalid_utf8() {
    const BYTES: [u8; 22] = [
        // continuation byte
        0x80, 0, 0, 0, 0, 0, 0, 0, 0, 0, 0, 0, 0, 0, 0, 0, 0, 0, 0, 0, 0, 0,
    ];
    let mut pos = 0;
    let res = Metadata::decode_symbol(BYTES.as_slice(), &mut pos);
    assert!(matches!(res, Err(e) if e.describe().contains("Failed to decode bytes [")));
}

#[test]
fn test_decode_iso8601_valid() {
    let res = Metadata::decode_iso8601(20151031).unwrap();
    let exp = Date { year: 2015, month: 10, day: 31 };
    assert_eq!(res, exp);
}

#[test]
fn test_decode_iso8601_invalid_month() {
    let res = Metadata::decode_iso8601(20101305);
    assert!(matches!(res, Err(e) if e.describe().contains("Invalid month")));
}

#[test]
fn test_decode_iso8601_invalid_day() {
    let res = Metadata::decode_iso8601(20100600);
    assert!(matches!(res, Err(e) if e.describe().contains("a valid date")));
}

fn sample_metadata() -> Metadata {
    Metadata {
        version: 1,
        dataset: "GLBX.MDP3".to_owned(),
        schema: Schema::Mbp10,
        start: 1609160400000000000,
        end: 1609200000000000000,
        limit: 0,
        record_count: 2,
        compression: Compression::ZStd,
        stype_in: SType::Native,
        stype_out: SType::ProductId,
        symbols: vec!["ESH1".to_owned(), "ESM1".to_owned()],
        partial: vec!["ESU1".to_owned()],
        not_found: vec!["ESZ1".to_owned()],
        mappings: vec![SymbolMapping {
            native: "ES.0".to_owned(),
            intervals: vec![MappingInterval {
                start_date: Date { year: 2020, month: 12, day: 28 },
                end_date: Date { year: 2021, month: 3, day: 19 },
                symbol: "ESH1".to_owned(),
            }],
        }],
    }
}

#[test]
fn metadata_round_trip() {
    let meta = sample_metadata();
    let bytes = meta.encode().unwrap();
    let decoded = decode_metadata(bytes.as_slice()).unwrap();
    assert_eq!(decoded, meta);
}

#[test]
fn metadata_round_trip_empty_sections() {
    let meta = Metadata {
        symbols: vec![],
        partial: vec![],
        not_found: vec![],
        mappings: vec![],
        ..sample_metadata()
    };
    let bytes = meta.encode().unwrap();
    let decoded = decode_metadata(bytes.as_slice()).unwrap();
    assert_eq!(decoded, meta);
}

#[test]
fn prelude_invariance() {
    let bytes = sample_metadata().encode().unwrap();
    assert_eq!(&bytes[0..4], &0x184D2A50u32.to_le_bytes());
    let frame = u32::from_le_bytes([bytes[4], bytes[5], bytes[6], bytes[7]]) as usize;
    assert_eq!(frame, bytes.len() - 8);
}

#[test]
fn fixed_offsets() {
    let meta = sample_metadata();
    let bytes = meta.encode().unwrap();
    let u64_at = |off: usize| {
        let mut a = [0u8; 8];
        a.copy_from_slice(&bytes[off..off + 8]);
        u64::from_le_bytes(a)
    };
    assert_eq!(u64_at(30), meta.start);
    assert_eq!(u64_at(38), meta.end);
    assert_eq!(u64_at(46), meta.limit);
    assert_eq!(u64_at(54), meta.record_count);
}

#[test]
fn update_idempotence() {
    let mut once = sample_metadata().encode().unwrap();
    let orig = once.clone();
    Metadata::update_encoded(&mut once, 7, 8, 9, 10).unwrap();
    let mut twice = once.clone();
    Metadata::update_encoded(&mut twice, 7, 8, 9, 10).unwrap();
    assert_eq!(once, twice);
    assert_eq!(once.len(), orig.len());
    for j in 0..orig.len() {
        if !(30 <= j && j < 62) {
            assert_eq!(once[j], orig[j]);
        }
    }
    let decoded = decode_metadata(once.as_slice()).unwrap();
    assert_eq!(decoded.start, 7);
    assert_eq!(decoded.end, 8);
    assert_eq!(decoded.limit, 9);
    assert_eq!(decoded.record_count, 10);
}

#[test]
fn update_encoded_too_short() {
    let mut buf = vec![0u8; 61];
    let before = buf.clone();
    let res = update_encoded_metadata(&mut buf, 1, 2, None, 4);
    assert!(matches!(res, Err(DbzError::TruncatedMetadata { .. })));
    assert_eq!(buf, before);
}

#[test]
fn enum_closure() {
    let schemas = vec![
        Schema::Mbo,
        Schema::Mbp1,
        Schema::Mbp10,
        Schema::Tbbo,
        Schema::Trades,
        Schema::Ohlcv1S,
        Schema::Ohlcv1M,
        Schema::Ohlcv1H,
        Schema::Ohlcv1D,
        Schema::Definition,
        Schema::Statistics,
        Schema::Status,
    ];
    for s in schemas {
        assert_eq!(Schema::from_numeric(s.to_numeric()).unwrap(), s);
        assert_eq!(Schema::parse(s.as_text()).unwrap(), s);
    }
    for t in vec![SType::ProductId, SType::Native, SType::Smart] {
        assert_eq!(SType::from_numeric(t.to_numeric()).unwrap(), t);
        assert_eq!(SType::parse(t.as_text()).unwrap(), t);
    }
    for c in vec![Compression::Uncompressed, Compression::ZStd] {
        assert_eq!(Compression::from_numeric(c.to_numeric()).unwrap(), c);
        assert_eq!(Compression::parse(c.as_text()).unwrap(), c);
    }
    assert!(matches!(
        Schema::from_numeric(999),
        Err(DbzError::UnknownEnum { value: 999, .. })
    ));
    assert!(Schema::parse("nope").is_err());
}

#[test]
fn date_round_trip() {
    let dates = vec![
        Date { year: 1, month: 1, day: 1 },
        Date { year: 2000, month: 2, day: 29 },
        Date { year: 2015, month: 10, day: 31 },
        Date { year: 9999, month: 12, day: 31 },
    ];
    for d in dates {
        let raw = dbz::date::encode_iso8601(d);
        assert_eq!(dbz::date::decode_iso8601(raw).unwrap(), d);
    }
    assert_eq!(dbz::date::encode_iso8601(Date { year: 2015, month: 10, day: 31 }), 20151031);
    assert!(matches!(
        dbz::date::decode_iso8601(20210229),
        Err(DbzError::InvalidDate { part: DatePart::Calendar, .. })
    ));
    assert!(matches!(
        dbz::date::decode_iso8601(20210001),
        Err(DbzError::InvalidDate { part: DatePart::Month, .. })
    ));
}

#[test]
fn truncation_safety() {
    let meta = sample_metadata();
    let bytes = meta.encode().unwrap();
    for n in [0usize, 3, 7, 8, 30, 99, 107, bytes.len() - 1] {
        let res = decode_metadata(&bytes[0..n]);
        assert!(
            matches!(res, Err(DbzError::TruncatedMetadata { .. })),
            "prefix of {n} bytes must fail as truncated"
        );
    }
}

#[test]
fn bad_magic() {
    let mut bytes = sample_metadata().encode().unwrap();
    bytes[3] = 0xFF;
    assert!(matches!(
        decode_metadata(bytes.as_slice()),
        Err(DbzError::BadMagic { .. })
    ));
}

#[test]
fn unsupported_version() {
    let mut bytes = sample_metadata().encode().unwrap();
    // the version byte sits at payload offset 3, file offset 11
    bytes[11] = 2;
    assert!(matches!(
        decode_metadata(bytes.as_slice()),
        Err(DbzError::UnsupportedVersion { version: 2 })
    ));
}

#[test]
fn unknown_schema_value() {
    let mut bytes = sample_metadata().encode().unwrap();
    // the schema word sits at payload offset 20, file offset 28
    bytes[28] = 0xEE;
    bytes[29] = 0xEE;
    assert!(matches!(
        decode_metadata(bytes.as_slice()),
        Err(DbzError::UnknownEnum { .. })
    ));
}

#[test]
fn invalid_symbol_rejected_in_section() {
    let meta = sample_metadata();
    let bytes = meta.encode().unwrap();
    // the first symbol of the symbols section starts at payload offset 104,
    // file offset 112
    let mut corrupt = bytes.clone();
    corrupt[112] = 0x80;
    assert!(matches!(
        decode_metadata(corrupt.as_slice()),
        Err(DbzError::InvalidUtf8)
    ));
}

#[test]
fn oversize_symbol_rejected_on_encode() {
    let meta = Metadata {
        symbols: vec!["THIS-SYMBOL-IS-LONGER-THAN-THE-FIELD".to_owned()],
        ..sample_metadata()
    };
    assert!(meta.encode().is_err());
}

fn mbp10_record(seq: u32) -> Mbp10Msg {
    let level = BidAskPair {
        bid_px: 4_100_000_000_000,
        ask_px: 4_100_250_000_000,
        bid_sz: 15,
        ask_sz: 17,
        bid_ct: 3,
        ask_ct: 5,
    };
    Mbp10Msg {
        hd: RecordHeader {
            length: 92, // 368 bytes over 4
            rtype: 10,
            publisher_id: 1,
            product_id: 5482,
            ts_event: 1609160400000431000,
        },
        price: 4_100_500_000_000,
        size: 2,
        action: b'A' as i8,
        side: b'B' as i8,
        flags: -128,
        depth: 0,
        ts_recv: 1609160400000704060,
        ts_in_delta: 22993,
        sequence: seq,
        booklevel: [level; 10],
    }
}

#[test]
fn end_to_end_write_read() {
    let n = 3u32;
    let records: Vec<Record> =
        (0..n).map(|k| Record::Mbp10(mbp10_record(100 + k))).collect();
    let bytes =
        write_dbz_file("mbp-10", "GLBX.MDP3".to_owned(), "product_id", &records).unwrap();

    let dbz = Dbz::new(bytes.as_slice()).unwrap();
    assert_eq!(dbz.schema(), Schema::Mbp10);
    let meta = dbz.metadata().clone();
    assert_eq!(meta.dataset, "GLBX.MDP3");
    assert_eq!(meta.stype_in, SType::ProductId);
    assert_eq!(meta.stype_out, SType::ProductId);
    assert_eq!(meta.record_count, n as u64);

    let mut iter = dbz.try_into_iter().unwrap();
    let (lo, hi) = iter.size_hint();
    assert_eq!(lo, n as usize);
    assert_eq!(hi, Some(n as usize));
    let mut got = Vec::new();
    while let Some(rec) = iter.next() {
        got.push(rec);
    }
    assert_eq!(got, records);
}

#[test]
fn body_is_a_zstd_frame() {
    let records: Vec<Record> = vec![Record::Mbp10(mbp10_record(7))];
    let bytes =
        write_dbz_file("mbp-10", "GLBX.MDP3".to_owned(), "product_id", &records).unwrap();
    let frame = u32::from_le_bytes([bytes[4], bytes[5], bytes[6], bytes[7]]) as usize;
    let body = &bytes[8 + frame..];
    // the Zstandard frame magic: the compressor really ran
    assert_eq!(&body[0..4], &[0x28, 0xB5, 0x2F, 0xFD]);
    assert_ne!(body.len(), 368);
}

#[test]
fn write_read_trades_and_mbo() {
    let trade = Record::Trade(TradeMsg {
        hd: RecordHeader {
            length: 12, // 48 bytes over 4
            rtype: 0,
            publisher_id: 1,
            product_id: 77,
            ts_event: 1,
        },
        price: -50,
        size: 1,
        action: b'T' as i8,
        side: b'N' as i8,
        flags: 0,
        depth: 0,
        ts_recv: 2,
        ts_in_delta: -3,
        sequence: 4,
    });
    let bytes = write_dbz_file("trades", "XNAS.ITCH".to_owned(), "native", &vec![trade]).unwrap();
    let dbz = Dbz::new(bytes.as_slice()).unwrap();
    let mut iter = dbz.try_into_iter().unwrap();
    assert_eq!(iter.next(), Some(trade));
    assert_eq!(iter.next(), None);

    let tick = Record::Mbo(TickMsg {
        hd: RecordHeader {
            length: 14, // 56 bytes over 4
            rtype: 0xA0,
            publisher_id: 1,
            product_id: 77,
            ts_event: 5,
        },
        order_id: 9_000_000_000,
        price: 1_234_500_000_000,
        size: 10,
        flags: -1,
        channel_id: 2,
        action: b'C' as i8,
        side: b'A' as i8,
        ts_recv: 6,
        ts_in_delta: 7,
        sequence: 8,
    });
    let bytes = write_dbz_file("mbo", "GLBX.MDP3".to_owned(), "native", &vec![tick]).unwrap();
    let dbz = Dbz::new(bytes.as_slice()).unwrap();
    let mut iter = dbz.try_into_iter().unwrap();
    assert_eq!(iter.next(), Some(tick));
    assert_eq!(iter.next(), None);
}

#[test]
fn writer_rejects_mismatched_record() {
    let trade = Record::Trade(TradeMsg {
        hd: RecordHeader { length: 12, rtype: 0, publisher_id: 1, product_id: 1, ts_event: 0 },
        price: 0,
        size: 0,
        action: b'T' as i8,
        side: b'N' as i8,
        flags: 0,
        depth: 0,
        ts_recv: 0,
        ts_in_delta: 0,
        sequence: 0,
    });
    let res = write_dbz(Schema::Mbo, &vec![trade]);
    assert!(matches!(res, Err(DbzError::TypeMismatch { expected: 0xA0, .. })));
}

#[test]
fn writer_rejects_unsupported_schema() {
    let res = write_dbz_file("definition", "GLBX.MDP3".to_owned(), "native", &vec![]);
    assert!(matches!(res, Err(DbzError::Unsupported { .. })));
}

#[test]
fn reader_skips_mismatched_chunks() {
    // a body of two chunks where the first carries the wrong type ID
    let trade_ok = TradeMsg {
        hd: RecordHeader { length: 12, rtype: 0, publisher_id: 1, product_id: 1, ts_event: 0 },
        price: 10,
        size: 1,
        action: b'T' as i8,
        side: b'B' as i8,
        flags: 0,
        depth: 0,
        ts_recv: 0,
        ts_in_delta: 0,
        sequence: 1,
    };
    let trade_bad = TradeMsg {
        hd: RecordHeader { length: 12, rtype: 9, publisher_id: 1, product_id: 1, ts_event: 0 },
        ..trade_ok
    };
    // build the artifact by hand so the mismatched chunk bypasses the
    // writer's type check: bad chunk (rtype 9) first, good chunk second
    let bytes_bad = {
        let mut m = sample_metadata();
        m.schema = Schema::Trades;
        m.record_count = 2;
        let head = m.encode().unwrap();
        let mut raw = Vec::new();
        for rec in [trade_bad, trade_ok] {
            raw.extend_from_slice(&[rec.hd.length, rec.hd.rtype]);
            raw.extend_from_slice(&rec.hd.publisher_id.to_le_bytes());
            raw.extend_from_slice(&rec.hd.product_id.to_le_bytes());
            raw.extend_from_slice(&rec.hd.ts_event.to_le_bytes());
            raw.extend_from_slice(&rec.price.to_le_bytes());
            raw.extend_from_slice(&rec.size.to_le_bytes());
            raw.push(rec.action as u8);
            raw.push(rec.side as u8);
            raw.push(rec.flags as u8);
            raw.push(rec.depth);
            raw.extend_from_slice(&rec.ts_recv.to_le_bytes());
            raw.extend_from_slice(&rec.ts_in_delta.to_le_bytes());
            raw.extend_from_slice(&rec.sequence.to_le_bytes());
        }
        assert_eq!(raw.len(), 96);
        let mut out = head;
        out.extend_from_slice(&zstd_compress_for_test(&raw));
        out
    };
    let dbz = Dbz::new(bytes_bad.as_slice()).unwrap();
    let mut iter = dbz.try_into_iter().unwrap();
    assert_eq!(iter.next(), Some(Record::Trade(trade_ok)));
    assert_eq!(iter.next(), None);
}

fn zstd_compress_for_test(raw: &[u8]) -> Vec<u8> {
    zstd::stream::encode_all(raw, 0).unwrap()
}

#[test]
fn symbol_sections_round_trip_order() {
    let meta = Metadata {
        symbols: vec!["A".to_owned(), "B".to_owned(), "C".to_owned()],
        partial: vec![],
        not_found: vec!["D".to_owned()],
        ..sample_metadata()
    };
    let bytes = meta.encode().unwrap();
    let decoded = decode_metadata(bytes.as_slice()).unwrap();
    assert_eq!(decoded.symbols, vec!["A", "B", "C"]);
    assert_eq!(decoded.not_found, vec!["D"]);
    assert!(decoded.partial.is_empty());
}

#[test]
fn write_read_ohlcv_and_tbbo() {
    let bar = Record::Ohlcv(OhlcvMsg {
        hd: RecordHeader {
            length: 14, // 56 bytes over 4
            rtype: 0x11,
            publisher_id: 1,
            product_id: 42,
            ts_event: 1609160400000000000,
        },
        open: 372025000000000,
        high: 372050000000000,
        low: 372000000000000,
        close: 372025000000000,
        volume: 57,
    });
    for schema in ["ohlcv-1s", "ohlcv-1m", "ohlcv-1h", "ohlcv-1d"] {
        let bytes =
            write_dbz_file(schema, "GLBX.MDP3".to_owned(), "product_id", &vec![bar]).unwrap();
        let dbz = Dbz::new(bytes.as_slice()).unwrap();
        assert_eq!(dbz.schema().as_text(), schema);
        let mut iter = dbz.try_into_iter().unwrap();
        assert_eq!(iter.next(), Some(bar));
        assert_eq!(iter.next(), None);
    }

    let level = BidAskPair {
        bid_px: 3720250000,
        ask_px: 3720500000,
        bid_sz: 4,
        ask_sz: 5,
        bid_ct: 1,
        ask_ct: 2,
    };
    let quote = Record::Mbp1(Mbp1Msg {
        hd: RecordHeader {
            length: 20, // 80 bytes over 4
            rtype: 1,
            publisher_id: 1,
            product_id: 42,
            ts_event: 3,
        },
        price: 3720250000,
        size: 1,
        action: b'A' as i8,
        side: b'B' as i8,
        flags: 0,
        depth: 0,
        ts_recv: 4,
        ts_in_delta: 5,
        sequence: 6,
        booklevel: [level],
    });
    for schema in ["mbp-1", "tbbo"] {
        let bytes =
            write_dbz_file(schema, "GLBX.MDP3".to_owned(), "native", &vec![quote]).unwrap();
        let dbz = Dbz::new(bytes.as_slice()).unwrap();
        let mut iter = dbz.try_into_iter().unwrap();
        assert_eq!(iter.next(), Some(quote));
        assert_eq!(iter.next(), None);
    }
}

#[test]
fn truncated_mapping_reports_element_index() {
    let mut meta = sample_metadata();
    let second = SymbolMapping {
        native: "NQ.0".to_owned(),
        intervals: vec![MappingInterval {
            start_date: Date { year: 2021, month: 1, day: 4 },
            end_date: Date { year: 2021, month: 3, day: 19 },
            symbol: "NQH1".to_owned(),
        }],
    };
    meta.mappings.push(second);
    let bytes = meta.encode().unwrap();
    let payload = &bytes[8..];
    // payload layout: fixed region 100, symbols 4 + 2*22, partial 4 + 22,
    // not_found 4 + 22, then the mappings count; each mapping here is
    // 22 + 4 + 30 bytes
    let mappings_at = 100 + 48 + 26 + 26;
    let in_first = mappings_at + 4 + 10;
    let res = Metadata::decode(&payload[..in_first]);
    assert!(matches!(
        res,
        Err(DbzError::TruncatedMetadata { section: Section::Mappings, index: 0 })
    ));
    let in_second = mappings_at + 4 + 56 + 10;
    let res = Metadata::decode(&payload[..in_second]);
    assert!(matches!(
        res,
        Err(DbzError::TruncatedMetadata { section: Section::Mappings, index: 1 })
    ));
}
