//! Reading and writing whole artifacts: the reader over an in-memory
//! artifact, the lazy record iterator over the decompressed body, and the
//! writer that emits the metadata head followed by the compressed records.

use vstd::prelude::*;
use vstd::slice::{slice_subrange, slice_to_vec};
use crate::enums::{Compression, SType, Schema};
use crate::errors::{DbzError, EnumKind, Feature};
use crate::metadata::{spec_encode_full, spec_read, wf_meta, MappingV, MetaV, Metadata};
use crate::record::{
    push_record, record_conforms, record_size, schema_supported, spec_chunk_ok,
    spec_encode_record, spec_parse_record, spec_record_conforms, spec_record_size,
    spec_schema_supported, type_id, Record,
};
use crate::SCHEMA_VERSION;

verus! {

/// The Zstandard frame that compressing the given bytes produces. The
/// compressor at a fixed level is a pure function of its input bytes.
pub uninterp spec fn zstd_frame_of(b: Seq<u8>) -> Seq<u8>;

/// Relies on zstd::stream::encode_all at the default level: it compresses
/// exactly the input bytes into one frame, deterministically for a given
/// input. Reading from a byte slice and appending to a vector in memory has
/// no failing path, so the call succeeds on every input.
#[verifier::external_body]
fn zstd_compress(b: &[u8]) -> (r: Vec<u8>)
    ensures
        r@ == zstd_frame_of(b@),
{
    zstd::stream::encode_all(b, 0).expect("in-memory compression does not fail")
}

/// Relies on zstd::stream::decode_all inverting zstd::stream::encode_all:
/// compression is lossless, so a frame decodes back to the exact bytes it
/// was made from.
#[verifier::external_body]
fn zstd_decompress(b: &[u8]) -> (r: Result<Vec<u8>, DbzError>)
    ensures
        forall|x: Seq<u8>| b@ == zstd_frame_of(x) ==> r is Ok && r->Ok_0@ == x,
{
    match zstd::stream::decode_all(b) {
        Ok(v) => Ok(v),
        Err(_) => Err(DbzError::Io),
    }
}

/// The records stored in a decompressed body from `pos` on: chunks of the
/// schema's fixed size, until fewer than one chunk of bytes remains; a chunk
/// whose header does not carry the schema's type ID and length is skipped.
pub open spec fn spec_records(schema: Schema, body: Seq<u8>, pos: int) -> Seq<Record>
    decreases body.len() - pos,
    when 0 <= pos && spec_schema_supported(schema)
{
    let s = spec_record_size(schema) as int;
    if pos + s > body.len() {
        Seq::empty()
    } else {
        let chunk = body.subrange(pos, pos + s);
        let rest = spec_records(schema, body, pos + s);
        if spec_chunk_ok(schema, chunk) {
            seq![spec_parse_record(schema, chunk)] + rest
        } else {
            rest
        }
    }
}

/// The concatenated wire bytes of a record list.
pub open spec fn spec_encode_records(rs: Seq<Record>) -> Seq<u8>
    decreases rs.len(),
{
    if rs.len() == 0 {
        Seq::empty()
    } else {
        spec_encode_record(rs.first()) + spec_encode_records(rs.drop_first())
    }
}

proof fn lemma_encode_records_snoc(rs: Seq<Record>, x: Record)
    ensures
        spec_encode_records(rs.push(x)) == spec_encode_records(rs) + spec_encode_record(x),
    decreases rs.len(),
{
    if rs.len() == 0 {
        assert(rs.push(x).first() == x);
        assert(rs.push(x).drop_first() =~= Seq::<Record>::empty());
        assert(spec_encode_records(rs.push(x)) == spec_encode_record(x) + spec_encode_records(
            Seq::<Record>::empty(),
        ));
        assert(spec_encode_records(rs) == Seq::<u8>::empty());
        assert(spec_encode_record(x) + Seq::<u8>::empty() =~= Seq::<u8>::empty()
            + spec_encode_record(x));
    } else {
        assert(rs.push(x).first() == rs.first());
        assert(rs.push(x).drop_first() =~= rs.drop_first().push(x));
        lemma_encode_records_snoc(rs.drop_first(), x);
        assert(spec_encode_records(rs.push(x)) == spec_encode_record(rs.first()) + (
        spec_encode_records(rs.drop_first()) + spec_encode_record(x)));
        assert(spec_encode_records(rs) == spec_encode_record(rs.first()) + spec_encode_records(
            rs.drop_first(),
        ));
        assert(spec_encode_record(rs.first()) + (spec_encode_records(rs.drop_first())
            + spec_encode_record(x)) =~= (spec_encode_record(rs.first()) + spec_encode_records(
            rs.drop_first(),
        )) + spec_encode_record(x));
    }
}

proof fn lemma_encode_records_len(schema: Schema, rs: Seq<Record>)
    requires
        forall|i: int| 0 <= i < rs.len() ==> spec_record_matches(schema, #[trigger] rs[i]),
    ensures
        spec_encode_records(rs).len() == spec_record_size(schema) * rs.len(),
    decreases rs.len(),
{
    if rs.len() == 0 {
    } else {
        crate::record::lemma_record_round_trip(rs.first(), schema);
        assert(forall|i: int|
            0 <= i < rs.drop_first().len() ==> spec_record_matches(
                schema,
                #[trigger] rs.drop_first()[i],
            ));
        lemma_encode_records_len(schema, rs.drop_first());
    }
}

/// The record's variant is the schema's.
pub open spec fn spec_record_matches(schema: Schema, r: Record) -> bool {
    crate::record::spec_record_matches_schema(r, schema)
}

proof fn lemma_records_round_trip_at(schema: Schema, b: Seq<u8>, pos: int, rs: Seq<Record>)
    requires
        spec_schema_supported(schema),
        forall|i: int| 0 <= i < rs.len() ==> spec_record_conforms(#[trigger] rs[i], schema),
        0 <= pos <= b.len(),
        b.subrange(pos, b.len() as int) == spec_encode_records(rs),
    ensures
        spec_records(schema, b, pos) == rs,
    decreases rs.len(),
{
    let s = spec_record_size(schema) as int;
    let whole = b.subrange(pos, b.len() as int);
    assert forall|k: int|
        pos <= k < b.len() implies #[trigger] b[k] == spec_encode_records(rs)[k - pos] by {
        assert(b[k] == whole[k - pos]);
    }
    if rs.len() == 0 {
        assert(spec_encode_records(rs).len() == 0);
        assert(whole.len() == b.len() - pos);
        assert(b.len() - pos == 0);
        assert(spec_record_size(schema) >= 48);
        assert(spec_records(schema, b, pos) =~= Seq::<Record>::empty());
    } else {
        let first = rs.first();
        let rest = rs.drop_first();
        assert(spec_record_conforms(rs[0], schema));
        crate::record::lemma_record_round_trip(first, schema);
        assert(forall|i: int|
            0 <= i < rest.len() ==> spec_record_conforms(#[trigger] rest[i], schema));
        lemma_encode_records_len(schema, rest);
        assert(b.len() - pos == s + s * rest.len()) by {
            lemma_encode_records_len(schema, rs);
            assert(s * rs.len() == s + s * rest.len()) by (nonlinear_arith)
                requires
                    rs.len() >= 1,
                    rest.len() == rs.len() - 1,
            ;
        }
        assert(s * rest.len() >= 0) by (nonlinear_arith)
            requires
                s >= 0,
                rest.len() >= 0,
        ;
        let chunk = b.subrange(pos, pos + s);
        assert(chunk =~= spec_encode_record(first));
        assert(spec_chunk_ok(schema, chunk));
        assert(spec_parse_record(schema, chunk) == first);
        assert(b.subrange(pos + s, b.len() as int) =~= spec_encode_records(rest));
        lemma_records_round_trip_at(schema, b, pos + s, rest);
        assert(seq![first] + rest =~= rs);
    }
}

/// Law: for any supported schema, reading back the concatenated wire bytes of
/// records that conform to it yields exactly those records, in order.
pub proof fn lemma_records_round_trip(schema: Schema, rs: Seq<Record>)
    requires
        spec_schema_supported(schema),
        forall|i: int| 0 <= i < rs.len() ==> spec_record_conforms(#[trigger] rs[i], schema),
    ensures
        spec_records(schema, spec_encode_records(rs), 0) == rs,
{
    let b = spec_encode_records(rs);
    assert(b.subrange(0, b.len() as int) =~= b);
    lemma_records_round_trip_at(schema, b, 0, rs);
}

/// A consuming iterator over an artifact's records. It walks the already
/// decompressed body one fixed-size chunk at a time.
pub struct DbzIntoIter {
    metadata: Metadata,
    /// The decompressed body bytes.
    buffer: Vec<u8>,
    /// The offset of the next chunk.
    pos: usize,
    /// How many records have been yielded.
    i: usize,
}

impl DbzIntoIter {
    /// The metadata the artifact was opened with.
    pub closed spec fn spec_metadata(self) -> Metadata {
        self.metadata
    }

    /// The decompressed body.
    pub closed spec fn spec_body(self) -> Seq<u8> {
        self.buffer@
    }

    /// The offset of the next chunk.
    pub closed spec fn spec_pos(self) -> int {
        self.pos as int
    }

    /// How many records have been yielded so far.
    pub closed spec fn spec_count(self) -> int {
        self.i as int
    }

    /// The records not yet yielded.
    pub open spec fn remaining(self) -> Seq<Record> {
        spec_records(self.spec_metadata().schema, self.spec_body(), self.spec_pos())
    }

    pub closed spec fn wf(self) -> bool {
        &&& spec_schema_supported(self.metadata.schema)
        &&& self.pos <= self.buffer@.len()
        &&& 48 * (self.i as int) <= self.pos as int
    }

    /// Yield the next record: the first remaining chunk whose header carries
    /// the schema's type ID and length, or nothing when fewer than one chunk
    /// of bytes is left.
    pub fn next(&mut self) -> (r: Option<Record>)
        requires
            old(self).wf(),
        ensures
            final(self).wf(),
            final(self).spec_metadata() == old(self).spec_metadata(),
            final(self).spec_body() == old(self).spec_body(),
            old(self).remaining().len() == 0 ==> r is None && final(self).spec_count() == old(
                self,
            ).spec_count(),
            old(self).remaining().len() > 0 ==> {
                &&& r == Some(old(self).remaining()[0])
                &&& final(self).remaining() == old(self).remaining().drop_first()
                &&& final(self).spec_count() == old(self).spec_count() + 1
            },
    {
        let s = record_size(self.metadata.schema);
        let n = self.buffer.len();
        while self.buffer.len() - self.pos >= s
            invariant
                n == self.buffer@.len(),
                self.wf(),
                self.metadata == old(self).metadata,
                self.buffer == old(self).buffer,
                self.i == old(self).i,
                s == spec_record_size(self.metadata.schema),
                spec_records(self.metadata.schema, self.buffer@, self.pos as int) == old(
                    self,
                ).remaining(),
            decreases self.buffer@.len() - self.pos,
        {
            let ghost cur = self.pos as int;
            let chunk = slice_subrange(self.buffer.as_slice(), self.pos, self.pos + s);
            match Record::from_bytes(self.metadata.schema, chunk) {
                Ok(rec) => {
                    proof {
                        assert(spec_records(self.metadata.schema, self.buffer@, cur)
                            == seq![rec] + spec_records(
                            self.metadata.schema,
                            self.buffer@,
                            cur + s,
                        ));
                        assert((seq![rec] + spec_records(
                            self.metadata.schema,
                            self.buffer@,
                            cur + s,
                        ))[0] == rec);
                        assert((seq![rec] + spec_records(
                            self.metadata.schema,
                            self.buffer@,
                            cur + s,
                        )).drop_first() =~= spec_records(
                            self.metadata.schema,
                            self.buffer@,
                            cur + s,
                        ));
                    }
                    proof {
                        assert(s >= 48);
                        assert(48 * ((self.i + 1) as int) <= self.pos as int + s as int);
                    }
                    self.pos = self.pos + s;
                    self.i = self.i + 1;
                    return Some(rec);
                },
                Err(_) => {
                    self.pos = self.pos + s;
                },
            }
        }
        proof {
            assert(spec_records(self.metadata.schema, self.buffer@, self.pos as int)
                =~= Seq::<Record>::empty());
        }
        None
    }

    /// The lower and upper bound on the remaining length, taking the advisory
    /// record count at its word: the count it announced, less the records
    /// already yielded, clamped at zero.
    pub fn size_hint(&self) -> (r: (usize, Option<usize>))
        ensures
            r.0 as int == ({
                let want = self.spec_metadata().record_count as int - self.spec_count();
                if want < 0 {
                    0
                } else if want <= usize::MAX as int {
                    want
                } else {
                    usize::MAX as int
                }
            }),
            r.1 == Some(r.0),
    {
        let rc = self.metadata.record_count;
        let remaining: usize = if rc as u64 >= self.i as u64 {
            if rc as u64 - self.i as u64 <= usize::MAX as u64 {
                (rc - self.i as u64) as usize
            } else {
                usize::MAX
            }
        } else {
            0
        };
        proof {
            assert(self.spec_metadata().record_count as int - self.spec_count() <= u64::MAX);
        }
        (remaining, Some(remaining))
    }
}

/// An in-memory DBZ artifact whose metadata head has been parsed and whose
/// compressed body is held for lazy decoding.
pub struct Dbz {
    /// The compressed record body.
    reader: Vec<u8>,
    metadata: Metadata,
}

impl Dbz {
    /// The parsed metadata.
    pub closed spec fn spec_metadata(self) -> Metadata {
        self.metadata
    }

    /// The compressed body bytes after the metadata head.
    pub closed spec fn spec_body(self) -> Seq<u8> {
        self.reader@
    }

    /// Parse an artifact's metadata head; keep the compressed body for
    /// iteration. Fails exactly when the head fails to parse.
    pub fn new(bytes: &[u8]) -> (r: Result<Dbz, DbzError>)
        ensures
            match spec_read(bytes@) {
                Ok(p) => {
                    &&& r is Ok
                    &&& r->Ok_0.spec_metadata()@ == p.0
                    &&& r->Ok_0.spec_body() == bytes@.skip(p.1)
                },
                Err(e) => {
                    &&& r is Err
                    &&& r->Err_0 == e
                },
            },
    {
        match Metadata::read(bytes) {
            Ok((metadata, off)) => {
                let body = slice_to_vec(slice_subrange(bytes, off, bytes.len()));
                proof {
                    assert(bytes@.subrange(off as int, bytes@.len() as int) =~= bytes@.skip(
                        off as int,
                    ));
                }
                Ok(Dbz { reader: body, metadata })
            },
            Err(e) => Err(e),
        }
    }

    /// The schema of the records in the body.
    pub fn schema(&self) -> (r: Schema)
        ensures
            r == self.spec_metadata().schema,
    {
        self.metadata.schema
    }

    /// All metadata read from the artifact.
    pub fn metadata(&self) -> (r: &Metadata)
        ensures
            *r == self.spec_metadata(),
    {
        &self.metadata
    }

    /// Decompress the body and return the lazy record iterator. Fails when
    /// the schema stores no records this codec reads, or when the body is not
    /// a Zstandard stream; in particular, on the compressed frame of any byte
    /// sequence `x` it succeeds and iterates over `x`. The whole body is
    /// decompressed here, up front, so memory is proportional to the body
    /// rather than to one record.
    pub fn try_into_iter(self) -> (r: Result<DbzIntoIter, DbzError>)
        ensures
            !spec_schema_supported(self.spec_metadata().schema) ==> r == Err::<
                DbzIntoIter,
                DbzError,
            >(DbzError::Unsupported { feature: Feature::SchemaRecords }),
            r is Ok ==> {
                &&& r->Ok_0.wf()
                &&& r->Ok_0.spec_metadata() == self.spec_metadata()
                &&& r->Ok_0.spec_pos() == 0
                &&& r->Ok_0.spec_count() == 0
            },
            forall|x: Seq<u8>|
                self.spec_body() == zstd_frame_of(x) && spec_schema_supported(
                    self.spec_metadata().schema,
                ) ==> r is Ok && r->Ok_0.spec_body() == x,
    {
        if !schema_supported(self.metadata.schema) {
            return Err(DbzError::Unsupported { feature: Feature::SchemaRecords });
        }
        match zstd_decompress(self.reader.as_slice()) {
            Ok(buffer) => Ok(DbzIntoIter { metadata: self.metadata, buffer, pos: 0, i: 0 }),
            Err(e) => Err(e),
        }
    }
}

/// Serialize the records and compress them into the artifact's body: the
/// Zstandard frame of their concatenated wire bytes. Succeeds exactly when
/// every record conforms to the schema, and fails with a type mismatch
/// otherwise, before any byte is produced.
pub fn write_dbz(schema: Schema, records: &Vec<Record>) -> (r: Result<Vec<u8>, DbzError>)
    ensures
        (forall|i: int|
            0 <= i < records@.len() ==> spec_record_conforms(#[trigger] records@[i], schema))
            ==> r is Ok,
        r is Ok ==> r->Ok_0@ == zstd_frame_of(spec_encode_records(records@)),
        !(forall|i: int|
            0 <= i < records@.len() ==> spec_record_conforms(#[trigger] records@[i], schema))
            ==> r is Err && r->Err_0 is TypeMismatch,
{
    let n = records.len();
    let mut i: usize = 0;
    while i < n
        invariant
            n == records@.len(),
            0 <= i <= n,
            forall|k: int| 0 <= k < i ==> spec_record_conforms(#[trigger] records@[k], schema),
        decreases n - i,
    {
        if !record_conforms(&records[i], schema) {
            return Err(
                DbzError::TypeMismatch {
                    expected: type_id(schema),
                    found: records[i].header().rtype,
                },
            );
        }
        i += 1;
    }
    let mut body: Vec<u8> = Vec::new();
    let mut j: usize = 0;
    while j < n
        invariant
            n == records@.len(),
            0 <= j <= n,
            body@ == spec_encode_records(records@.take(j as int)),
        decreases n - j,
    {
        push_record(&mut body, &records[j]);
        proof {
            assert(records@.take(j + 1) =~= records@.take(j as int).push(records@[j as int]));
            lemma_encode_records_snoc(records@.take(j as int), records@[j as int]);
        }
        j += 1;
    }
    proof {
        assert(records@.take(n as int) =~= records@);
    }
    Ok(zstd_compress(body.as_slice()))
}

/// The metadata value the one-shot writer builds from its arguments.
pub open spec fn spec_write_meta(
    schema: Schema,
    dataset: Seq<char>,
    stype: SType,
    n: int,
) -> MetaV {
    MetaV {
        version: SCHEMA_VERSION,
        dataset,
        schema,
        start: 0,
        end: 0,
        limit: 0,
        record_count: n as u64,
        compression: Compression::Uncompressed,
        stype_in: stype,
        stype_out: stype,
        symbols: Seq::empty(),
        partial: Seq::empty(),
        not_found: Seq::empty(),
        mappings: Seq::empty(),
    }
}

/// Encode a whole artifact in one shot: infer the metadata from the
/// arguments, emit the metadata head, then the compressed records. Fails on
/// an unknown schema or symbology name, on a schema that stores no records,
/// on a mismatched record and on an oversize dataset, before any byte is
/// produced; on success the bytes are exactly the encoded head followed by
/// the body frame.
pub fn write_dbz_file(schema: &str, dataset: String, stype: &str, records: &Vec<Record>) -> (r:
    Result<Vec<u8>, DbzError>)
    ensures
        Schema::from_text_spec(schema@) is None ==> r == Err::<Vec<u8>, DbzError>(
            DbzError::UnknownEnum { kind: EnumKind::Schema, value: 0 },
        ),
        Schema::from_text_spec(schema@) is Some && SType::from_text_spec(stype@) is None ==> r
            == Err::<Vec<u8>, DbzError>(
            DbzError::UnknownEnum { kind: EnumKind::SType, value: 0 },
        ),
        Schema::from_text_spec(schema@) is Some && SType::from_text_spec(stype@) is Some
            && !spec_schema_supported(Schema::from_text_spec(schema@)->0) ==> r == Err::<
            Vec<u8>,
            DbzError,
        >(DbzError::Unsupported { feature: Feature::SchemaRecords }),
        r is Ok ==> {
            &&& Schema::from_text_spec(schema@) is Some
            &&& SType::from_text_spec(stype@) is Some
            &&& r->Ok_0@ == spec_encode_full(
                spec_write_meta(
                    Schema::from_text_spec(schema@)->0,
                    dataset@,
                    SType::from_text_spec(stype@)->0,
                    records@.len() as int,
                ),
            ) + zstd_frame_of(spec_encode_records(records@))
        },
        ({
            &&& Schema::from_text_spec(schema@) is Some
            &&& spec_schema_supported(Schema::from_text_spec(schema@)->0)
            &&& SType::from_text_spec(stype@) is Some
            &&& wf_meta(
                spec_write_meta(
                    Schema::from_text_spec(schema@)->0,
                    dataset@,
                    SType::from_text_spec(stype@)->0,
                    records@.len() as int,
                ),
            )
            &&& forall|i: int|
                0 <= i < records@.len() ==> spec_record_conforms(
                    #[trigger] records@[i],
                    Schema::from_text_spec(schema@)->0,
                )
        }) ==> r is Ok,
{
    let schema = match Schema::parse(schema) {
        Ok(sc) => sc,
        Err(e) => {
            return Err(e);
        },
    };
    let stype = match SType::parse(stype) {
        Ok(t) => t,
        Err(e) => {
            return Err(e);
        },
    };
    if !schema_supported(schema) {
        return Err(DbzError::Unsupported { feature: Feature::SchemaRecords });
    }
    let metadata = Metadata {
        version: SCHEMA_VERSION,
        dataset,
        schema,
        start: 0,
        end: 0,
        limit: 0,
        record_count: records.len() as u64,
        compression: Compression::Uncompressed,
        stype_in: stype,
        stype_out: stype,
        symbols: Vec::new(),
        partial: Vec::new(),
        not_found: Vec::new(),
        mappings: Vec::new(),
    };
    let mut out = match metadata.encode() {
        Ok(v) => v,
        Err(e) => {
            return Err(e);
        },
    };
    let mut body = match write_dbz(schema, records) {
        Ok(v) => v,
        Err(e) => {
            return Err(e);
        },
    };
    proof {
        assert(metadata@.symbols =~= Seq::<Seq<char>>::empty());
        assert(metadata@.partial =~= Seq::<Seq<char>>::empty());
        assert(metadata@.not_found =~= Seq::<Seq<char>>::empty());
        assert(metadata@.mappings =~= Seq::<crate::metadata::MappingV>::empty());
        assert(metadata@ == spec_write_meta(schema, dataset@, stype, records@.len() as int));
    }
    let ghost head = out@;
    let bn = body.len();
    let mut k: usize = 0;
    while k < bn
        invariant
            bn == body@.len(),
            0 <= k <= bn,
            out@ == head + body@.subrange(0, k as int),
        decreases bn - k,
    {
        out.push(body[k]);
        k += 1;
        proof {
            assert(out@ =~= head + body@.subrange(0, k as int));
        }
    }
    proof {
        assert(body@.subrange(0, bn as int) =~= body@);
    }
    Ok(out)
}

/// Decode the metadata head of the given artifact bytes.
pub fn decode_metadata(bytes: &[u8]) -> (r: Result<Metadata, DbzError>)
    ensures
        match spec_read(bytes@) {
            Ok(p) => r is Ok && r->Ok_0@ == p.0,
            Err(e) => r is Err && r->Err_0 == e,
        },
{
    match Metadata::read(bytes) {
        Ok((m, _)) => Ok(m),
        Err(e) => Err(e),
    }
}

/// The metadata value the plain-value encoder builds from its arguments: the
/// current schema version, the given fields, and zero for a missing limit.
pub open spec fn spec_meta_of_args(
    dataset: Seq<char>,
    schema: Schema,
    start: u64,
    end: u64,
    limit: Option<u64>,
    record_count: u64,
    compression: Compression,
    stype_in: SType,
    stype_out: SType,
    symbols: Seq<Seq<char>>,
    partial: Seq<Seq<char>>,
    not_found: Seq<Seq<char>>,
    mappings: Seq<MappingV>,
) -> MetaV {
    MetaV {
        version: SCHEMA_VERSION,
        dataset,
        schema,
        start,
        end,
        limit: match limit {
            Some(l) => l,
            None => 0,
        },
        record_count,
        compression,
        stype_in,
        stype_out,
        symbols,
        partial,
        not_found,
        mappings,
    }
}

/// Encode a metadata head built from plain values; the version is the
/// current schema version and a missing limit means zero.
pub fn encode_metadata(
    dataset: String,
    schema: u16,
    start: u64,
    end: u64,
    limit: Option<u64>,
    record_count: u64,
    compression: u8,
    stype_in: u8,
    stype_out: u8,
    symbols: Vec<String>,
    partial: Vec<String>,
    not_found: Vec<String>,
    mappings: Vec<crate::metadata::SymbolMapping>,
) -> (r: Result<Vec<u8>, DbzError>)
    ensures
        Schema::from_numeric_spec(schema) is None ==> r == Err::<Vec<u8>, DbzError>(
            DbzError::UnknownEnum { kind: EnumKind::Schema, value: schema },
        ),
        r is Ok ==> {
            &&& Schema::from_numeric_spec(schema) is Some
            &&& Compression::from_numeric_spec(compression) is Some
            &&& SType::from_numeric_spec(stype_in) is Some
            &&& SType::from_numeric_spec(stype_out) is Some
            &&& wf_meta(
                spec_meta_of_args(
                    dataset@,
                    Schema::from_numeric_spec(schema)->0,
                    start,
                    end,
                    limit,
                    record_count,
                    Compression::from_numeric_spec(compression)->0,
                    SType::from_numeric_spec(stype_in)->0,
                    SType::from_numeric_spec(stype_out)->0,
                    symbols@.map_values(|s: String| s@),
                    partial@.map_values(|s: String| s@),
                    not_found@.map_values(|s: String| s@),
                    mappings@.map_values(|m: crate::metadata::SymbolMapping| m@),
                ),
            )
            &&& r->Ok_0@ == spec_encode_full(
                spec_meta_of_args(
                    dataset@,
                    Schema::from_numeric_spec(schema)->0,
                    start,
                    end,
                    limit,
                    record_count,
                    Compression::from_numeric_spec(compression)->0,
                    SType::from_numeric_spec(stype_in)->0,
                    SType::from_numeric_spec(stype_out)->0,
                    symbols@.map_values(|s: String| s@),
                    partial@.map_values(|s: String| s@),
                    not_found@.map_values(|s: String| s@),
                    mappings@.map_values(|m: crate::metadata::SymbolMapping| m@),
                ),
            )
        },
        ({
            &&& Schema::from_numeric_spec(schema) is Some
            &&& Compression::from_numeric_spec(compression) is Some
            &&& SType::from_numeric_spec(stype_in) is Some
            &&& SType::from_numeric_spec(stype_out) is Some
            &&& wf_meta(
                spec_meta_of_args(
                    dataset@,
                    Schema::from_numeric_spec(schema)->0,
                    start,
                    end,
                    limit,
                    record_count,
                    Compression::from_numeric_spec(compression)->0,
                    SType::from_numeric_spec(stype_in)->0,
                    SType::from_numeric_spec(stype_out)->0,
                    symbols@.map_values(|s: String| s@),
                    partial@.map_values(|s: String| s@),
                    not_found@.map_values(|s: String| s@),
                    mappings@.map_values(|m: crate::metadata::SymbolMapping| m@),
                ),
            )
        }) ==> r is Ok,
{
    let schema = match Schema::from_numeric(schema) {
        Ok(sc) => sc,
        Err(e) => {
            return Err(e);
        },
    };
    let compression = match Compression::from_numeric(compression) {
        Ok(c) => c,
        Err(e) => {
            return Err(e);
        },
    };
    let stype_in = match SType::from_numeric(stype_in) {
        Ok(t) => t,
        Err(e) => {
            return Err(e);
        },
    };
    let stype_out = match SType::from_numeric(stype_out) {
        Ok(t) => t,
        Err(e) => {
            return Err(e);
        },
    };
    let metadata = Metadata {
        version: SCHEMA_VERSION,
        dataset,
        schema,
        start,
        end,
        limit: match limit {
            Some(l) => l,
            None => 0,
        },
        record_count,
        compression,
        stype_in,
        stype_out,
        symbols,
        partial,
        not_found,
        mappings,
    };
    proof {
        assert(metadata@ == spec_meta_of_args(
            metadata.dataset@,
            metadata.schema,
            start,
            end,
            limit,
            record_count,
            metadata.compression,
            metadata.stype_in,
            metadata.stype_out,
            metadata.symbols@.map_values(|s: String| s@),
            metadata.partial@.map_values(|s: String| s@),
            metadata.not_found@.map_values(|s: String| s@),
            metadata.mappings@.map_values(|m: crate::metadata::SymbolMapping| m@),
        ));
    }
    metadata.encode()
}

/// Overwrite the four updatable fields of an encoded artifact held in a
/// byte buffer; a missing limit means zero.
pub fn update_encoded_metadata(
    buf: &mut Vec<u8>,
    start: u64,
    end: u64,
    limit: Option<u64>,
    record_count: u64,
) -> (r: Result<(), DbzError>)
    ensures
        old(buf)@.len() >= 62 ==> r is Ok && final(buf)@ == crate::metadata::spec_update(
            old(buf)@,
            start,
            end,
            match limit {
                Some(l) => l,
                None => 0,
            },
            record_count,
        ),
        old(buf)@.len() < 62 ==> r is Err && final(buf)@ == old(buf)@,
{
    let l = match limit {
        Some(l) => l,
        None => 0,
    };
    Metadata::update_encoded(buf, start, end, l, record_count)
}

} // verus!
