//! Fixed-width zero-padded UTF-8 string fields ("C-strings") of the wire
//! format: the payload bytes come first and the rest of the field is NUL
//! bytes. Decoding strips the trailing NUL bytes and validates UTF-8.

use vstd::prelude::*;
use vstd::string::StringSliceAdditionalSpecFns;
use vstd::utf8::{
    decode_utf8, decode_utf8_encode_utf8, encode_utf8, encode_utf8_decode_utf8,
    encode_utf8_valid_utf8, valid_utf8,
};
use crate::errors::DbzError;

verus! {

/// A sequence of `n` zero bytes.
pub open spec fn zero_bytes(n: int) -> Seq<u8> {
    Seq::new(n as nat, |i: int| 0u8)
}

/// The bytes left after stripping trailing zero bytes.
pub open spec fn trim_trailing_zeros(b: Seq<u8>) -> Seq<u8>
    decreases b.len(),
{
    if b.len() == 0 || b.last() != 0 {
        b
    } else {
        trim_trailing_zeros(b.drop_last())
    }
}

/// What decoding a fixed-width field returns: the characters of the payload,
/// or an error exactly when the payload is not valid UTF-8.
pub open spec fn parse_cstr(b: Seq<u8>) -> Result<Seq<char>, DbzError> {
    let t = trim_trailing_zeros(b);
    if valid_utf8(t) {
        Ok(decode_utf8(t))
    } else {
        Err(DbzError::InvalidUtf8)
    }
}

/// A string that a fixed-width field of `width` bytes can carry and give
/// back unchanged: its UTF-8 form fits and does not itself end in a NUL byte.
pub open spec fn wf_cstr(s: Seq<char>, width: int) -> bool {
    let e = encode_utf8(s);
    &&& e.len() <= width
    &&& (e.len() == 0 || e.last() != 0)
}

/// The encoded field: the UTF-8 bytes of the string, padded with NUL bytes to
/// `width`.
pub open spec fn encode_cstr(s: Seq<char>, width: int) -> Seq<u8> {
    let e = encode_utf8(s);
    e + zero_bytes(width - e.len())
}

/// Relies on std::str::from_utf8: it returns a borrowed string over exactly
/// the given bytes when they are valid UTF-8, and fails exactly when they are
/// not.
#[verifier::external_body]
fn try_from_utf8(v: &[u8]) -> (r: Option<&str>)
    ensures
        r is Some <==> valid_utf8(v@),
        r is Some ==> r->0.spec_bytes() == v@,
{
    std::str::from_utf8(v).ok()
}

/// Stripping trailing zero bytes keeps exactly the first `t` bytes when
/// everything from `t` on is zero and byte `t - 1` (if any) is not.
proof fn lemma_trim_all_zero_suffix(b: Seq<u8>, t: int)
    requires
        0 <= t <= b.len(),
        forall|j: int| t <= j < b.len() ==> b[j] == 0,
        t > 0 ==> b[t - 1] != 0,
    ensures
        trim_trailing_zeros(b) == b.subrange(0, t),
    decreases b.len(),
{
    if b.len() == t {
        assert(b.subrange(0, t) =~= b);
    } else {
        assert(b.last() == 0);
        lemma_trim_all_zero_suffix(b.drop_last(), t);
        assert(b.drop_last().subrange(0, t) =~= b.subrange(0, t));
    }
}

/// Law: a well-formed string survives the round trip through its fixed-width
/// field, and the field is exactly `width` bytes long.
pub proof fn lemma_cstr_round_trip(s: Seq<char>, width: int)
    requires
        wf_cstr(s, width),
    ensures
        encode_cstr(s, width).len() == width,
        parse_cstr(encode_cstr(s, width)) == Ok::<Seq<char>, DbzError>(s),
{
    let e = encode_utf8(s);
    let b = encode_cstr(s, width);
    assert forall|j: int| e.len() <= j < b.len() implies b[j] == 0 by {
        assert(b[j] == zero_bytes(width - e.len())[j - e.len()]);
    }
    lemma_trim_all_zero_suffix(b, e.len() as int);
    assert(b.subrange(0, e.len() as int) =~= e);
    encode_utf8_valid_utf8(s);
    encode_utf8_decode_utf8(s);
}

/// Read one fixed-width field of `width` bytes at `*pos`, advancing `*pos`
/// past it on success and leaving it unchanged on failure.
pub fn read_cstr(buffer: &[u8], pos: &mut usize, width: usize) -> (r: Result<String, DbzError>)
    requires
        *old(pos) + width <= buffer@.len(),
    ensures
        match parse_cstr(buffer@.subrange(*old(pos) as int, *old(pos) + width)) {
            Ok(s) => {
                &&& r is Ok
                &&& r->Ok_0@ == s
                &&& *final(pos) == *old(pos) + width
            },
            Err(e) => {
                &&& r is Err
                &&& r->Err_0 == e
                &&& *final(pos) == *old(pos)
            },
        },
{
    let n = buffer.len();
    let start = *pos;
    let end = start + width;
    let ghost field = buffer@.subrange(start as int, end as int);
    let mut t = end;
    while t > start && buffer[t - 1] == 0
        invariant
            start <= t <= end,
            end <= buffer@.len(),
            forall|j: int| t <= j < end ==> buffer@[j] == 0,
        decreases t,
    {
        t -= 1;
    }
    proof {
        assert forall|j: int| (t - start) <= j < field.len() implies field[j] == 0 by {
            assert(field[j] == buffer@[start + j]);
        }
        if t > start {
            assert(field[t - start - 1] == buffer@[t - 1]);
        }
        lemma_trim_all_zero_suffix(field, t - start);
    }
    let sub = vstd::slice::slice_subrange(buffer, start, t);
    proof {
        assert(sub@ =~= field.subrange(0, t - start));
    }
    match try_from_utf8(sub) {
        Option::Some(st) => {
            proof {
                decode_utf8_encode_utf8(sub@);
                encode_utf8_decode_utf8(st@);
            }
            *pos = end;
            Ok(st.to_owned())
        },
        Option::None => Err(DbzError::InvalidUtf8),
    }
}

/// True when the string fits a `width`-byte field and survives the round
/// trip.
pub fn cstr_fits(s: &str, width: usize) -> (r: bool)
    ensures
        r == wf_cstr(s@, width as int),
{
    let b = s.as_bytes();
    let n = b.len();
    n <= width && (n == 0 || b[n - 1] != 0)
}

/// Append the fixed-width field for `s` to `out`.
pub fn push_cstr(out: &mut Vec<u8>, s: &str, width: usize)
    requires
        wf_cstr(s@, width as int),
    ensures
        final(out)@ == old(out)@ + encode_cstr(s@, width as int),
{
    let b = s.as_bytes();
    let n = b.len();
    let mut i: usize = 0;
    while i < n
        invariant
            n == b@.len(),
            0 <= i <= n,
            out@ == old(out)@ + b@.subrange(0, i as int),
        decreases n - i,
    {
        out.push(b[i]);
        i += 1;
        proof {
            assert(out@ =~= old(out)@ + b@.subrange(0, i as int));
        }
    }
    proof {
        assert(b@.subrange(0, n as int) =~= b@);
    }
    let mut k: usize = n;
    while k < width
        invariant
            n <= k <= width,
            n == b@.len(),
            out@ == old(out)@ + b@ + zero_bytes(k - n),
        decreases width - k,
    {
        out.push(0u8);
        k += 1;
        proof {
            assert(out@ =~= old(out)@ + b@ + zero_bytes(k - n));
        }
    }
    proof {
        assert(out@ =~= old(out)@ + encode_cstr(s@, width as int));
    }
}

} // verus!
