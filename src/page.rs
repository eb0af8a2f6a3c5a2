use vstd::prelude::*;
use vstd::utf8::*;
use vstd::string::*;

use crate::buffer::{append_bytes, append_le_u32, le_u32};
use crate::datatypes::Error;
use crate::statistics::{build_statistics, describes, BinaryStatistics};
use crate::utf8::{span_ok, Utf8Array};

verus! {

/// The encodings of a data page's values.
#[derive(Clone, Copy, Debug, PartialEq, Eq, Structural)]
pub enum Encoding {
    Plain,
    PlainDictionary,
    Rle,
    BitPacked,
    DeltaBinaryPacked,
    DeltaLengthByteArray,
    DeltaByteArray,
    RleDictionary,
    ByteStreamSplit,
}

impl Encoding {
    /// The name of the encoding, as it reads in messages.
    pub fn name(&self) -> &'static str {
        match self {
            Encoding::Plain => "Plain",
            Encoding::PlainDictionary => "PlainDictionary",
            Encoding::Rle => "Rle",
            Encoding::BitPacked => "BitPacked",
            Encoding::DeltaBinaryPacked => "DeltaBinaryPacked",
            Encoding::DeltaLengthByteArray => "DeltaLengthByteArray",
            Encoding::DeltaByteArray => "DeltaByteArray",
            Encoding::RleDictionary => "RleDictionary",
            Encoding::ByteStreamSplit => "ByteStreamSplit",
        }
    }
}

/// The data page format version, which decides how definition levels are
/// framed.
#[derive(Clone, Copy, Debug, PartialEq, Eq, Structural)]
pub enum Version {
    V1,
    V2,
}

/// The bytes of one entry in plain encoding: its length as four
/// little-endian bytes, then its bytes.
pub open spec fn plain_value(b: Seq<u8>) -> Seq<u8> {
    le_u32(b.len() as u32) + b
}

/// Whether entry `i` is written to the value section.
pub open spec fn is_written(a: Utf8Array, is_optional: bool, i: int) -> bool {
    !is_optional || a.spec_is_valid(i)
}

/// The plain encoding of the first `n` entries.
pub open spec fn plain_upto(a: Utf8Array, is_optional: bool, n: nat) -> Seq<u8>
    decreases n,
{
    if n == 0 {
        Seq::empty()
    } else if is_written(a, is_optional, n - 1) {
        plain_upto(a, is_optional, (n - 1) as nat) + plain_value(a.spec_entry(n - 1))
    } else {
        plain_upto(a, is_optional, (n - 1) as nat)
    }
}

/// The lengths of the first `n` entries that are written.
pub open spec fn lengths_upto(a: Utf8Array, is_optional: bool, n: nat) -> Seq<i64>
    decreases n,
{
    if n == 0 {
        Seq::empty()
    } else if is_written(a, is_optional, n - 1) {
        lengths_upto(a, is_optional, (n - 1) as nat).push(a.spec_entry(n - 1).len() as i64)
    } else {
        lengths_upto(a, is_optional, (n - 1) as nat)
    }
}

/// The number of null entries among the first `n`.
pub open spec fn nulls_upto(a: Utf8Array, n: nat) -> nat
    decreases n,
{
    if n == 0 {
        0
    } else if a.spec_is_valid(n - 1) {
        nulls_upto(a, (n - 1) as nat)
    } else {
        nulls_upto(a, (n - 1) as nat) + 1
    }
}

/// What DELTA_BINARY_PACKED makes of `values`.
pub uninterp spec fn delta_binary_packed_of(values: Seq<i64>) -> Seq<u8>;

/// What the bit-packed hybrid RLE encoding makes of `values`, with its
/// header.
pub uninterp spec fn hybrid_rle_of(values: Seq<bool>) -> Seq<u8>;

/// Relies on parquet2::encoding::delta_bitpacked::encode: appends the
/// DELTA_BINARY_PACKED form of `values` to `buffer`. The deltas of values in
/// `0..=i32::MAX` cannot overflow.
#[verifier::external_body]
fn delta_binary_packed(values: &Vec<i64>, buffer: &mut Vec<u8>)
    requires
        forall|i: int| 0 <= i < values@.len() ==> 0 <= #[trigger] values@[i] <= i32::MAX,
    ensures
        final(buffer)@ == old(buffer)@ + delta_binary_packed_of(values@),
{
    parquet2::encoding::delta_bitpacked::encode(values.iter().copied(), buffer)
}

/// Relies on parquet2::encoding::hybrid_rle::encode_bool: appends the
/// bit-packed run of `values` to `buffer`; writing to a `Vec` cannot fail.
#[verifier::external_body]
fn hybrid_rle(values: &Vec<bool>, buffer: &mut Vec<u8>)
    ensures
        final(buffer)@ == old(buffer)@ + hybrid_rle_of(values@),
{
    let _ = parquet2::encoding::hybrid_rle::encode_bool(buffer, values.iter().copied());
}

/// Appends the plain encoding of the column to `buffer`: for each entry that
/// is written (every entry, or only the valid ones when the column is
/// optional), its byte length as four little-endian bytes, then its bytes.
pub fn encode_plain(array: &Utf8Array, is_optional: bool, buffer: &mut Vec<u8>)
    requires
        array.wf(),
    ensures
        final(buffer)@ == old(buffer)@ + plain_upto(*array, is_optional, array.spec_len()),
{
    let n = array.len();
    let mut i: usize = 0;
    while i < n
        invariant
            array.wf(),
            n == array.spec_len(),
            i <= n,
            buffer@ == old(buffer)@ + plain_upto(*array, is_optional, i as nat),
        decreases n - i,
    {
        let ghost prev = buffer@;
        if !is_optional || array.is_valid(i) {
            let x = array.entry(i);
            assert(span_ok(array.spec_offsets(), array.spec_values(), i as int));
            append_le_u32(buffer, x.len() as u32);
            append_bytes(buffer, x);
            assert(buffer@ =~= prev + plain_value(array.spec_entry(i as int)));
        }
        i = i + 1;
        assert(buffer@ =~= old(buffer)@ + plain_upto(*array, is_optional, i as nat));
    }
}

/// The lengths of the entries that are written, in order.
fn written_lengths(array: &Utf8Array, is_optional: bool) -> (r: Vec<i64>)
    requires
        array.wf(),
    ensures
        r@ == lengths_upto(*array, is_optional, array.spec_len()),
        forall|i: int| 0 <= i < r@.len() ==> 0 <= #[trigger] r@[i] <= i32::MAX,
{
    let n = array.len();
    let mut out: Vec<i64> = Vec::new();
    let mut i: usize = 0;
    while i < n
        invariant
            array.wf(),
            n == array.spec_len(),
            i <= n,
            out@ == lengths_upto(*array, is_optional, i as nat),
            forall|j: int| 0 <= j < out@.len() ==> 0 <= #[trigger] out@[j] <= i32::MAX,
        decreases n - i,
    {
        if !is_optional || array.is_valid(i) {
            assert(span_ok(array.spec_offsets(), array.spec_values(), i as int));
            let x = array.entry(i);
            out.push(x.len() as i64);
        }
        i = i + 1;
    }
    out
}

/// Appends the DELTA_LENGTH_BYTE_ARRAY encoding of the column to `buffer`:
/// the delta-packed lengths of the entries that are written, then the
/// column's value bytes.
pub fn encode_delta(array: &Utf8Array, is_optional: bool, buffer: &mut Vec<u8>)
    requires
        array.wf(),
    ensures
        final(buffer)@ == old(buffer)@ + delta_binary_packed_of(lengths_upto(*array, is_optional, array.spec_len()))
            + array.spec_values(),
{
    let lengths = written_lengths(array, is_optional);
    delta_binary_packed(&lengths, buffer);
    append_bytes(buffer, array.values().as_slice());
}

/// The definition levels of a column: one bit per entry, `true` where the
/// entry is present.
pub open spec fn def_levels(a: Utf8Array) -> Seq<bool> {
    Seq::new(a.spec_len(), |i: int| a.spec_is_valid(i))
}

/// The definition-level section of a page: nothing for a required column;
/// for an optional one the hybrid RLE of the levels, preceded in version 1 by
/// its byte length as four little-endian bytes.
pub open spec fn def_levels_section(a: Utf8Array, is_optional: bool, version: Version) -> Seq<u8> {
    if !is_optional {
        Seq::empty()
    } else {
        match version {
            Version::V1 => le_u32(hybrid_rle_of(def_levels(a)).len() as u32) + hybrid_rle_of(def_levels(a)),
            Version::V2 => hybrid_rle_of(def_levels(a)),
        }
    }
}

/// Appends the definition-level section of the column to `buffer`.
pub fn write_def_levels(array: &Utf8Array, is_optional: bool, version: Version, buffer: &mut Vec<u8>)
    requires
        array.wf(),
    ensures
        final(buffer)@ == old(buffer)@ + def_levels_section(*array, is_optional, version),
{
    if !is_optional {
        assert(buffer@ =~= old(buffer)@ + Seq::<u8>::empty());
        return;
    }
    let n = array.len();
    let mut levels: Vec<bool> = Vec::with_capacity(n);
    let mut i: usize = 0;
    while i < n
        invariant
            array.wf(),
            n == array.spec_len(),
            i <= n,
            levels@ == Seq::new(i as nat, |j: int| array.spec_is_valid(j)),
        decreases n - i,
    {
        levels.push(array.is_valid(i));
        i = i + 1;
        assert(levels@ =~= Seq::new(i as nat, |j: int| array.spec_is_valid(j)));
    }
    assert(levels@ =~= def_levels(*array));
    let mut encoded: Vec<u8> = Vec::new();
    hybrid_rle(&levels, &mut encoded);
    assert(encoded@ =~= hybrid_rle_of(def_levels(*array)));
    match version {
        Version::V1 => {
            append_le_u32(buffer, encoded.len() as u32);
            append_bytes(buffer, encoded.as_slice());
            assert(buffer@ =~= old(buffer)@ + def_levels_section(*array, is_optional, version));
        },
        Version::V2 => {
            append_bytes(buffer, encoded.as_slice());
        },
    }
}

/// Counts the null entries of the column.
pub fn null_count(array: &Utf8Array) -> (r: usize)
    requires
        array.wf(),
    ensures
        r == nulls_upto(*array, array.spec_len()),
{
    let n = array.len();
    let mut count: usize = 0;
    let mut i: usize = 0;
    while i < n
        invariant
            array.wf(),
            n == array.spec_len(),
            i <= n,
            count == nulls_upto(*array, i as nat),
            count <= i,
        decreases n - i,
    {
        if !array.is_valid(i) {
            count = count + 1;
        }
        i = i + 1;
    }
    count
}

/// How a page is written.
#[derive(Clone, Copy, Debug, PartialEq, Eq, Structural)]
pub struct WriteOptions {
    pub write_statistics: bool,
    pub version: Version,
}

/// A data page of a string column: its bytes (definition levels, then
/// values) and what a reader needs to split and interpret them.
pub struct DataPage {
    pub buffer: Vec<u8>,
    pub num_values: usize,
    pub num_rows: usize,
    pub null_count: usize,
    pub definition_levels_byte_length: usize,
    pub statistics: Option<BinaryStatistics>,
    pub encoding: Encoding,
}

/// The value section of a page in the given encoding.
pub open spec fn value_section(a: Utf8Array, is_optional: bool, encoding: Encoding) -> Seq<u8> {
    if encoding == Encoding::Plain {
        plain_upto(a, is_optional, a.spec_len())
    } else {
        delta_binary_packed_of(lengths_upto(a, is_optional, a.spec_len())) + a.spec_values()
    }
}

/// Encodes a string column into a data page. Only the plain and the
/// delta-length encodings apply to strings; any other is refused.
pub fn array_to_page(array: &Utf8Array, options: WriteOptions, is_optional: bool, encoding: Encoding) -> (r: Result<DataPage, Error>)
    requires
        array.wf(),
    ensures
        r is Err <==> !(encoding == Encoding::Plain || encoding == Encoding::DeltaLengthByteArray),
        r matches Err(e) ==> e is InvalidArgumentError,
        r matches Ok(p) ==> {
            &&& p.buffer@ == def_levels_section(*array, is_optional, options.version)
                + value_section(*array, is_optional, encoding)
            &&& p.definition_levels_byte_length == def_levels_section(*array, is_optional, options.version).len()
            &&& p.num_values == array.spec_len()
            &&& p.num_rows == array.spec_len()
            &&& p.null_count == nulls_upto(*array, array.spec_len())
            &&& p.encoding == encoding
            &&& p.statistics is Some <==> options.write_statistics
            &&& p.statistics matches Some(s) ==> describes(*array, s)
        },
{
    let mut buffer: Vec<u8> = Vec::new();
    write_def_levels(array, is_optional, options.version, &mut buffer);
    let definition_levels_byte_length = buffer.len();
    match encoding {
        Encoding::Plain => encode_plain(array, is_optional, &mut buffer),
        Encoding::DeltaLengthByteArray => encode_delta(array, is_optional, &mut buffer),
        _ => {
            let mut message = String::from_str("Datatype Utf8 cannot be encoded by ");
            message.append(encoding.name());
            message.append(" encoding");
            return Err(Error::InvalidArgumentError(message));
        },
    }
    let statistics = if options.write_statistics {
        Some(build_statistics(array))
    } else {
        None
    };
    let len = array.len();
    Ok(DataPage {
        buffer,
        num_values: len,
        num_rows: len,
        null_count: null_count(array),
        definition_levels_byte_length,
        statistics,
        encoding,
    })
}

} // verus!
