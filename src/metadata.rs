use vstd::prelude::*;

use crate::datatypes::Error;

verus! {

/// The key under which a file's metadata stores the serialized schema.
pub const ARROW_SCHEMA_META_KEY: &'static str = "ARROW:schema";

/// base64's decoding error, which `base64_decode` hands back before it is
/// mapped to this library's error.
#[verifier::external_type_specification]
#[verifier::external_body]
pub struct ExDecodeError(base64::DecodeError);

/// What standard base64 decoding makes of `s`: `None` where it is not valid
/// base64.
pub uninterp spec fn base64_decoded(s: Seq<char>) -> Option<Seq<u8>>;

/// Relies on base64::decode (standard alphabet, with padding): the bytes
/// that `s` encodes, or an error where it is not valid base64.
#[verifier::external_body]
fn base64_decode(s: &str) -> (r: Result<Vec<u8>, base64::DecodeError>)
    ensures
        r is Err <==> base64_decoded(s@) is None,
        r matches Ok(b) ==> base64_decoded(s@) == Some(b@),
{
    base64::decode(s)
}

/// Whether `b` starts with the continuation marker: four `0xFF` bytes.
pub open spec fn has_continuation_marker(b: Seq<u8>) -> bool {
    b.len() >= 8 && b[0] == 0xFF && b[1] == 0xFF && b[2] == 0xFF && b[3] == 0xFF
}

/// The serialized schema inside a decoded metadata value: after the
/// continuation marker and the four bytes of length that follow it, where
/// the marker is there, else the whole value.
pub open spec fn schema_payload(b: Seq<u8>) -> Seq<u8> {
    if has_continuation_marker(b) {
        b.subrange(8, b.len() as int)
    } else {
        b
    }
}

/// Decodes a schema stored in file metadata: base64, then the continuation
/// marker is skipped. Input that is not base64 is an error.
pub fn get_arrow_schema_from_metadata(encoded_meta: &str) -> (r: Result<Vec<u8>, Error>)
    ensures
        r is Err <==> base64_decoded(encoded_meta@) is None,
        r matches Err(e) ==> e is InvalidArgumentError,
        r matches Ok(b) ==> (base64_decoded(encoded_meta@) matches Some(d) && b@ == schema_payload(d)),
{
    match base64_decode(encoded_meta) {
        Ok(bytes) => {
            if bytes.len() >= 8 && bytes[0] == 0xFF && bytes[1] == 0xFF && bytes[2] == 0xFF && bytes[3] == 0xFF {
                let mut out: Vec<u8> = Vec::with_capacity(bytes.len() - 8);
                let mut i: usize = 8;
                while i < bytes.len()
                    invariant
                        8 <= i <= bytes@.len(),
                        out@ == bytes@.subrange(8, i as int),
                    decreases bytes@.len() - i,
                {
                    out.push(bytes[i]);
                    i = i + 1;
                    assert(out@ =~= bytes@.subrange(8, i as int));
                }
                Ok(out)
            } else {
                Ok(bytes)
            }
        },
        Err(_) => Err(
            Error::InvalidArgumentError(
                "Unable to decode the encoded schema stored in ARROW:schema".to_string(),
            ),
        ),
    }
}

/// Entry `i` of the metadata holds the schema key.
pub open spec fn is_schema_key(m: Seq<(String, String)>, i: int) -> bool {
    m[i].0@ == ARROW_SCHEMA_META_KEY@
}

/// Entry `i` is the first that holds the schema key.
pub open spec fn is_first_schema_key(m: Seq<(String, String)>, i: int) -> bool {
    &&& 0 <= i < m.len()
    &&& is_schema_key(m, i)
    &&& forall|j: int| 0 <= j < i ==> !#[trigger] is_schema_key(m, j)
}

/// Takes the serialized schema out of a file's key-value metadata and
/// decodes it. Without the schema key the result is `None` and the metadata
/// is left as it was; otherwise the entry is removed, and a value that is not
/// base64 is an error.
pub fn read_schema_from_metadata(metadata: &mut Vec<(String, String)>) -> (r: Result<Option<Vec<u8>>, Error>)
    ensures
        (forall|i: int| 0 <= i < old(metadata)@.len() ==> !#[trigger] is_schema_key(old(metadata)@, i))
            ==> (r matches Ok(None) && final(metadata)@ == old(metadata)@),
        (exists|i: int| 0 <= i < old(metadata)@.len() && #[trigger] is_schema_key(old(metadata)@, i))
            ==> exists|i: int| #[trigger] is_first_schema_key(old(metadata)@, i)
                && final(metadata)@ == old(metadata)@.remove(i)
                && (r is Err <==> base64_decoded(old(metadata)@[i].1@) is None)
                && (r matches Err(e) ==> e is InvalidArgumentError)
                && (r matches Ok(o) ==> (o matches Some(b) && (base64_decoded(old(metadata)@[i].1@) matches Some(d)
                    && b@ == schema_payload(d)))),
{
    let key = ARROW_SCHEMA_META_KEY.to_string();
    proof {
        vstd::string::to_string_from_display_ensures_for_str(ARROW_SCHEMA_META_KEY, key);
    }
    let mut i: usize = 0;
    while i < metadata.len()
        invariant
            i <= metadata@.len(),
            metadata@ == old(metadata)@,
            key@ == ARROW_SCHEMA_META_KEY@,
            forall|j: int| 0 <= j < i ==> !#[trigger] is_schema_key(metadata@, j),
        decreases metadata@.len() - i,
    {
        if metadata[i].0 == key {
            let entry = metadata.remove(i);
            assert(is_first_schema_key(old(metadata)@, i as int));
            let decoded = get_arrow_schema_from_metadata(entry.1.as_str());
            return match decoded {
                Ok(b) => Ok(Some(b)),
                Err(e) => Err(e),
            };
        }
        i = i + 1;
    }
    Ok(None)
}

/// `m` with the value of key `k` set to `v`: in place where the key is
/// there, else appended.
pub open spec fn insert_pair(m: Seq<(Seq<char>, Seq<char>)>, k: Seq<char>, v: Seq<char>) -> Seq<(Seq<char>, Seq<char>)>
    decreases m.len(),
{
    if m.len() == 0 {
        seq![(k, v)]
    } else if m[0].0 == k {
        m.update(0, (k, v))
    } else {
        seq![m[0]] + insert_pair(m.drop_first(), k, v)
    }
}

/// The metadata that the pairs of `kvs` with a value make, a later value of
/// a key replacing an earlier one.
pub open spec fn metadata_of(kvs: Seq<(String, Option<String>)>) -> Seq<(Seq<char>, Seq<char>)>
    decreases kvs.len(),
{
    if kvs.len() == 0 {
        Seq::empty()
    } else {
        let rest = metadata_of(kvs.drop_last());
        match kvs.last().1 {
            Some(v) => insert_pair(rest, kvs.last().0@, v@),
            None => rest,
        }
    }
}

pub open spec fn pairs_view(m: Seq<(String, String)>) -> Seq<(Seq<char>, Seq<char>)> {
    m.map_values(|p: (String, String)| (p.0@, p.1@))
}

proof fn lemma_insert_found(m: Seq<(Seq<char>, Seq<char>)>, k: Seq<char>, v: Seq<char>, i: int)
    requires
        0 <= i < m.len(),
        m[i].0 == k,
        forall|j: int| 0 <= j < i ==> (#[trigger] m[j]).0 != k,
    ensures
        insert_pair(m, k, v) == m.update(i, (k, v)),
    decreases i,
{
    if i > 0 {
        lemma_insert_found(m.drop_first(), k, v, i - 1);
        assert(seq![m[0]] + m.drop_first().update(i - 1, (k, v)) =~= m.update(i, (k, v)));
    }
}

proof fn lemma_insert_absent(m: Seq<(Seq<char>, Seq<char>)>, k: Seq<char>, v: Seq<char>)
    requires
        forall|j: int| 0 <= j < m.len() ==> (#[trigger] m[j]).0 != k,
    ensures
        insert_pair(m, k, v) == m.push((k, v)),
    decreases m.len(),
{
    if m.len() > 0 {
        lemma_insert_absent(m.drop_first(), k, v);
        assert(seq![m[0]] + m.drop_first().push((k, v)) =~= m.push((k, v)));
    }
}

/// No key occurs twice.
pub open spec fn keys_unique(m: Seq<(Seq<char>, Seq<char>)>) -> bool {
    forall|i: int, j: int| 0 <= i < j < m.len() ==> (#[trigger] m[i]).0 != (#[trigger] m[j]).0
}

proof fn lemma_insert_keeps_keys_unique(m: Seq<(Seq<char>, Seq<char>)>, k: Seq<char>, v: Seq<char>)
    requires
        keys_unique(m),
    ensures
        keys_unique(insert_pair(m, k, v)),
{
    if exists|i: int| 0 <= i < m.len() && (#[trigger] m[i]).0 == k {
        let i = choose|i: int| 0 <= i < m.len() && (#[trigger] m[i]).0 == k;
        assert forall|j: int| 0 <= j < i implies (#[trigger] m[j]).0 != k by {
            assert(m[j].0 != m[i].0);
        }
        lemma_insert_found(m, k, v, i);
        let r = m.update(i, (k, v));
        assert forall|a: int, b: int| 0 <= a < b < r.len() implies (#[trigger] r[a]).0 != (#[trigger] r[b]).0 by {
            assert(m[a].0 != m[b].0);
        }
    } else {
        lemma_insert_absent(m, k, v);
        let r = m.push((k, v));
        assert forall|a: int, b: int| 0 <= a < b < r.len() implies (#[trigger] r[a]).0 != (#[trigger] r[b]).0 by {
            if b < m.len() {
                assert(m[a].0 != m[b].0);
            } else {
                assert(r[a] == m[a]);
            }
        }
    }
}

/// Sets the value of `key` in the metadata, in place where the key is
/// there, else as a new pair at the end.
fn insert_metadata(m: &mut Vec<(String, String)>, key: String, value: String)
    ensures
        pairs_view(final(m)@) == insert_pair(pairs_view(old(m)@), key@, value@),
{
    let ghost before = pairs_view(m@);
    let mut i: usize = 0;
    while i < m.len()
        invariant
            i <= m@.len(),
            m@ == old(m)@,
            before == pairs_view(m@),
            forall|j: int| 0 <= j < i ==> (#[trigger] before[j]).0 != key@,
        decreases m@.len() - i,
    {
        if m[i].0 == key {
            proof {
                lemma_insert_found(before, key@, value@, i as int);
            }
            m.set(i, (key, value));
            assert(pairs_view(m@) =~= before.update(i as int, (key@, value@)));
            return;
        }
        i = i + 1;
    }
    proof {
        lemma_insert_absent(before, key@, value@);
    }
    m.push((key, value));
    assert(pairs_view(m@) =~= before.push((key@, value@)));
}

/// Turns a file's key-value pairs into metadata: the pairs that have a
/// value, one per key, a later value of a key replacing an earlier one.
pub fn parse_key_value_metadata(key_value_metadata: &Option<Vec<(String, Option<String>)>>) -> (r: Vec<(String, String)>)
    ensures
        key_value_metadata is None ==> r@.len() == 0,
        key_value_metadata matches Some(kvs) ==> pairs_view(r@) == metadata_of(kvs@),
        keys_unique(pairs_view(r@)),
{
    let mut out: Vec<(String, String)> = Vec::new();
    assert(pairs_view(out@) =~= Seq::<(Seq<char>, Seq<char>)>::empty());
    match key_value_metadata {
        None => {},
        Some(kvs) => {
            let mut i: usize = 0;
            assert(pairs_view(out@) =~= metadata_of(kvs@.subrange(0, 0)));
            while i < kvs.len()
                invariant
                    i <= kvs@.len(),
                    pairs_view(out@) == metadata_of(kvs@.subrange(0, i as int)),
                    keys_unique(pairs_view(out@)),
                decreases kvs@.len() - i,
            {
                proof {
                    assert(kvs@.subrange(0, i + 1).drop_last() =~= kvs@.subrange(0, i as int));
                }
                match &kvs[i].1 {
                    Some(v) => {
                        let key = kvs[i].0.clone();
                        let value = v.clone();
                        proof {
                            lemma_insert_keeps_keys_unique(pairs_view(out@), key@, value@);
                        }
                        insert_metadata(&mut out, key, value);
                    },
                    None => {},
                }
                i = i + 1;
            }
            assert(kvs@.subrange(0, kvs@.len() as int) =~= kvs@);
        },
    }
    out
}

} // verus!
