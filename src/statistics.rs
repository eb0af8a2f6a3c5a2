use vstd::prelude::*;
use vstd::utf8::*;
use vstd::string::*;

use crate::page::nulls_upto;
use crate::truncate::{truncate_down, truncate_up, truncated_down, truncated_up};
use crate::utf8::{as_utf8, Utf8Array};

verus! {

/// Byte-wise (unsigned lexicographic) order: `a` sorts before `b`.
pub open spec fn bytes_lt(a: Seq<u8>, b: Seq<u8>) -> bool
    decreases a.len(),
{
    if a.len() == 0 {
        b.len() > 0
    } else if b.len() == 0 {
        false
    } else if a[0] != b[0] {
        a[0] < b[0]
    } else {
        bytes_lt(a.drop_first(), b.drop_first())
    }
}

pub proof fn lemma_bytes_lt_irreflexive(a: Seq<u8>)
    ensures
        !bytes_lt(a, a),
    decreases a.len(),
{
    if a.len() > 0 {
        lemma_bytes_lt_irreflexive(a.drop_first());
    }
}

pub proof fn lemma_bytes_lt_transitive(a: Seq<u8>, b: Seq<u8>, c: Seq<u8>)
    requires
        bytes_lt(a, b),
        bytes_lt(b, c),
    ensures
        bytes_lt(a, c),
    decreases a.len(),
{
    if a.len() > 0 && b.len() > 0 && c.len() > 0 && a[0] == b[0] && b[0] == c[0] {
        lemma_bytes_lt_transitive(a.drop_first(), b.drop_first(), c.drop_first());
    }
}

pub proof fn lemma_bytes_lt_total(a: Seq<u8>, b: Seq<u8>)
    ensures
        a == b || bytes_lt(a, b) || bytes_lt(b, a),
    decreases a.len(),
{
    if a.len() > 0 && b.len() > 0 && a[0] == b[0] {
        lemma_bytes_lt_total(a.drop_first(), b.drop_first());
        if a.drop_first() == b.drop_first() {
            assert(a =~= seq![a[0]] + a.drop_first());
            assert(b =~= seq![b[0]] + b.drop_first());
        }
    } else if a.len() == 0 && b.len() == 0 {
        assert(a =~= b);
    }
}

/// Compares `a` and `b` byte-wise.
pub fn lt_bytes(a: &[u8], b: &[u8]) -> (r: bool)
    ensures
        r == bytes_lt(a@, b@),
{
    let mut i: usize = 0;
    assert(a@.subrange(0, a@.len() as int) =~= a@);
    assert(b@.subrange(0, b@.len() as int) =~= b@);
    while i < a.len() && i < b.len()
        invariant
            i <= a@.len(),
            i <= b@.len(),
            bytes_lt(a@, b@) == bytes_lt(a@.subrange(i as int, a@.len() as int), b@.subrange(i as int, b@.len() as int)),
        decreases a@.len() - i,
    {
        if a[i] != b[i] {
            return a[i] < b[i];
        }
        assert(a@.subrange(i as int, a@.len() as int).drop_first() =~= a@.subrange(i + 1, a@.len() as int));
        assert(b@.subrange(i as int, b@.len() as int).drop_first() =~= b@.subrange(i + 1, b@.len() as int));
        i = i + 1;
    }
    i < b.len()
}

/// A statistics record of a binary column.
pub struct BinaryStatistics {
    pub null_count: Option<i64>,
    pub distinct_count: Option<i64>,
    pub max_value: Option<Vec<u8>>,
    pub min_value: Option<Vec<u8>>,
}

/// The bytes that entry `i` contributes to the maximum.
pub open spec fn max_candidate(a: Utf8Array, i: int) -> Seq<u8> {
    encode_utf8(truncated_up(decode_utf8(a.spec_entry(i))))
}

/// The bytes that entry `i` contributes to the minimum.
pub open spec fn min_candidate(a: Utf8Array, i: int) -> Seq<u8> {
    encode_utf8(truncated_down(decode_utf8(a.spec_entry(i))))
}

/// `m` is the largest of the maximum candidates of the valid entries.
pub open spec fn is_stat_max(a: Utf8Array, m: Seq<u8>) -> bool {
    &&& exists|i: int| 0 <= i < a.spec_len() && a.spec_is_valid(i) && m == #[trigger] max_candidate(a, i)
    &&& forall|i: int| 0 <= i < a.spec_len() && a.spec_is_valid(i) ==> !bytes_lt(m, #[trigger] max_candidate(a, i))
}

/// `m` is the smallest of the minimum candidates of the valid entries.
pub open spec fn is_stat_min(a: Utf8Array, m: Seq<u8>) -> bool {
    &&& exists|i: int| 0 <= i < a.spec_len() && a.spec_is_valid(i) && m == #[trigger] min_candidate(a, i)
    &&& forall|i: int| 0 <= i < a.spec_len() && a.spec_is_valid(i) ==> !bytes_lt(#[trigger] min_candidate(a, i), m)
}

pub open spec fn has_valid_entry(a: Utf8Array) -> bool {
    exists|i: int| 0 <= i < a.spec_len() && #[trigger] a.spec_is_valid(i)
}

/// `s` is the statistics record of the column `a`.
pub open spec fn describes(a: Utf8Array, s: BinaryStatistics) -> bool {
    &&& s.null_count == Some(nulls_upto(a, a.spec_len()) as i64)
    &&& s.distinct_count is None
    &&& s.max_value is Some <==> has_valid_entry(a)
    &&& s.min_value is Some <==> has_valid_entry(a)
    &&& s.max_value matches Some(m) ==> is_stat_max(a, m@)
    &&& s.min_value matches Some(m) ==> is_stat_min(a, m@)
}

fn string_bytes(s: String) -> (r: Vec<u8>)
    ensures
        r@ == encode_utf8(s@),
{
    vstd::slice::slice_to_vec(s.as_str().as_bytes())
}

/// Computes the statistics of a string column: the number of nulls, and the
/// byte-wise smallest and largest of its valid entries, truncated down and up
/// respectively. Without valid entries there is no minimum or maximum.
pub fn build_statistics(array: &Utf8Array) -> (r: BinaryStatistics)
    requires
        array.wf(),
    ensures
        describes(*array, r),
{
    let n = array.len();
    let nulls = crate::page::null_count(array);
    let mut max: Option<Vec<u8>> = None;
    let mut min: Option<Vec<u8>> = None;
    let mut i: usize = 0;
    while i < n
        invariant
            array.wf(),
            n == array.spec_len(),
            i <= n,
            max is Some <==> exists|j: int| 0 <= j < i && #[trigger] array.spec_is_valid(j),
            min is Some <==> exists|j: int| 0 <= j < i && #[trigger] array.spec_is_valid(j),
            max matches Some(m) ==> (exists|j: int| 0 <= j < i && array.spec_is_valid(j) && m@ == #[trigger] max_candidate(*array, j)),
            max matches Some(m) ==> (forall|j: int| 0 <= j < i && array.spec_is_valid(j) ==> !bytes_lt(m@, #[trigger] max_candidate(*array, j))),
            min matches Some(m) ==> (exists|j: int| 0 <= j < i && array.spec_is_valid(j) && m@ == #[trigger] min_candidate(*array, j)),
            min matches Some(m) ==> (forall|j: int| 0 <= j < i && array.spec_is_valid(j) ==> !bytes_lt(#[trigger] min_candidate(*array, j), m@)),
        decreases n - i,
    {
        if array.is_valid(i) {
            let entry = array.entry(i);
            let s = match as_utf8(entry) {
                Some(s) => s,
                None => {
                    proof { assert(false); }
                    ""
                },
            };
            proof {
                encode_utf8_decode_utf8(s@);
            }
            let up = string_bytes(truncate_up(s));
            let down = string_bytes(truncate_down(s));
            assert(up@ == max_candidate(*array, i as int));
            assert(down@ == min_candidate(*array, i as int));
            let replace_max = match &max {
                Some(m) => !lt_bytes(up.as_slice(), m.as_slice()),
                None => true,
            };
            proof {
                if let Some(m) = &max {
                    lemma_bytes_lt_irreflexive(up@);
                    if replace_max {
                        assert forall|j: int| 0 <= j < i && array.spec_is_valid(j) implies !bytes_lt(up@, #[trigger] max_candidate(*array, j)) by {
                            lemma_bytes_lt_total(m@, max_candidate(*array, j));
                            if bytes_lt(up@, max_candidate(*array, j)) && bytes_lt(max_candidate(*array, j), m@) {
                                lemma_bytes_lt_transitive(up@, max_candidate(*array, j), m@);
                            }
                        }
                    } else {
                        if bytes_lt(m@, up@) {
                            lemma_bytes_lt_transitive(m@, up@, m@);
                            lemma_bytes_lt_irreflexive(m@);
                        }
                    }
                } else {
                    lemma_bytes_lt_irreflexive(up@);
                }
            }
            if replace_max {
                max = Some(up);
            }
            let replace_min = match &min {
                Some(m) => lt_bytes(down.as_slice(), m.as_slice()),
                None => true,
            };
            proof {
                lemma_bytes_lt_irreflexive(down@);
                if let Some(m) = &min {
                    if replace_min {
                        assert forall|j: int| 0 <= j < i && array.spec_is_valid(j) implies !bytes_lt(#[trigger] min_candidate(*array, j), down@) by {
                            if bytes_lt(min_candidate(*array, j), down@) {
                                lemma_bytes_lt_transitive(min_candidate(*array, j), down@, m@);
                            }
                        }
                    }
                }
            }
            if replace_min {
                min = Some(down);
            }
        }
        i = i + 1;
    }
    BinaryStatistics {
        null_count: Some(nulls as i64),
        distinct_count: None,
        max_value: max,
        min_value: min,
    }
}

} // verus!
