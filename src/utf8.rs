use vstd::prelude::*;
use vstd::utf8::*;
use vstd::string::*;

use crate::datatypes::{DataType, Error};

verus! {

/// Entry `i` of a column with these offsets is well formed: its span lies in
/// order inside `values` and holds valid UTF-8.
pub open spec fn span_ok(offsets: Seq<i32>, values: Seq<u8>, i: int) -> bool {
    0 <= offsets[i] <= offsets[i + 1] <= values.len()
        && valid_utf8(values.subrange(offsets[i] as int, offsets[i + 1] as int))
}

/// The offsets of a variable-length column delimit its values: one more
/// offset than entries, starting at zero, non-decreasing, ending at the
/// length of `values`, and each span is valid UTF-8.
pub open spec fn offsets_valid(offsets: Seq<i32>, values: Seq<u8>) -> bool {
    &&& offsets.len() >= 1
    &&& offsets[0] == 0
    &&& offsets.last() == values.len()
    &&& forall|i: int| 0 <= i < offsets.len() - 1 ==> #[trigger] span_ok(offsets, values, i)
}

/// The bytes of entry `i`.
pub open spec fn span(offsets: Seq<i32>, values: Seq<u8>, i: int) -> Seq<u8> {
    values.subrange(offsets[i] as int, offsets[i + 1] as int)
}

/// Relies on std::str::from_utf8: it succeeds exactly on valid UTF-8, and
/// the string it returns has the given bytes.
#[verifier::external_body]
pub(crate) fn as_utf8(bytes: &[u8]) -> (r: Option<&str>)
    ensures
        r is Some <==> valid_utf8(bytes@),
        r matches Some(s) ==> s.spec_bytes() == bytes@,
{
    std::str::from_utf8(bytes).ok()
}

/// Returns whether `offsets` and `values` form a well-formed variable-length
/// column.
pub fn check_offsets_and_utf8(offsets: &Vec<i32>, values: &Vec<u8>) -> (r: bool)
    ensures
        r == offsets_valid(offsets@, values@),
{
    if offsets.len() == 0 || offsets[0] != 0 {
        return false;
    }
    if offsets[offsets.len() - 1] as usize != values.len() || offsets[offsets.len() - 1] < 0 {
        return false;
    }
    let n = offsets.len() - 1;
    let mut i: usize = 0;
    while i < n
        invariant
            n == offsets@.len() - 1,
            i <= n,
            offsets@[0] == 0,
            offsets@.last() == values@.len(),
            forall|j: int| 0 <= j < i ==> #[trigger] span_ok(offsets@, values@, j),
        decreases n - i,
    {
        let start = offsets[i];
        let end = offsets[i + 1];
        if start < 0 || start > end || end as usize > values.len() {
            assert(!span_ok(offsets@, values@, i as int));
            return false;
        }
        let part = vstd::slice::slice_subrange(values.as_slice(), start as usize, end as usize);
        if as_utf8(part).is_none() {
            assert(!span_ok(offsets@, values@, i as int));
            return false;
        }
        i = i + 1;
    }
    true
}

/// A column of nullable UTF-8 strings held as one buffer of bytes and the
/// offsets that delimit its entries.
pub struct Utf8Array {
    offsets: Vec<i32>,
    values: Vec<u8>,
    validity: Option<Vec<bool>>,
}

impl Utf8Array {
    pub closed spec fn spec_offsets(&self) -> Seq<i32> {
        self.offsets@
    }

    pub closed spec fn spec_values(&self) -> Seq<u8> {
        self.values@
    }

    /// One bit per entry, `false` for a null entry; `None` when every entry
    /// is valid.
    pub closed spec fn spec_validity(&self) -> Option<Seq<bool>> {
        match &self.validity {
            Some(v) => Some(v@),
            None => None,
        }
    }

    pub open spec fn spec_len(&self) -> nat {
        (self.spec_offsets().len() - 1) as nat
    }

    /// The offsets are valid and the bitmap, if any, has one bit per entry.
    pub open spec fn wf(&self) -> bool {
        &&& offsets_valid(self.spec_offsets(), self.spec_values())
        &&& match self.spec_validity() {
            Some(v) => v.len() == self.spec_len(),
            None => true,
        }
    }

    /// Whether entry `i` is present.
    pub open spec fn spec_is_valid(&self, i: int) -> bool {
        match self.spec_validity() {
            Some(v) => v[i],
            None => true,
        }
    }

    /// The bytes of entry `i` (empty or not, for a null entry).
    pub open spec fn spec_entry(&self, i: int) -> Seq<u8> {
        span(self.spec_offsets(), self.spec_values(), i)
    }

    /// Builds a column from parts known to be well formed.
    pub(crate) fn from_parts(offsets: Vec<i32>, values: Vec<u8>, validity: Option<Vec<bool>>) -> (r: Self)
        requires
            offsets_valid(offsets@, values@),
            validity matches Some(v) ==> v@.len() == offsets@.len() - 1,
        ensures
            r.wf(),
            r.spec_offsets() == offsets@,
            r.spec_values() == values@,
            r.spec_validity() == (match validity {
                Some(v) => Some(v@),
                None => None::<Seq<bool>>,
            }),
    {
        Utf8Array { offsets, values, validity }
    }

    /// Builds a column from its parts, checking them first.
    pub fn try_new(offsets: Vec<i32>, values: Vec<u8>, validity: Option<Vec<bool>>) -> (r: Result<Self, Error>)
        ensures
            r is Ok <==> (offsets_valid(offsets@, values@) && (validity matches Some(v) ==> v@.len() == offsets@.len() - 1)),
            r matches Ok(a) ==> a.wf() && a.spec_offsets() == offsets@ && a.spec_values() == values@
                && a.spec_validity() == (match validity {
                    Some(v) => Some(v@),
                    None => None::<Seq<bool>>,
                }),
    {
        if !check_offsets_and_utf8(&offsets, &values) {
            return Err(Error::OutOfSpec("offsets must be monotone, in bounds and delimit valid utf8".to_string()));
        }
        if let Some(v) = &validity {
            if v.len() != offsets.len() - 1 {
                return Err(Error::OutOfSpec("validity must have one bit per entry".to_string()));
            }
        }
        Ok(Utf8Array { offsets, values, validity })
    }

    pub fn offsets(&self) -> (r: &Vec<i32>)
        ensures
            r@ == self.spec_offsets(),
    {
        &self.offsets
    }

    pub fn values(&self) -> (r: &Vec<u8>)
        ensures
            r@ == self.spec_values(),
    {
        &self.values
    }

    pub fn validity(&self) -> (r: Option<&Vec<bool>>)
        ensures
            r matches Some(v) ==> self.spec_validity() == Some(v@),
            r is None ==> self.spec_validity() is None,
    {
        match &self.validity {
            Some(v) => Some(v),
            None => None,
        }
    }

    /// The number of entries.
    pub fn len(&self) -> (r: usize)
        requires
            self.wf(),
        ensures
            r == self.spec_len(),
    {
        self.offsets.len() - 1
    }

    /// The logical type of the column.
    pub fn data_type(&self) -> (r: DataType)
        ensures
            r == DataType::Utf8,
    {
        DataType::Utf8
    }

    /// Whether entry `i` is present.
    pub fn is_valid(&self, i: usize) -> (r: bool)
        requires
            self.wf(),
            i < self.spec_len(),
        ensures
            r == self.spec_is_valid(i as int),
    {
        match &self.validity {
            Some(v) => v[i],
            None => true,
        }
    }

    /// The bytes of entry `i`.
    pub fn entry(&self, i: usize) -> (r: &[u8])
        requires
            self.wf(),
            i < self.spec_len(),
        ensures
            r@ == self.spec_entry(i as int),
            valid_utf8(r@),
    {
        assert(span_ok(self.offsets@, self.values@, i as int));
        let n = self.offsets.len();
        assert(i + 1 < n);
        let start = self.offsets[i] as usize;
        let end = self.offsets[i + 1] as usize;
        vstd::slice::slice_subrange(self.values.as_slice(), start, end)
    }
}

} // verus!
