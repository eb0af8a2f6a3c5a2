use vstd::prelude::*;
use vstd::string::*;

use crate::datatypes::DataType;

verus! {

/// A string column in which every entry is the same value. Only the value is
/// stored, so the memory it takes does not grow with the number of entries.
pub struct ConstUtf8Array {
    value: String,
    len: usize,
}

impl ConstUtf8Array {
    /// The value of every entry.
    pub closed spec fn spec_value(&self) -> Seq<char> {
        self.value@
    }

    /// The number of entries.
    pub closed spec fn spec_len(&self) -> nat {
        self.len as nat
    }

    /// Returns a column with `value` repeated `len` times.
    pub fn new(value: String, len: usize) -> (r: Self)
        ensures
            r.spec_value() == value@,
            r.spec_len() == len,
    {
        Self { value, len }
    }

    /// Returns the value of every entry.
    pub fn value(&self) -> (r: &str)
        ensures
            r@ == self.spec_value(),
    {
        self.value.as_str()
    }

    /// Returns the number of entries.
    pub fn len(&self) -> (r: usize)
        ensures
            r == self.spec_len(),
    {
        self.len
    }

    /// Returns whether the column has no entries.
    pub fn is_empty(&self) -> (r: bool)
        ensures
            r == (self.spec_len() == 0),
    {
        self.len == 0
    }

    /// Returns the entries in order: the value, `len` times.
    pub fn iter(&self) -> (r: Vec<&str>)
        ensures
            r@.len() == self.spec_len(),
            forall|i: int| 0 <= i < r@.len() ==> (#[trigger] r@[i])@ == self.spec_value(),
    {
        let mut out: Vec<&str> = Vec::with_capacity(self.len);
        let value = self.value.as_str();
        let mut i: usize = 0;
        while i < self.len
            invariant
                i <= self.len,
                value@ == self.value@,
                out@.len() == i,
                forall|j: int| 0 <= j < out@.len() ==> (#[trigger] out@[j])@ == self.value@,
            decreases self.len - i,
        {
            out.push(value);
            i = i + 1;
        }
        out
    }

    /// The logical type of the column.
    pub fn data_type(&self) -> (r: DataType)
        ensures
            r == DataType::ConstUtf8,
    {
        DataType::ConstUtf8
    }

    /// The validity of the entries: a constant column has no null entries, so
    /// it carries no bitmap.
    pub fn validity(&self) -> (r: Option<&Vec<bool>>)
        ensures
            r.is_none(),
    {
        None
    }

    /// Returns the entries `offset .. offset + length`. Every entry is the
    /// value, so the result is a column of `length` entries with that value.
    pub fn slice(&self, offset: usize, length: usize) -> (r: Self)
        requires
            offset + length <= self.spec_len(),
        ensures
            r.spec_value() == self.spec_value(),
            r.spec_len() == length,
    {
        self.slice_unchecked(offset, length)
    }

    /// As `slice`; the offset is not read, and the caller is trusted to keep
    /// the window inside the column.
    pub fn slice_unchecked(&self, offset: usize, length: usize) -> (r: Self)
        ensures
            r.spec_value() == self.spec_value(),
            r.spec_len() == length,
    {
        Self { value: self.value.clone(), len: length }
    }

    /// Returns the column with the given validity. A constant column cannot
    /// hold nulls, so only `None` is admitted, and the result equals `self`.
    pub fn with_validity(&self, validity: Option<Vec<bool>>) -> (r: Self)
        requires
            validity.is_none(),
        ensures
            r.spec_value() == self.spec_value(),
            r.spec_len() == self.spec_len(),
    {
        Self { value: self.value.clone(), len: self.len }
    }

    /// Returns a boxed copy of the column.
    pub fn to_boxed(&self) -> (r: Box<Self>)
        ensures
            r.spec_value() == self.spec_value(),
            r.spec_len() == self.spec_len(),
    {
        Box::new(Self { value: self.value.clone(), len: self.len })
    }
}

/// Appends the column's value to `f`: how a single entry is displayed.
pub fn write_value(array: &ConstUtf8Array, f: &mut String)
    ensures
        final(f)@ == old(f)@ + array.spec_value(),
{
    f.append(array.value());
}

} // verus!
