use vstd::prelude::*;
use vstd::utf8::*;
use vstd::string::*;

use crate::buffer::append_bytes;
use crate::const_utf8::ConstUtf8Array;
use crate::utf8::{offsets_valid, span_ok, Utf8Array};

verus! {

/// `b` repeated `n` times.
pub open spec fn repeat_bytes(b: Seq<u8>, n: nat) -> Seq<u8>
    decreases n,
{
    if n == 0 {
        Seq::empty()
    } else {
        repeat_bytes(b, (n - 1) as nat) + b
    }
}

/// The offsets that `n` entries of `w` bytes each add after `last`.
pub open spec fn repeated_offsets(last: int, w: int, n: nat) -> Seq<i32> {
    Seq::new(n, |k: int| (last + (k + 1) * w) as i32)
}

proof fn lemma_repeat_len(b: Seq<u8>, n: nat)
    ensures
        repeat_bytes(b, n).len() == n * b.len(),
    decreases n,
{
    if n > 0 {
        lemma_repeat_len(b, (n - 1) as nat);
        assert(n * b.len() == (n - 1) * b.len() + b.len()) by (nonlinear_arith);
    } else {
        assert(n * b.len() == 0) by (nonlinear_arith)
            requires n == 0;
    }
}

proof fn lemma_mul_mono(i: nat, n: nat, w: nat)
    requires
        i <= n,
    ensures
        i * w <= n * w,
        (i + 1) * w == i * w + w,
{
    assert(i * w <= n * w) by (nonlinear_arith)
        requires i <= n;
    assert((i + 1) * w == i * w + w) by (nonlinear_arith);
}

/// Builds a variable-length string column by copying entries of constant
/// columns and appending null entries.
pub struct GrowableConstUtf8<'a> {
    arrays: Vec<&'a ConstUtf8Array>,
    validity: Vec<bool>,
    values: Vec<u8>,
    offsets: Vec<i32>,
    length: i32,
}

impl<'a> GrowableConstUtf8<'a> {
    pub closed spec fn spec_arrays(&self) -> Seq<&'a ConstUtf8Array> {
        self.arrays@
    }

    pub closed spec fn spec_offsets(&self) -> Seq<i32> {
        self.offsets@
    }

    pub closed spec fn spec_values(&self) -> Seq<u8> {
        self.values@
    }

    /// One bit per appended entry, `false` for a null entry.
    pub closed spec fn spec_validity(&self) -> Seq<bool> {
        self.validity@
    }

    /// The number of entries appended so far.
    pub open spec fn spec_len(&self) -> nat {
        self.spec_validity().len()
    }

    /// The accumulated offsets delimit the accumulated values, with one
    /// offset more than there are entries.
    pub closed spec fn wf(&self) -> bool {
        &&& offsets_valid(self.offsets@, self.values@)
        &&& self.offsets@.len() == self.validity@.len() + 1
        &&& self.length == self.offsets@.last()
    }

    /// Creates a builder that copies from `arrays`, with room for `capacity`
    /// entries.
    pub fn new(arrays: Vec<&'a ConstUtf8Array>, use_validity: bool, capacity: usize) -> (r: Self)
        ensures
            r.wf(),
            r.spec_arrays() == arrays@,
            r.spec_offsets() == seq![0i32],
            r.spec_values() == Seq::<u8>::empty(),
            r.spec_validity() == Seq::<bool>::empty(),
    {
        let mut offsets: Vec<i32> = Vec::with_capacity(capacity);
        let length: i32 = 0;
        offsets.push(length);
        let r = Self {
            arrays,
            values: Vec::new(),
            offsets,
            length,
            validity: Vec::with_capacity(capacity),
        };
        assert(r.offsets@ =~= seq![0i32]);
        r
    }

    /// Appends `len` entries of the array at `index`. All entries of a
    /// constant column are equal, so `start` is not read.
    pub fn extend(&mut self, index: usize, start: usize, len: usize)
        requires
            old(self).wf(),
            index < old(self).spec_arrays().len(),
            old(self).spec_values().len() + len * encode_utf8(old(self).spec_arrays()[index as int].spec_value()).len() <= i32::MAX,
        ensures
            final(self).wf(),
            final(self).spec_arrays() == old(self).spec_arrays(),
            final(self).spec_values() == old(self).spec_values() + repeat_bytes(
                encode_utf8(old(self).spec_arrays()[index as int].spec_value()),
                len as nat,
            ),
            final(self).spec_offsets() == old(self).spec_offsets() + repeated_offsets(
                old(self).spec_values().len() as int,
                encode_utf8(old(self).spec_arrays()[index as int].spec_value()).len() as int,
                len as nat,
            ),
            final(self).spec_validity() == old(self).spec_validity() + Seq::new(len as nat, |k: int| true),
    {
        let array = self.arrays[index];
        let value = array.value().as_bytes();
        let ghost b = value@;
        let ghost old_values = self.values@;
        let ghost old_offsets = self.offsets@;
        let ghost old_validity = self.validity@;
        let ghost w = b.len() as int;
        proof {
            vstd::utf8::encode_utf8_valid_utf8(array.spec_value());
            lemma_mul_mono(len as nat, len as nat, b.len());
        }
        self.values.reserve(len * value.len());
        self.offsets.reserve(len);
        self.validity.reserve(len);
        let mut i: usize = 0;
        while i < len
            invariant
                i <= len,
                value@ == b,
                valid_utf8(b),
                w == b.len(),
                old_values.len() + len * w <= i32::MAX,
                self.arrays == old(self).arrays,
                self.values@ == old_values + repeat_bytes(b, i as nat),
                self.offsets@ == old_offsets + repeated_offsets(old_values.len() as int, w, i as nat),
                self.validity@ == old_validity + Seq::new(i as nat, |k: int| true),
                offsets_valid(self.offsets@, self.values@),
                self.offsets@.len() == self.validity@.len() + 1,
            decreases len - i,
        {
            proof {
                lemma_repeat_len(b, i as nat);
                lemma_mul_mono(i as nat, len as nat, b.len());
                lemma_mul_mono((i + 1) as nat, len as nat, b.len());
            }
            let ghost prev_values = self.values@;
            let ghost prev_offsets = self.offsets@;
            append_bytes(&mut self.values, value);
            let end = self.values.len() as i32;
            self.offsets.push(end);
            self.validity.push(true);
            i = i + 1;
            proof {
                assert(self.values@ =~= old_values + repeat_bytes(b, i as nat));
                assert(self.offsets@ =~= old_offsets + repeated_offsets(old_values.len() as int, w, i as nat));
                assert(self.validity@ =~= old_validity + Seq::new(i as nat, |k: int| true));
                assert forall|j: int| 0 <= j < self.offsets@.len() - 1 implies #[trigger] span_ok(self.offsets@, self.values@, j) by {
                    if j < prev_offsets.len() - 1 {
                        assert(span_ok(prev_offsets, prev_values, j));
                        assert(self.values@.subrange(self.offsets@[j] as int, self.offsets@[j + 1] as int)
                            =~= prev_values.subrange(prev_offsets[j] as int, prev_offsets[j + 1] as int));
                    } else {
                        assert(self.values@.subrange(self.offsets@[j] as int, self.offsets@[j + 1] as int) =~= b);
                    }
                }
            }
        }
        self.length = self.offsets[self.offsets.len() - 1];
    }

    /// Appends `additional` null entries: each takes no value bytes, so each
    /// new offset equals the last one.
    pub fn extend_validity(&mut self, additional: usize)
        requires
            old(self).wf(),
        ensures
            final(self).wf(),
            final(self).spec_arrays() == old(self).spec_arrays(),
            final(self).spec_values() == old(self).spec_values(),
            final(self).spec_offsets() == old(self).spec_offsets() + Seq::new(
                additional as nat,
                |k: int| old(self).spec_offsets().last(),
            ),
            final(self).spec_validity() == old(self).spec_validity() + Seq::new(additional as nat, |k: int| false),
    {
        let ghost old_offsets = self.offsets@;
        let ghost old_validity = self.validity@;
        let ghost last = old_offsets.last();
        let mut i: usize = 0;
        while i < additional
            invariant
                i <= additional,
                self.wf(),
                self.arrays == old(self).arrays,
                self.values == old(self).values,
                self.length == last,
                self.offsets@ == old_offsets + Seq::new(i as nat, |k: int| last),
                self.validity@ == old_validity + Seq::new(i as nat, |k: int| false),
            decreases additional - i,
        {
            let ghost prev_offsets = self.offsets@;
            self.offsets.push(self.length);
            self.validity.push(false);
            i = i + 1;
            proof {
                assert(self.offsets@ =~= old_offsets + Seq::new(i as nat, |k: int| last));
                assert(self.validity@ =~= old_validity + Seq::new(i as nat, |k: int| false));
                assert forall|j: int| 0 <= j < self.offsets@.len() - 1 implies #[trigger] span_ok(self.offsets@, self.values@, j) by {
                    if j < prev_offsets.len() - 1 {
                        assert(span_ok(prev_offsets, self.values@, j));
                    } else {
                        assert(self.values@.subrange(last as int, last as int) =~= Seq::<u8>::empty());
                        assert(valid_utf8(Seq::<u8>::empty()));
                    }
                }
            }
        }
    }

    /// Consumes the builder and returns the column it has built. The column
    /// carries a validity bitmap only when some entry is null.
    pub fn to(self) -> (r: Utf8Array)
        requires
            self.wf(),
        ensures
            r.wf(),
            r.spec_offsets() == self.spec_offsets(),
            r.spec_values() == self.spec_values(),
            r.spec_validity() == (if forall|i: int| 0 <= i < self.spec_len() ==> #[trigger] self.spec_validity()[i] {
                None
            } else {
                Some(self.spec_validity())
            }),
    {
        let mut all_valid = true;
        let mut i: usize = 0;
        while i < self.validity.len()
            invariant
                i <= self.validity@.len(),
                all_valid == forall|j: int| 0 <= j < i ==> #[trigger] self.validity@[j],
            decreases self.validity@.len() - i,
        {
            if !self.validity[i] {
                all_valid = false;
            }
            i = i + 1;
        }
        let validity = if all_valid { None } else { Some(self.validity) };
        Utf8Array::from_parts(self.offsets, self.values, validity)
    }

    /// As `to`, with the column boxed.
    pub fn as_box(self) -> (r: Box<Utf8Array>)
        requires
            self.wf(),
        ensures
            r.wf(),
            r.spec_offsets() == self.spec_offsets(),
            r.spec_values() == self.spec_values(),
            r.spec_validity() == (if forall|i: int| 0 <= i < self.spec_len() ==> #[trigger] self.spec_validity()[i] {
                None
            } else {
                Some(self.spec_validity())
            }),
    {
        Box::new(self.to())
    }

    /// As `to`, with the column behind a shared pointer.
    pub fn as_arc(self) -> (r: std::sync::Arc<Utf8Array>)
        requires
            self.wf(),
        ensures
            r.wf(),
            r.spec_offsets() == self.spec_offsets(),
            r.spec_values() == self.spec_values(),
            r.spec_validity() == (if forall|i: int| 0 <= i < self.spec_len() ==> #[trigger] self.spec_validity()[i] {
                None
            } else {
                Some(self.spec_validity())
            }),
    {
        std::sync::Arc::new(self.to())
    }
}

/// Whatever sequence of `extend` and `extend_validity` calls built it from
/// `new` (each keeps `wf`), a builder has one offset more than entries, its
/// offsets never decrease, and the last offset is the number of value bytes.
pub proof fn lemma_growable_offsets(g: &GrowableConstUtf8)
    requires
        g.wf(),
    ensures
        g.spec_offsets().len() == g.spec_len() + 1,
        forall|i: int| 0 <= i < g.spec_len() ==> g.spec_offsets()[i] <= #[trigger] g.spec_offsets()[i + 1],
        g.spec_offsets().last() == g.spec_values().len(),
{
    assert forall|i: int| 0 <= i < g.spec_len() implies g.spec_offsets()[i] <= #[trigger] g.spec_offsets()[i + 1] by {
        assert(span_ok(g.offsets@, g.values@, i));
    }
}

} // verus!
