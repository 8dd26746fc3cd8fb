//! Setting flag bits in one field of every record of a fixed-stride array.

use crate::error::PackError;
use vstd::prelude::*;

verus! {

/// An array of records inside a file, and the flag bits to set in one byte of
/// each record, as mathematical integers.
pub struct RecordArray {
    /// Offset of the first record from the start of the file.
    pub base: int,
    /// Distance from one record to the next.
    pub stride: int,
    /// Offset of the flag byte inside a record.
    pub field_offset: int,
    /// Number of records.
    pub count: int,
    /// The bits to set in the flag byte.
    pub mask: u8,
}

/// An array of records inside a file, and the flag bits to set in one byte of
/// each record.
#[derive(Clone, Copy, Debug, PartialEq, Eq, Structural)]
pub struct RecordLayout {
    /// Offset of the first record from the start of the file.
    pub base: usize,
    /// Distance from one record to the next.
    pub stride: usize,
    /// Offset of the flag byte inside a record.
    pub field_offset: usize,
    /// Number of records.
    pub count: usize,
    /// The bits to set in the flag byte.
    pub mask: u8,
}

impl View for RecordLayout {
    type V = RecordArray;

    open spec fn view(&self) -> RecordArray {
        RecordArray {
            base: self.base as int,
            stride: self.stride as int,
            field_offset: self.field_offset as int,
            count: self.count as int,
            mask: self.mask,
        }
    }
}

impl RecordArray {
    /// Offset of the flag byte of record `i`.
    pub open spec fn position(&self, i: int) -> int {
        self.base + i * self.stride + self.field_offset
    }

    /// `p` is the flag byte of one of the first `upto` records.
    pub open spec fn targets(&self, p: int, upto: int) -> bool {
        exists|i: int| 0 <= i < upto && p == #[trigger] self.position(i)
    }

    /// The flag bytes of the first `upto` records lie inside a file of `len`
    /// bytes.
    pub open spec fn in_range(&self, len: int, upto: int) -> bool {
        forall|i: int| 0 <= i < upto ==> #[trigger] self.position(i) < len
    }

    /// `data` with the mask set in the flag bytes of the first `upto` records
    /// and every other byte as it was.
    pub open spec fn patched(&self, data: Seq<u8>, upto: int) -> Seq<u8> {
        Seq::new(
            data.len(),
            |p: int|
                if self.targets(p, upto) {
                    data[p] | self.mask
                } else {
                    data[p]
                },
        )
    }

    /// `after` and `r` are what patching `before` record by record gives:
    /// success with every record patched, or `IoFailure` at the first record
    /// whose flag byte lies outside the file, with the records before it
    /// patched.
    pub open spec fn outcome(&self, before: Seq<u8>, after: Seq<u8>, r: Result<(), PackError>) -> bool {
        match r {
            Ok(()) => {
                &&& self.in_range(before.len() as int, self.count)
                &&& after == self.patched(before, self.count)
            },
            Err(e) => {
                &&& e == PackError::IoFailure
                &&& exists|done: int|
                    {
                        &&& 0 <= done < self.count
                        &&& self.in_range(before.len() as int, done)
                        &&& #[trigger] self.position(done) >= before.len()
                        &&& after == self.patched(before, done)
                    }
            },
        }
    }

    /// One more record adds its own flag byte to the targets and nothing else.
    pub proof fn lemma_targets_step(&self, p: int, upto: int)
        requires
            0 <= upto,
        ensures
            self.targets(p, upto + 1) <==> self.targets(p, upto) || p == self.position(upto),
    {
        if self.targets(p, upto + 1) {
            let i = choose|i: int| 0 <= i < upto + 1 && p == #[trigger] self.position(i);
            if i < upto {
                assert(self.targets(p, upto));
            }
        }
        if self.targets(p, upto) {
            let i = choose|i: int| 0 <= i < upto && p == #[trigger] self.position(i);
            assert(0 <= i < upto + 1 && p == self.position(i));
        }
        if p == self.position(upto) {
            assert(0 <= upto < upto + 1 && p == self.position(upto));
        }
    }

    /// Records that are a positive stride apart have different flag bytes, so
    /// `upto` records have `upto` of them.
    pub proof fn lemma_positions_distinct(&self, i: int, j: int)
        requires
            self.stride > 0,
            self.position(i) == self.position(j),
        ensures
            i == j,
    {
        assert(i * self.stride == j * self.stride);
        assert(i == j) by (nonlinear_arith)
            requires
                i * self.stride == j * self.stride,
                self.stride > 0,
        ;
    }

    /// A patch keeps the length, leaves every byte that is no flag byte as it
    /// was, and in a flag byte sets the mask and changes no other bit.
    pub proof fn lemma_patch_frame(&self, data: Seq<u8>, upto: int, p: int)
        requires
            0 <= p < data.len(),
        ensures
            self.patched(data, upto).len() == data.len(),
            !self.targets(p, upto) ==> self.patched(data, upto)[p] == data[p],
            self.targets(p, upto) ==> self.patched(data, upto)[p] == data[p] | self.mask,
            self.patched(data, upto)[p] & self.mask == if self.targets(p, upto) {
                self.mask
            } else {
                data[p] & self.mask
            },
            self.patched(data, upto)[p] & !self.mask == data[p] & !self.mask,
    {
        let before = data[p];
        let mask = self.mask;
        assert((before | mask) & mask == mask) by (bit_vector);
        assert((before | mask) & !mask == before & !mask) by (bit_vector);
    }

    /// Patching what was patched changes nothing.
    pub proof fn lemma_patch_idempotent(&self, data: Seq<u8>, upto: int)
        ensures
            self.patched(self.patched(data, upto), upto) == self.patched(data, upto),
    {
        let once = self.patched(data, upto);
        let twice = self.patched(once, upto);
        assert forall|p: int| 0 <= p < once.len() implies twice[p] == once[p] by {
            let before = data[p];
            let mask = self.mask;
            assert((before | mask) | mask == before | mask) by (bit_vector);
        }
        assert(twice =~= once);
    }
}

/// For each record of `layout` in turn, reads its flag byte from `data`, sets
/// the mask in it and writes it back. A flag byte that lies outside `data`
/// stops the patch with `IoFailure`; the records before it stay patched.
pub fn patch_records(data: &mut Vec<u8>, layout: &RecordLayout) -> (r: Result<(), PackError>)
    ensures
        layout@.outcome(old(data)@, final(data)@, r),
{
    let len: usize = data.len();
    let mut i: usize = 0;
    assert(data@ =~= layout@.patched(data@, 0));
    while i < layout.count
        invariant
            i <= layout.count,
            len == old(data)@.len(),
            layout@.in_range(len as int, i as int),
            data@ == layout@.patched(old(data)@, i as int),
        decreases layout.count - i,
    {
        let skipped: Option<usize> = i.checked_mul(layout.stride);
        let start: Option<usize> = match skipped {
            Some(s) => layout.base.checked_add(s),
            None => None,
        };
        let place: Option<usize> = match start {
            Some(s) => s.checked_add(layout.field_offset),
            None => None,
        };
        let at: usize = match place {
            Some(p) => p,
            None => {
                assert(layout@.position(i as int) >= len);
                return Err(PackError::IoFailure);
            },
        };
        if at >= len {
            assert(layout@.position(i as int) >= len);
            return Err(PackError::IoFailure);
        }
        let byte: u8 = data[at];
        data.set(at, byte | layout.mask);
        proof {
            let first = old(data)@;
            let next = layout@.patched(first, i + 1);
            assert forall|p: int| 0 <= p < len implies data@[p] == next[p] by {
                layout@.lemma_targets_step(p, i as int);
                let before = first[p];
                let mask = layout.mask;
                assert((before | mask) | mask == before | mask) by (bit_vector);
            }
            assert(data@ =~= next);
        }
        i += 1;
    }
    Ok(())
}

} // verus!
