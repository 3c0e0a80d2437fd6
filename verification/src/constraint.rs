//! The set of values that one schedule field allows, kept in a bitmap of the
//! `bitmaps` crate.

use vstd::prelude::*;

verus! {

/// Number of bits in a constraint: its members lie below this.
pub const FIELD_BITS: usize = 367;

/// The parsed form of one field: a set of integers below `FIELD_BITS`, held
/// in a `bitmaps::Bitmap` of that many bits.
#[verifier::external_body]
#[derive(Debug)]
pub struct FieldConstraint {
    bits: bitmaps::Bitmap<typenum::U367>,
}

/// The indices below `FIELD_BITS` whose bit is set.
pub uninterp spec fn members(c: FieldConstraint) -> Set<int>;

impl View for FieldConstraint {
    type V = Set<int>;

    open spec fn view(&self) -> Set<int> {
        members(*self)
    }
}

impl FieldConstraint {
    /// `Bitmap::new`: a bitmap with every bit clear.
    #[verifier::external_body]
    pub(crate) fn empty() -> (c: FieldConstraint)
        ensures
            members(c) == Set::<int>::empty(),
    {
        FieldConstraint { bits: bitmaps::Bitmap::new() }
    }

    /// `Bitmap::set` with `true`: sets the bit at `index`, leaves every other
    /// bit as it was, and returns the bit's earlier value.
    #[verifier::external_body]
    pub(crate) fn set(&mut self, index: usize) -> (was: bool)
        requires
            index < FIELD_BITS,
        ensures
            members(*final(self)) == members(*old(self)).insert(index as int),
            was == members(*old(self)).contains(index as int),
    {
        self.bits.set(index, true)
    }

    /// `Bitmap::get`: whether the bit at `index` is set.
    #[verifier::external_body]
    pub(crate) fn get(&self, index: usize) -> (r: bool)
        requires
            index < FIELD_BITS,
        ensures
            r == members(*self).contains(index as int),
    {
        self.bits.get(index)
    }

    /// Whether `value` is a member below `FIELD_BITS`.
    pub fn contains(&self, value: usize) -> (r: bool)
        ensures
            r == (value < FIELD_BITS && self@.contains(value as int)),
    {
        value < FIELD_BITS && self.get(value)
    }

    /// The members below `FIELD_BITS`, in increasing order.
    pub fn to_vec(&self) -> (v: Vec<usize>)
        ensures
            forall|i: int, j: int| 0 <= i < j < v.len() ==> v[i] < v[j],
            forall|x: usize| v@.contains(x) <==> x < FIELD_BITS && self@.contains(x as int),
    {
        let mut v: Vec<usize> = Vec::new();
        let mut i: usize = 0;
        while i < FIELD_BITS
            invariant
                i <= FIELD_BITS,
                forall|a: int, b: int| 0 <= a < b < v.len() ==> v[a] < v[b],
                forall|a: int| 0 <= a < v.len() ==> v[a] < i,
                forall|x: usize| v@.contains(x) <==> x < i && self@.contains(x as int),
            decreases FIELD_BITS - i,
        {
            if self.get(i) {
                let ghost before = v@;
                v.push(i);
                proof {
                    assert forall|x: usize| v@.contains(x) <==> x < i + 1 && self@.contains(
                        x as int,
                    ) by {
                        if v@.contains(x) {
                            let k = choose|k: int| 0 <= k < v.len() && v[k] == x;
                            if k < before.len() {
                                assert(before.contains(x));
                            }
                        }
                        if x < i + 1 && self@.contains(x as int) {
                            if x == i {
                                assert(v[v.len() - 1] == x);
                            } else {
                                assert(before.contains(x));
                                let k = choose|k: int| 0 <= k < before.len() && before[k] == x;
                                assert(v[k] == x);
                            }
                        }
                    }
                }
            }
            i += 1;
        }
        v
    }
}

} // verus!
