//! Handing out places in the buffer of per-draw data.

use bitvec::order::Lsb0;
use bitvec::vec::BitVec;
use vstd::prelude::*;

verus! {

/// Bits, in a vector of the `bitvec` crate. What it holds is said by `bits_of`.
#[verifier::external_body]
pub struct Bits {
    inner: BitVec<usize, Lsb0>,
}

/// The bits of a vector, the first one first.
pub uninterp spec fn bits_of(v: Bits) -> Seq<bool>;

/// `BitVec::new` makes a vector without bits.
#[verifier::external_body]
fn no_bits() -> (r: Bits)
    ensures
        bits_of(r) == Seq::<bool>::empty(),
{
    Bits { inner: BitVec::new() }
}

/// `BitSlice::len` is the number of bits.
#[verifier::external_body]
fn bit_count(v: &Bits) -> (r: usize)
    ensures
        r == bits_of(*v).len(),
{
    v.inner.len()
}

/// `BitSlice::first_zero` is the index of the first bit that is not set, if there is one.
#[verifier::external_body]
fn first_unset(v: &Bits) -> (r: Option<usize>)
    ensures
        r == first_free(bits_of(*v)),
{
    v.inner.first_zero()
}

/// `BitSlice::set` writes one bit, which must be there.
#[verifier::external_body]
fn set_bit(v: &mut Bits, index: usize, value: bool)
    requires
        index < bits_of(*old(v)).len(),
    ensures
        bits_of(*final(v)) == bits_of(*old(v)).update(index as int, value),
{
    v.inner.set(index, value)
}

/// `BitVec::push` adds a bit at the end. It panics if there would be more bits than an eighth of what a
/// `usize` can count.
#[verifier::external_body]
fn push_bit(v: &mut Bits, value: bool)
    requires
        bits_of(*old(v)).len() < MAX_BITS,
    ensures
        bits_of(*final(v)) == bits_of(*old(v)).push(value),
{
    v.inner.push(value)
}

/// The largest number of bits in a vector.
pub const MAX_BITS: usize = usize::MAX / 8;

/// Index of the first place that is not in use.
pub open spec fn first_free(used: Seq<bool>) -> Option<usize>
    decreases used.len(),
{
    if used.len() == 0 {
        None
    } else {
        match first_free(used.drop_last()) {
            Some(i) => Some(i),
            None => if used.last() {
                None
            } else {
                Some((used.len() - 1) as usize)
            },
        }
    }
}

/// The first place that is not in use is free, and all before it are in use. There is none only if all
/// are.
pub proof fn law_first_free(used: Seq<bool>)
    requires
        used.len() <= usize::MAX,
    ensures
        match first_free(used) {
            Some(i) => i < used.len() && !used[i as int] && forall|j: int|
                0 <= j < i ==> #[trigger] used[j],
            None => forall|j: int| 0 <= j < used.len() ==> #[trigger] used[j],
        },
    decreases used.len(),
{
    if used.len() > 0 {
        let front = used.drop_last();
        law_first_free(front);
        match first_free(front) {
            Some(i) => {
                assert(used[i as int] == front[i as int]);
                assert forall|j: int| 0 <= j < i implies #[trigger] used[j] by {
                    assert(front[j]);
                }
            },
            None => {
                assert forall|j: int| 0 <= j < used.len() - 1 implies #[trigger] used[j] by {
                    assert(front[j]);
                }
            },
        }
    }
}

/// A place in the buffer of per-draw data.
#[derive(Copy, Clone, Debug, PartialEq, Eq, Structural)]
pub struct UniformHandle(pub usize);

/// The places in the buffer of per-draw data, and which of them are in use.
pub struct UniformSlots {
    used: Bits,
}

impl View for UniformSlots {
    type V = Seq<bool>;

    closed spec fn view(&self) -> Seq<bool> {
        bits_of(self.used)
    }
}

/// The places after one more was handed out: the first that was free, or a new one at the end.
pub open spec fn handed_out(used: Seq<bool>) -> Seq<bool> {
    match first_free(used) {
        Some(i) => used.update(i as int, true),
        None => used.push(true),
    }
}

/// The place that is handed out next.
pub open spec fn next_place(used: Seq<bool>) -> int {
    match first_free(used) {
        Some(i) => i as int,
        None => used.len() as int,
    }
}

/// A place that is handed out was not in use before and is afterwards, and the others are as they were.
/// When it is given back, the places are as they were before, but for a new one.
pub proof fn law_places(used: Seq<bool>)
    requires
        used.len() < usize::MAX,
    ensures
        ({
            let i = next_place(used);
            let now = handed_out(used);
            &&& 0 <= i < now.len() && now[i]
            &&& i < used.len() ==> !used[i] && now.len() == used.len()
            &&& i == used.len() ==> now.len() == used.len() + 1
            &&& forall|j: int| 0 <= j < used.len() && j != i ==> #[trigger] now[j] == used[j]
            &&& now.update(i, false).take(used.len() as int) == used
        }),
{
    law_first_free(used);
    let i = next_place(used);
    let now = handed_out(used);
    assert(now.update(i, false).take(used.len() as int) =~= used);
}

impl UniformSlots {
    pub fn new() -> (r: UniformSlots)
        ensures
            r@ == Seq::<bool>::empty(),
    {
        UniformSlots { used: no_bits() }
    }

    /// The number of places.
    pub fn len(&self) -> (r: usize)
        ensures
            r == self@.len(),
    {
        bit_count(&self.used)
    }

    /// Hands out a place, and says whether it is a new one. `None` if there are as many places as can be.
    pub fn request_new_uniform(&mut self) -> (r: Option<(UniformHandle, bool)>)
        ensures
            match r {
                Some((handle, is_new)) => {
                    &&& handle.0 == next_place(old(self)@)
                    &&& is_new == (first_free(old(self)@) is None)
                    &&& final(self)@ == handed_out(old(self)@)
                },
                None => first_free(old(self)@) is None && old(self)@.len() >= MAX_BITS
                    && final(self)@ == old(self)@,
            },
    {
        let len: usize = bit_count(&self.used);
        proof {
            law_first_free(self@);
        }
        match first_unset(&self.used) {
            Some(i) => {
                set_bit(&mut self.used, i, true);
                Some((UniformHandle(i), false))
            },
            None => {
                if len >= MAX_BITS {
                    return None;
                }
                push_bit(&mut self.used, true);
                Some((UniformHandle(len), true))
            },
        }
    }

    /// Takes a place back.
    pub fn release_uniform(&mut self, handle: UniformHandle)
        requires
            handle.0 < old(self)@.len(),
        ensures
            final(self)@ == old(self)@.update(handle.0 as int, false),
    {
        set_bit(&mut self.used, handle.0, false);
    }
}

} // verus!
