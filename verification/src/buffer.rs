//! The double-ended ring buffer.
//!
//! `CircBuf<T, S>` owns `S` slots of storage, a head index and an
//! occupancy count.  The logically occupied contents are the `len` slots
//! starting at the head and advancing with wraparound; `ring_view` turns
//! those three fields into the mathematical sequence that every contract
//! speaks of.

use crate::modular::{capped_add, capped_sub, lemma_wrap_injective};
use vstd::prelude::*;

verus! {

broadcast use vstd::arithmetic::div_mod::lemma_mod_division_less_than_divisor;

/// The occupied logical sequence: `len` slots of `data` starting at
/// `head`, advancing with wraparound modulo `cap`.
pub(crate) open spec fn ring_view<T>(head: int, len: nat, cap: int, data: Seq<T>) -> Seq<T> {
    Seq::new(len, |i: int| data[(head + i) % cap])
}

/// Writing the slot `index` places past the head rewrites exactly the
/// logical position `index`.
proof fn lemma_ring_view_update<T>(
    head: int,
    len: nat,
    cap: int,
    data: Seq<T>,
    index: int,
    w: T,
)
    requires
        0 < cap,
        data.len() == cap,
        0 <= head < cap,
        len <= cap,
        0 <= index < len,
    ensures
        ring_view(head, len, cap, data.update((head + index) % cap, w)) == ring_view(
            head,
            len,
            cap,
            data,
        ).update(index, w),
{
    let updated = ring_view(head, len, cap, data.update((head + index) % cap, w));
    let direct = ring_view(head, len, cap, data).update(index, w);
    assert forall|i: int| 0 <= i < len implies updated[i] == direct[i] by {
        if i != index {
            if (head + i) % cap == (head + index) % cap {
                lemma_wrap_injective(head, i, index, cap);
            }
        }
    }
    assert(updated =~= direct);
}

/// Writing the slot just past the occupied span and counting one more
/// element appends at the back of the logical sequence.
proof fn lemma_ring_view_append<T>(head: int, len: nat, cap: int, data: Seq<T>, w: T)
    requires
        0 < cap,
        data.len() == cap,
        0 <= head < cap,
        len < cap,
    ensures
        ring_view(head, (len + 1) as nat, cap, data.update((head + len) % cap, w))
            == ring_view(head, len, cap, data).push(w),
{
    let grown = ring_view(head, (len + 1) as nat, cap, data.update((head + len) % cap, w));
    let direct = ring_view(head, len, cap, data).push(w);
    assert forall|i: int| 0 <= i < len + 1 implies grown[i] == direct[i] by {
        if i < len {
            if (head + i) % cap == (head + len) % cap {
                lemma_wrap_injective(head, i, len as int, cap);
            }
        }
    }
    assert(grown =~= direct);
}

/// Retreating the head by one slot, writing it, and counting one more
/// element prepends at the front of the logical sequence.
proof fn lemma_ring_view_prepend<T>(head: int, len: nat, cap: int, data: Seq<T>, w: T)
    requires
        0 < cap,
        data.len() == cap,
        0 <= head < cap,
        len < cap,
    ensures
        ring_view(
            (head - 1) % cap,
            (len + 1) as nat,
            cap,
            data.update((head - 1) % cap, w),
        ) == seq![w] + ring_view(head, len, cap, data),
{
    let back = (head - 1) % cap;
    let grown = ring_view(back, (len + 1) as nat, cap, data.update(back, w));
    let direct = seq![w] + ring_view(head, len, cap, data);
    assert forall|i: int| 0 <= i < len + 1 implies grown[i] == direct[i] by {
        vstd::arithmetic::div_mod::lemma_add_mod_noop(head - 1, i, cap);
        vstd::arithmetic::div_mod::lemma_small_mod(i as nat, cap as nat);
        if i == 0 {
            vstd::arithmetic::div_mod::lemma_small_mod(back as nat, cap as nat);
        } else {
            if (back + i) % cap == back {
                vstd::arithmetic::div_mod::lemma_small_mod(back as nat, cap as nat);
                lemma_wrap_injective(head - 1, i, 0, cap);
            }
            assert((back + i) % cap == (head + (i - 1)) % cap);
        }
    }
    assert(grown =~= direct);
}

/// Advancing the head by one slot and counting one element fewer drops
/// the front of the logical sequence.
proof fn lemma_ring_view_advance<T>(head: int, len: nat, cap: int, data: Seq<T>)
    requires
        0 < cap,
        data.len() == cap,
        0 <= head < cap,
        0 < len <= cap,
    ensures
        ring_view((head + 1) % cap, (len - 1) as nat, cap, data) == ring_view(
            head,
            len,
            cap,
            data,
        ).drop_first(),
{
    let fwd = (head + 1) % cap;
    let shrunk = ring_view(fwd, (len - 1) as nat, cap, data);
    let direct = ring_view(head, len, cap, data).drop_first();
    assert forall|i: int| 0 <= i < len - 1 implies shrunk[i] == direct[i] by {
        vstd::arithmetic::div_mod::lemma_add_mod_noop(head + 1, i, cap);
        vstd::arithmetic::div_mod::lemma_small_mod(i as nat, cap as nat);
        assert((fwd + i) % cap == (head + (i + 1)) % cap);
    }
    assert(shrunk =~= direct);
}

/// A fixed-capacity, double-ended ring buffer over a freely-copyable
/// element type.
///
/// At most `S` elements are held at a time.  Insertion and removal at
/// either end, and indexed access, are constant-time.  The *checked*
/// operations report a full or empty buffer as an explicit outcome and
/// leave the buffer untouched when they fail; their *unchecked*
/// counterparts omit the guard and instead require the caller to have
/// established the precondition.
#[derive(Debug, Clone)]
pub struct CircBuf<T: Copy, const S: usize> {
    first: usize,
    len: usize,
    initial: T,
    data: Vec<T>,
}

impl<T: Copy, const S: usize> View for CircBuf<T, S> {
    type V = Seq<T>;

    closed spec fn view(&self) -> Seq<T> {
        ring_view(self.first as int, self.len as nat, S as int, self.data@)
    }
}

impl<T: Copy, const S: usize> CircBuf<T, S> {
    /// Structural validity: the storage holds exactly `S` slots, the head
    /// points into it, and the occupancy never exceeds the capacity.
    pub closed spec fn wf(&self) -> bool {
        &&& self.data.len() == S
        &&& self.len <= S
        &&& if S == 0 {
            self.first == 0
        } else {
            self.first < S
        }
    }

    /// Builds an empty buffer with every slot pre-set to `initial`.
    pub fn new(initial: T) -> (r: CircBuf<T, S>)
        ensures
            r.wf(),
            r@ == Seq::<T>::empty(),
    {
        let mut data: Vec<T> = Vec::new();
        let mut i: usize = 0;
        while i < S
            invariant
                data.len() == i,
                i <= S,
            decreases S - i,
        {
            data.push(initial);
            i += 1;
        }
        let r = CircBuf { first: 0, len: 0, initial, data };
        proof {
            assert(r@ =~= Seq::<T>::empty());
        }
        r
    }

    /// Current occupancy.
    pub fn len(&self) -> (r: usize)
        ensures
            r == self@.len(),
    {
        self.len
    }

    /// The fixed capacity `S`.
    pub fn capacity(&self) -> (r: usize)
        ensures
            r == S,
    {
        S
    }

    /// How many further elements fit.  Occupancy plus remaining room
    /// always equals the capacity.
    pub fn remaining_capacity(&self) -> (r: usize)
        requires
            self.wf(),
        ensures
            r == S - self@.len(),
            r + self@.len() == S,
    {
        S - self.len
    }

    /// Whether nothing is held.
    pub fn is_empty(&self) -> (r: bool)
        ensures
            r <==> self@.len() == 0,
    {
        self.len == 0
    }

    /// Whether the capacity is exhausted.
    pub fn is_full(&self) -> (r: bool)
        ensures
            r <==> self@.len() == S,
    {
        self.len == S
    }

    /// Appends at the back.  Precondition instead of a guard: the caller
    /// must have ruled a full buffer out.
    pub fn push_back_unchecked(&mut self, new: T)
        requires
            old(self).wf(),
            old(self)@.len() < S,
        ensures
            final(self).wf(),
            final(self)@ == old(self)@.push(new),
    {
        let index = capped_add(self.first, self.len, S);
        self.data[index] = new;
        self.len += 1;
        proof {
            lemma_ring_view_append(
                old(self).first as int,
                old(self).len as nat,
                S as int,
                old(self).data@,
                new,
            );
        }
    }

    /// Prepends at the front.  Precondition instead of a guard: the
    /// caller must have ruled a full buffer out.
    pub fn push_front_unchecked(&mut self, new: T)
        requires
            old(self).wf(),
            old(self)@.len() < S,
        ensures
            final(self).wf(),
            final(self)@ == seq![new] + old(self)@,
    {
        self.first = capped_sub(self.first, 1, S);
        self.data[self.first] = new;
        self.len += 1;
        proof {
            lemma_ring_view_prepend(
                old(self).first as int,
                old(self).len as nat,
                S as int,
                old(self).data@,
                new,
            );
        }
    }

    /// Appends at the back, or reports a full buffer and leaves it
    /// untouched.
    pub fn push_back(&mut self, new: T) -> (r: Result<(), ()>)
        requires
            old(self).wf(),
        ensures
            final(self).wf(),
            old(self)@.len() == S ==> r is Err && *final(self) == *old(self),
            old(self)@.len() < S ==> r is Ok && final(self)@ == old(self)@.push(new),
    {
        if self.len >= S {
            return Result::Err(());
        }
        self.push_back_unchecked(new);
        Result::Ok(())
    }

    /// Prepends at the front, or reports a full buffer and leaves it
    /// untouched.
    pub fn push_front(&mut self, new: T) -> (r: Result<(), ()>)
        requires
            old(self).wf(),
        ensures
            final(self).wf(),
            old(self)@.len() == S ==> r is Err && *final(self) == *old(self),
            old(self)@.len() < S ==> r is Ok && final(self)@ == seq![new] + old(self)@,
    {
        if self.len >= S {
            return Result::Err(());
        }
        self.push_front_unchecked(new);
        Result::Ok(())
    }

    /// Removes and returns the back element.  Precondition instead of a
    /// guard: the caller must have ruled an empty buffer out.
    pub fn pop_back_unchecked(&mut self) -> (r: T)
        requires
            old(self).wf(),
            old(self)@.len() > 0,
        ensures
            final(self).wf(),
            r == old(self)@.last(),
            final(self)@ == old(self)@.drop_last(),
    {
        self.len -= 1;
        let index = capped_add(self.first, self.len, S);
        let out = self.data[index];
        proof {
            assert(self@ =~= old(self)@.drop_last());
        }
        out
    }

    /// Removes and returns the front element.  Precondition instead of a
    /// guard: the caller must have ruled an empty buffer out.
    pub fn pop_front_unchecked(&mut self) -> (r: T)
        requires
            old(self).wf(),
            old(self)@.len() > 0,
        ensures
            final(self).wf(),
            r == old(self)@.first(),
            final(self)@ == old(self)@.drop_first(),
    {
        let out = self.data[self.first];
        self.first = capped_add(self.first, 1, S);
        self.len -= 1;
        proof {
            vstd::arithmetic::div_mod::lemma_small_mod(
                old(self).first as nat,
                S as nat,
            );
            lemma_ring_view_advance(
                old(self).first as int,
                old(self).len as nat,
                S as int,
                old(self).data@,
            );
        }
        out
    }

    /// Removes and returns the back element, or reports an empty buffer
    /// and leaves it untouched.
    pub fn pop_back(&mut self) -> (r: Option<T>)
        requires
            old(self).wf(),
        ensures
            final(self).wf(),
            old(self)@.len() == 0 ==> r is None && *final(self) == *old(self),
            old(self)@.len() > 0 ==> r == Some(old(self)@.last()) && final(self)@ == old(
                self,
            )@.drop_last(),
    {
        if self.len < 1 {
            return None;
        }
        Some(self.pop_back_unchecked())
    }

    /// Removes and returns the front element, or reports an empty buffer
    /// and leaves it untouched.
    pub fn pop_front(&mut self) -> (r: Option<T>)
        requires
            old(self).wf(),
        ensures
            final(self).wf(),
            old(self)@.len() == 0 ==> r is None && *final(self) == *old(self),
            old(self)@.len() > 0 ==> r == Some(old(self)@.first()) && final(self)@ == old(
                self,
            )@.drop_first(),
    {
        if self.len < 1 {
            return None;
        }
        Some(self.pop_front_unchecked())
    }

    /// A borrow of the element at logical position `index`.  Precondition
    /// instead of a guard: the position must be occupied.
    pub fn get_unchecked(&self, index: usize) -> (r: &T)
        requires
            self.wf(),
            index < self@.len(),
        ensures
            *r == self@[index as int],
    {
        let i = capped_add(self.first, index, S);
        &self.data[i]
    }

    /// A borrow of the element at logical position `index`, or nothing
    /// when the position is not occupied.
    pub fn get(&self, index: usize) -> (r: Option<&T>)
        requires
            self.wf(),
        ensures
            index >= self@.len() ==> r is None,
            index < self@.len() ==> r.is_some() && *r.unwrap() == self@[index as int],
    {
        if index >= self.len {
            return None;
        }
        Some(self.get_unchecked(index))
    }

    /// A borrow of the front element.  Precondition instead of a guard:
    /// the buffer must not be empty.
    pub fn first_unchecked(&self) -> (r: &T)
        requires
            self.wf(),
            self@.len() > 0,
        ensures
            *r == self@.first(),
    {
        self.get_unchecked(0)
    }

    /// A borrow of the front element, or nothing when the buffer is
    /// empty.
    pub fn first(&self) -> (r: Option<&T>)
        requires
            self.wf(),
        ensures
            self@.len() == 0 ==> r is None,
            self@.len() > 0 ==> r.is_some() && *r.unwrap() == self@.first(),
    {
        if self.len < 1 {
            return None;
        }
        Some(self.get_unchecked(0))
    }

    /// A borrow of the back element.  Precondition instead of a guard:
    /// the buffer must not be empty.
    pub fn last_unchecked(&self) -> (r: &T)
        requires
            self.wf(),
            self@.len() > 0,
        ensures
            *r == self@.last(),
    {
        self.get_unchecked(self.len - 1)
    }

    /// A borrow of the back element, or nothing when the buffer is
    /// empty.
    pub fn last(&self) -> (r: Option<&T>)
        requires
            self.wf(),
        ensures
            self@.len() == 0 ==> r is None,
            self@.len() > 0 ==> r.is_some() && *r.unwrap() == self@.last(),
    {
        if self.len < 1 {
            return None;
        }
        Some(self.get_unchecked(self.len - 1))
    }

    /// A mutable borrow of the element at logical position `index`.
    /// Whatever the caller writes through it lands at that logical
    /// position and nowhere else.  Precondition instead of a guard: the
    /// position must be occupied.
    pub fn get_unchecked_mut(&mut self, index: usize) -> (r: &mut T)
        requires
            old(self).wf(),
            index < old(self)@.len(),
        ensures
            *r == old(self)@[index as int],
            final(self).wf(),
            final(self)@ == old(self)@.update(index as int, *final(r)),
    {
        let i = capped_add(self.first, index, S);
        proof {
            assert forall|w: T|
                ring_view(
                    self.first as int,
                    self.len as nat,
                    S as int,
                    #[trigger] self.data@.update(i as int, w),
                ) == self@.update(index as int, w) by {
                lemma_ring_view_update(
                    self.first as int,
                    self.len as nat,
                    S as int,
                    self.data@,
                    index as int,
                    w,
                );
            }
        }
        &mut self.data[i]
    }

    /// A mutable borrow of the element at logical position `index`, or
    /// nothing when the position is not occupied.
    pub fn get_mut(&mut self, index: usize) -> (r: Option<&mut T>)
        requires
            old(self).wf(),
        ensures
            final(self).wf(),
            index >= old(self)@.len() ==> r is None && *final(self) == *old(self),
            index < old(self)@.len() ==> r.is_some() && *r.unwrap() == old(self)@[index as int]
                && final(self)@ == old(self)@.update(index as int, *final(r.unwrap())),
    {
        if index >= self.len {
            return None;
        }
        Some(self.get_unchecked_mut(index))
    }

    /// A mutable borrow of the front element.  Precondition instead of a
    /// guard: the buffer must not be empty.
    pub fn first_unchecked_mut(&mut self) -> (r: &mut T)
        requires
            old(self).wf(),
            old(self)@.len() > 0,
        ensures
            *r == old(self)@.first(),
            final(self).wf(),
            final(self)@ == old(self)@.update(0, *final(r)),
    {
        self.get_unchecked_mut(0)
    }

    /// A mutable borrow of the front element, or nothing when the buffer
    /// is empty.
    pub fn first_mut(&mut self) -> (r: Option<&mut T>)
        requires
            old(self).wf(),
        ensures
            final(self).wf(),
            old(self)@.len() == 0 ==> r is None && *final(self) == *old(self),
            old(self)@.len() > 0 ==> r.is_some() && *r.unwrap() == old(self)@.first()
                && final(self)@ == old(self)@.update(0, *final(r.unwrap())),
    {
        if self.len < 1 {
            return None;
        }
        Some(self.get_unchecked_mut(0))
    }

    /// A mutable borrow of the back element.  Precondition instead of a
    /// guard: the buffer must not be empty.
    pub fn last_unchecked_mut(&mut self) -> (r: &mut T)
        requires
            old(self).wf(),
            old(self)@.len() > 0,
        ensures
            *r == old(self)@.last(),
            final(self).wf(),
            final(self)@ == old(self)@.update(old(self)@.len() - 1, *final(r)),
    {
        self.get_unchecked_mut(self.len - 1)
    }

    /// A mutable borrow of the back element, or nothing when the buffer
    /// is empty.
    pub fn last_mut(&mut self) -> (r: Option<&mut T>)
        requires
            old(self).wf(),
        ensures
            final(self).wf(),
            old(self)@.len() == 0 ==> r is None && *final(self) == *old(self),
            old(self)@.len() > 0 ==> r.is_some() && *r.unwrap() == old(self)@.last()
                && final(self)@ == old(self)@.update(
                old(self)@.len() - 1,
                *final(r.unwrap()),
            ),
    {
        if self.len < 1 {
            return None;
        }
        Some(self.get_unchecked_mut(self.len - 1))
    }

    /// Splits the backing store at the head into two contiguous runs:
    /// from the head to the end of storage, then from the start of
    /// storage up to the head.  Their concatenation always holds `S`
    /// elements and carries the occupied contents as its prefix,
    /// whatever the occupancy.
    pub fn get_sorted_slices(&self) -> (r: (&[T], &[T]))
        requires
            self.wf(),
        ensures
            r.0@.len() + r.1@.len() == S,
            self@.len() <= S,
            forall|i: int| 0 <= i < self@.len() ==> (r.0@ + r.1@)[i] == self@[i],
    {
        let (lead, trail) = self.data.as_slice().split_at(self.first);
        let r = (trail, lead);
        proof {
            let rot = r.0@ + r.1@;
            assert forall|i: int| 0 <= i < self@.len() implies rot[i] == self@[i] by {
                if self.first + i < S {
                    vstd::arithmetic::div_mod::lemma_small_mod(
                        (self.first + i) as nat,
                        S as nat,
                    );
                } else {
                    vstd::arithmetic::div_mod::lemma_fundamental_div_mod_converse_mod(
                        self.first + i,
                        S as int,
                        1,
                        self.first + i - S,
                    );
                }
            }
        }
        r
    }

    /// Writes the two runs of `get_sorted_slices` consecutively into a
    /// fresh store of exactly `S` slots and returns it with the
    /// occupancy.  The first `len()` slots are the occupied contents in
    /// logical order; the rest hold leftover prior values or the fill
    /// value and carry no meaning.
    pub fn as_slice(&self) -> (r: (usize, [T; S]))
        requires
            self.wf(),
        ensures
            r.0 == self@.len(),
            self@.len() <= S,
            forall|i: int| 0 <= i < self@.len() ==> r.1@[i] == self@[i],
    {
        let (lead_run, trail_run) = self.get_sorted_slices();
        let mut out: [T; S] = [self.initial; S];
        let mut j: usize = 0;
        while j < lead_run.len()
            invariant
                lead_run@.len() + trail_run@.len() == S,
                j <= lead_run@.len(),
                out@.len() == S,
                forall|i: int| 0 <= i < j ==> out@[i] == lead_run@[i],
            decreases lead_run@.len() - j,
        {
            out[j] = lead_run[j];
            j += 1;
        }
        let offset = j;
        let mut k: usize = 0;
        while k < trail_run.len()
            invariant
                lead_run@.len() + trail_run@.len() == S,
                offset == lead_run@.len(),
                k <= trail_run@.len(),
                out@.len() == S,
                forall|i: int| 0 <= i < offset ==> out@[i] == lead_run@[i],
                forall|i: int| 0 <= i < k ==> out@[offset + i] == trail_run@[i],
            decreases trail_run@.len() - k,
        {
            out[offset + k] = trail_run[k];
            k += 1;
        }
        proof {
            assert forall|i: int| 0 <= i < self@.len() implies out@[i] == self@[i] by {
                assert((lead_run@ + trail_run@)[i] == self@[i]);
            }
        }
        (self.len, out)
    }
}

} // verus!
