use std::collections::VecDeque;
use vstd::prelude::*;

verus! {

/// A queue of at most `capacity` values that drops its oldest value to make room.
#[derive(Debug)]
pub struct RingBuffer<T> {
    capacity: usize,
    values: VecDeque<T>,
}

/// What a buffer keeps after `v` arrives in a buffer holding `s`, of capacity `cap`.
pub open spec fn pushed<T>(s: Seq<T>, v: T, cap: nat) -> Seq<T> {
    if s.len() > 0 && s.len() >= cap {
        s.drop_first().push(v)
    } else {
        s.push(v)
    }
}

/// What a buffer of capacity `cap` holding `s` holds once `xs` arrive, in order.
pub open spec fn pushed_all<T>(s: Seq<T>, xs: Seq<T>, cap: nat) -> Seq<T>
    decreases xs.len(),
{
    if xs.len() == 0 {
        s
    } else {
        pushed(pushed_all(s, xs.drop_last(), cap), xs.last(), cap)
    }
}

/// A ring buffer keeps the latest values: once values `xs` are pushed, in order, into an
/// empty buffer of capacity `cap`, it holds the last `cap` of them (all of them if there
/// are fewer), oldest first.
pub proof fn keeps_latest<T>(xs: Seq<T>, cap: nat)
    requires
        cap > 0,
    ensures
        pushed_all(Seq::<T>::empty(), xs, cap) == xs.subrange(
            if xs.len() > cap { xs.len() - cap } else { 0 },
            xs.len() as int,
        ),
    decreases xs.len(),
{
    if xs.len() > 0 {
        let pre = xs.drop_last();
        keeps_latest(pre, cap);
        let held = pushed_all(Seq::<T>::empty(), pre, cap);
        if pre.len() >= cap {
            assert(held.drop_first().push(xs.last()) =~= xs.subrange(xs.len() - cap, xs.len() as int));
        } else {
            assert(held.push(xs.last()) =~= xs.subrange(
                if xs.len() > cap { xs.len() - cap } else { 0 },
                xs.len() as int,
            ));
        }
    } else {
        assert(xs.subrange(0, 0) =~= Seq::<T>::empty());
    }
}

impl<T> View for RingBuffer<T> {
    type V = Seq<T>;

    /// The values held, oldest first.
    closed spec fn view(&self) -> Seq<T> {
        self.values@
    }
}

impl<T> RingBuffer<T> {
    #[verifier::type_invariant]
    spec fn well_formed(&self) -> bool {
        0 < self.capacity && self.values@.len() <= self.capacity
    }

    /// The most values the buffer holds.
    pub closed spec fn spec_capacity(&self) -> nat {
        self.capacity as nat
    }

    /// The most values the buffer holds; it always holds at most that many.
    pub fn capacity(&self) -> (r: usize)
        ensures
            r == self.spec_capacity(),
            0 < r,
            self@.len() <= r,
    {
        proof {
            use_type_invariant(self);
        }
        self.capacity
    }

    /// Removes and returns the oldest value.
    pub fn pop_oldest(&mut self) -> (r: Option<T>)
        ensures
            final(self).spec_capacity() == old(self).spec_capacity(),
            match r {
                Some(v) => old(self)@.len() > 0 && v == old(self)@[0] && final(self)@ == old(
                    self,
                )@.drop_first(),
                None => old(self)@.len() == 0 && final(self)@ == old(self)@,
            },
    {
        proof {
            use_type_invariant(&*self);
        }
        let mut values = VecDeque::new();
        std::mem::swap(&mut values, &mut self.values);
        let r = values.pop_front();
        proof {
            if r is Some {
                assert(old(self)@.drop_first() =~= values@);
            }
        }
        self.values = values;
        r
    }

    /// The value at position `i`, counting from the oldest.
    pub fn get(&self, i: usize) -> (r: &T)
        requires
            i < self@.len(),
        ensures
            *r == self@[i as int],
    {
        &self.values[i]
    }
}

impl<T: Clone> RingBuffer<T> {
    /// An empty buffer that holds at most `capacity` values.
    pub fn new(capacity: usize) -> (r: Self)
        requires
            capacity > 0,
        ensures
            r@ == Seq::<T>::empty(),
            r.spec_capacity() == capacity,
    {
        RingBuffer { capacity, values: VecDeque::new() }
    }

    /// Appends `value`; when the buffer is full the oldest value is dropped first.
    pub fn push(&mut self, value: T)
        ensures
            final(self).spec_capacity() == old(self).spec_capacity(),
            final(self)@ == pushed(old(self)@, value, old(self).spec_capacity()),
    {
        proof {
            use_type_invariant(&*self);
        }
        let mut values = VecDeque::new();
        std::mem::swap(&mut values, &mut self.values);
        if values.len() == self.capacity {
            values.pop_front();
        }
        values.push_back(value);
        proof {
            assert(values@ =~= pushed(old(self)@, value, old(self).spec_capacity()));
        }
        self.values = values;
    }

    /// Copies of the newest `limit` values (all of them if there are fewer), oldest first.
    pub fn latest(&self, limit: usize) -> (r: Vec<T>)
        ensures
            r@.len() == if self@.len() < limit {
                self@.len()
            } else {
                limit as nat
            },
            forall|i: int|
                0 <= i < r@.len() ==> cloned::<T>(
                    self@[self@.len() - r@.len() + i],
                    #[trigger] r@[i],
                ),
    {
        let n = self.values.len();
        let start = n.saturating_sub(limit);
        let mut out: Vec<T> = Vec::new();
        let mut i = start;
        while i < n
            invariant
                n == self@.len(),
                start <= i <= n,
                start == if n < limit { 0 } else { n - limit },
                out@.len() == i - start,
                forall|k: int| 0 <= k < out@.len() ==> cloned::<T>(self@[start + k], #[trigger] out@[k]),
            decreases n - i,
        {
            out.push(self.values[i].clone());
            i = i + 1;
        }
        out
    }

    /// Number of values held.
    pub fn len(&self) -> (r: usize)
        ensures
            r == self@.len(),
            r <= self.spec_capacity(),
    {
        proof {
            use_type_invariant(self);
        }
        self.values.len()
    }
}

} // verus!
