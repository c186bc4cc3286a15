use vstd::prelude::*;

verus! {

/// The failure that the head-mutating operations report when the buffer
/// holds no element.
#[derive(Clone, Copy, Debug, PartialEq, Eq, Structural)]
pub enum TimeseriesError {
    /// The buffer is empty, so there is no head element to overwrite.
    Empty,
}

impl TimeseriesError {
    /// A descriptive message for this failure.
    pub fn message(&self) -> (r: &'static str)
        ensures
            r@ == "Can't update because no entries in time series"@,
    {
        "Can't update because no entries in time series"
    }
}

/// Backing-store offset of the mirror of slot `j`: the slot `cap` apart,
/// in the other half of a store of `2 * cap` slots.
pub open spec fn mirror_of(cap: int, j: int) -> int {
    if j < cap {
        j + cap
    } else {
        j - cap
    }
}

/// Slot `j` of the store holds a live element, and its mirror holds the
/// same element.
spec fn slot_mirrored<T>(d: Seq<Option<T>>, cap: int, j: int) -> bool {
    &&& d[j] is Some
    &&& d[mirror_of(cap, j)] == d[j]
}

/// The logical contents after pushing `v` onto a buffer that held `s`
/// (newest first) and has capacity `cap`: `v` becomes the newest element,
/// and the oldest one is discarded when `s` was already full.
pub open spec fn pushed_view<T>(s: Seq<T>, v: T, cap: nat) -> Seq<T> {
    if s.len() < cap {
        seq![v] + s
    } else {
        (seq![v] + s).take(cap as int)
    }
}

/// A fixed-capacity, overwrite-on-full sequence container, newest first.
///
/// The store has `2 * capacity` slots; each live element occupies the two
/// slots `pos + k` and `mirror_of(capacity, pos + k)`, which differ by
/// `capacity`. The window `[pos, pos + len)` therefore never wraps, and
/// reading it forward yields the elements newest to oldest.
pub struct TimeseriesImpl<T> {
    data: Vec<Option<T>>,
    capacity: usize,
    len: usize,
    pos: usize,
}

impl<T> View for TimeseriesImpl<T> {
    type V = Seq<T>;

    /// The logical contents, newest first.
    closed spec fn view(&self) -> Seq<T> {
        Seq::new(self.len as nat, |k: int| self.data@[self.pos + k]->0)
    }
}

impl<T> TimeseriesImpl<T> {
    /// The fixed maximum number of elements, set at construction.
    pub closed spec fn spec_capacity(&self) -> nat {
        self.capacity as nat
    }

    /// Well-formedness: the store has `2 * capacity` slots, `pos` never
    /// exceeds `capacity` (so the window `[pos, pos + len)` never leaves
    /// the store), `pos == capacity` exactly when the buffer is empty (the
    /// sentinel position), and every window slot is live and agrees with
    /// its mirror.
    pub closed spec fn inv(&self) -> bool {
        &&& self.data@.len() == 2 * self.capacity
        &&& 2 * self.capacity <= usize::MAX
        &&& self.len <= self.capacity
        &&& self.pos <= self.capacity
        &&& (self.len == 0 <==> self.pos == self.capacity)
        &&& forall|k: int|
            0 <= k < self.len ==> #[trigger] slot_mirrored(
                self.data@,
                self.capacity as int,
                self.pos + k,
            )
    }

    /// A new, empty buffer that will hold at most `capacity` elements.
    pub fn new_with_capacity(capacity: usize) -> (r: Self)
        requires
            capacity <= usize::MAX / 2,
        ensures
            r.inv(),
            r@ == Seq::<T>::empty(),
            r.spec_capacity() == capacity,
    {
        let n = capacity * 2;
        let mut data: Vec<Option<T>> = Vec::new();
        while data.len() < n
            invariant
                data@.len() <= n,
            decreases n - data@.len(),
        {
            data.push(None);
        }
        let r = Self { data, capacity, len: 0, pos: capacity };
        proof {
            assert(r@ =~= Seq::<T>::empty());
        }
        r
    }

    /// The number of elements currently held, at most the capacity.
    pub fn len(&self) -> (r: usize)
        requires
            self.inv(),
        ensures
            r == self@.len(),
    {
        self.len
    }

    /// Empties the buffer: afterwards it behaves exactly like a freshly
    /// constructed one of the same capacity.
    pub fn clear(&mut self)
        requires
            old(self).inv(),
        ensures
            final(self).inv(),
            final(self)@ == Seq::<T>::empty(),
            final(self).spec_capacity() == old(self).spec_capacity(),
    {
        self.len = 0;
        self.pos = self.capacity;
        proof {
            assert(self@ =~= Seq::<T>::empty());
        }
    }

    /// Store offset of the newest element (the start of the live window).
    fn pos(&self) -> (r: usize)
        ensures
            r == self.pos,
    {
        self.pos
    }

    /// Store offset one past the oldest element (the end of the live
    /// window).
    fn pos2(&self) -> (r: usize)
        requires
            self.inv(),
        ensures
            r == self.pos + self.len,
    {
        self.pos + self.len
    }

    /// The newest element, or `None` when the buffer is empty.
    pub fn first(&self) -> (r: Option<&T>)
        requires
            self.inv(),
        ensures
            r is Some <==> self@.len() > 0,
            self@.len() > 0 ==> r == Some(&self@[0]),
    {
        self.get(0)
    }

    /// The element at logical index `pos` (0 is the newest, larger indices
    /// are older), or `None` when `pos` is out of range. Never fails.
    pub fn get(&self, pos: usize) -> (r: Option<&T>)
        requires
            self.inv(),
        ensures
            r is Some <==> pos < self@.len(),
            pos < self@.len() ==> r == Some(&self@[pos as int]),
    {
        if self.len > pos {
            let j = self.pos + pos;
            proof {
                assert(slot_mirrored(self.data@, self.capacity as int, self.pos + pos));
            }
            match &self.data[j] {
                Some(v) => Some(v),
                None => vstd::pervasive::unreached(),
            }
        } else {
            None
        }
    }

    /// All live elements, newest first, as borrowed references: the window
    /// `[pos, pos + len)` read forward, with no copying of elements.
    pub fn as_ref_vec(&self) -> (r: Vec<&T>)
        requires
            self.inv(),
        ensures
            r@.len() == self@.len(),
            forall|k: int| 0 <= k < self@.len() ==> *(#[trigger] r@[k]) == self@[k],
    {
        let end = self.pos2();
        let mut r: Vec<&T> = Vec::new();
        let mut j = self.pos();
        while j < end
            invariant
                self.inv(),
                self.pos <= j <= end,
                end == self.pos + self.len,
                r@.len() == j - self.pos,
                forall|k: int| 0 <= k < r@.len() ==> *(#[trigger] r@[k]) == self@[k],
            decreases end - j,
        {
            proof {
                let k = j - self.pos;
                assert(slot_mirrored(self.data@, self.capacity as int, self.pos + k));
            }
            let v: &T = match &self.data[j] {
                Some(v) => v,
                None => vstd::pervasive::unreached(),
            };
            r.push(v);
            j = j + 1;
        }
        r
    }
}

impl<T: Copy> TimeseriesImpl<T> {
    /// All live elements, newest first, as an owned copy of the window.
    pub fn as_vec(&self) -> (r: Vec<T>)
        requires
            self.inv(),
        ensures
            r@ == self@,
    {
        let end = self.pos2();
        let mut r: Vec<T> = Vec::new();
        let mut j = self.pos();
        while j < end
            invariant
                self.inv(),
                self.pos <= j <= end,
                end == self.pos + self.len,
                r@.len() == j - self.pos,
                forall|k: int| 0 <= k < r@.len() ==> #[trigger] r@[k] == self@[k],
            decreases end - j,
        {
            proof {
                let k = j - self.pos;
                assert(slot_mirrored(self.data@, self.capacity as int, self.pos + k));
            }
            let v: T = match &self.data[j] {
                Some(v) => *v,
                None => vstd::pervasive::unreached(),
            };
            r.push(v);
            j = j + 1;
        }
        proof {
            assert(r@ =~= self@);
        }
        r
    }

    /// Writes `value` into the head slot and its mirror, the single-element
    /// write path shared by the head-mutating operations.
    fn write_head(&mut self, value: T)
        requires
            old(self).data@.len() == 2 * old(self).capacity,
            2 * old(self).capacity <= usize::MAX,
            old(self).pos < old(self).capacity,
        ensures
            final(self).data@ == old(self).data@.update(old(self).pos as int, Some(value)).update(
                old(self).pos + old(self).capacity,
                Some(value),
            ),
            final(self).pos == old(self).pos,
            final(self).len == old(self).len,
            final(self).capacity == old(self).capacity,
    {
        let j = self.pos;
        let m = self.pos + self.capacity;
        self.data[j] = Some(value);
        self.data[m] = Some(value);
    }

    /// Overwrites the newest element with `value`, in both mirror slots.
    /// Fails with the empty-buffer error when the buffer holds no element;
    /// the length and the rest of the contents never change.
    pub fn update(&mut self, value: &T) -> (r: Result<(), TimeseriesError>)
        requires
            old(self).inv(),
        ensures
            final(self).inv(),
            final(self).spec_capacity() == old(self).spec_capacity(),
            old(self)@.len() == 0 ==> r == Result::<(), TimeseriesError>::Err(
                TimeseriesError::Empty,
            ) && *final(self) == *old(self),
            old(self)@.len() > 0 ==> {
                &&& r is Ok
                &&& final(self)@ == old(self)@.update(0, *value)
                &&& final(self)@.len() == old(self)@.len()
                &&& final(self)@[0] == *value
                &&& forall|k: int| 1 <= k < old(self)@.len() ==> final(self)@[k] == old(self)@[k]
            },
    {
        if self.len == 0 {
            return Err(TimeseriesError::Empty);
        }
        self.write_head(*value);
        proof {
            lemma_head_write_keeps_inv(*old(self), *self, *value);
            assert(self@ =~= old(self)@.update(0, *value));
        }
        Ok(())
    }

    /// Applies `fun` once to the newest element and stores the result in
    /// both mirror slots, so the two copies never diverge. Fails with the
    /// empty-buffer error when the buffer holds no element; the length and
    /// the rest of the contents never change.
    pub fn update_with<F: Fn(T) -> T>(&mut self, fun: F) -> (r: Result<(), TimeseriesError>)
        requires
            old(self).inv(),
            old(self)@.len() > 0 ==> call_requires(fun, (old(self)@[0],)),
        ensures
            final(self).inv(),
            final(self).spec_capacity() == old(self).spec_capacity(),
            old(self)@.len() == 0 ==> r == Result::<(), TimeseriesError>::Err(
                TimeseriesError::Empty,
            ) && *final(self) == *old(self),
            old(self)@.len() > 0 ==> {
                &&& r is Ok
                &&& call_ensures(fun, (old(self)@[0],), final(self)@[0])
                &&& final(self)@ == old(self)@.update(0, final(self)@[0])
                &&& final(self)@.len() == old(self)@.len()
                &&& forall|k: int| 1 <= k < old(self)@.len() ==> final(self)@[k] == old(self)@[k]
            },
    {
        if self.len == 0 {
            return Err(TimeseriesError::Empty);
        }
        let j = self.pos;
        proof {
            assert(slot_mirrored(self.data@, self.capacity as int, self.pos + 0));
        }
        let cur: T = match &self.data[j] {
            Some(v) => *v,
            None => vstd::pervasive::unreached(),
        };
        let new_value = fun(cur);
        self.write_head(new_value);
        proof {
            lemma_head_write_keeps_inv(*old(self), *self, new_value);
            assert(self@ =~= old(self)@.update(0, new_value));
        }
        Ok(())
    }

    /// Inserts `value` as the new newest element. Below capacity the length
    /// grows by one; at capacity the oldest element is discarded. Never
    /// fails; a buffer of capacity 0 cannot accept an element, so a positive
    /// capacity is demanded of the caller.
    pub fn push(&mut self, value: T) -> (r: Result<(), TimeseriesError>)
        requires
            old(self).inv(),
            old(self).spec_capacity() > 0,
        ensures
            final(self).inv(),
            final(self).spec_capacity() == old(self).spec_capacity(),
            r is Ok,
            final(self)@ == pushed_view(old(self)@, value, old(self).spec_capacity()),
    {
        if self.len < self.capacity {
            self.len = self.len + 1;
        }
        if self.pos == 0 {
            self.pos = self.capacity;
        }
        self.pos = self.pos - 1;
        self.write_head(value);
        proof {
            let g = *old(self);
            let cap = g.capacity as int;
            assert forall|k: int|
                0 <= k < self.len implies #[trigger] slot_mirrored(
                self.data@,
                cap,
                self.pos + k,
            ) by {
                if k > 0 {
                    assert(slot_mirrored(g.data@, cap, g.pos + (k - 1)));
                }
            }
            assert forall|k: int| 1 <= k < self.len implies self@[k] == g@[k - 1] by {
                assert(slot_mirrored(g.data@, cap, g.pos + (k - 1)));
            }
            assert(self@ =~= pushed_view(g@, value, g.spec_capacity()));
        }
        Ok(())
    }
}

/// A write of `value` into the head slot and its mirror keeps the buffer
/// well-formed and replaces exactly the newest logical element.
proof fn lemma_head_write_keeps_inv<T>(g: TimeseriesImpl<T>, s: TimeseriesImpl<T>, value: T)
    requires
        g.inv(),
        g.len > 0,
        s.pos == g.pos,
        s.len == g.len,
        s.capacity == g.capacity,
        s.data@ == g.data@.update(g.pos as int, Some(value)).update(
            g.pos + g.capacity,
            Some(value),
        ),
    ensures
        s.inv(),
{
    let cap = g.capacity as int;
    assert forall|k: int| 0 <= k < s.len implies #[trigger] slot_mirrored(
        s.data@,
        cap,
        s.pos + k,
    ) by {
        assert(slot_mirrored(g.data@, cap, g.pos + k));
    }
}

} // verus!
