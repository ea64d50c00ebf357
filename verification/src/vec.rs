use vstd::prelude::*;

verus! {

/// A growable array in a buffer that is doubled when it is full. The first
/// `len` slots of the buffer hold the elements; the others are empty.
pub struct Vec<T> {
    buf: std::vec::Vec<Option<T>>,
    len: usize,
    cap: usize,
}

impl<T> View for Vec<T> {
    type V = Seq<T>;

    /// The elements, in order.
    closed spec fn view(&self) -> Seq<T> {
        Seq::new(self.len as nat, |i: int| self.buf@[i].unwrap())
    }
}

/// The capacity after a buffer of capacity `cap` has grown once.
pub open spec fn grown(cap: int) -> int {
    if cap == 0 {
        1
    } else {
        2 * cap
    }
}

impl<T> Vec<T> {
    /// The buffer has `cap` slots, of which the first `len` are filled.
    pub closed spec fn wf(&self) -> bool {
        &&& self.buf@.len() == self.cap
        &&& self.len <= self.cap
        &&& forall|i: int| 0 <= i < self.len ==> (#[trigger] self.buf@[i]) is Some
        &&& forall|i: int| self.len <= i < self.cap ==> (#[trigger] self.buf@[i]) is None
    }

    /// The number of slots in the buffer.
    pub closed spec fn spec_capacity(&self) -> int {
        self.cap as int
    }

    /// An empty array, without a buffer.
    pub fn new() -> (v: Vec<T>)
        ensures
            v.wf(),
            v@ == Seq::<T>::empty(),
            v.spec_capacity() == 0,
    {
        let v = Vec { buf: std::vec::Vec::new(), cap: 0, len: 0 };
        assert(v@ =~= Seq::<T>::empty());
        v
    }

    /// The number of elements.
    pub fn len(&self) -> (n: usize)
        ensures
            n == self@.len(),
    {
        self.len
    }

    /// The number of slots in the buffer.
    pub fn capacity(&self) -> (n: usize)
        requires
            self.wf(),
        ensures
            n == self.spec_capacity(),
            n >= self@.len(),
    {
        self.cap
    }

    /// Doubles the buffer; an empty one gets one slot.
    fn grow(&mut self)
        requires
            old(self).wf(),
            grown(old(self).spec_capacity()) <= usize::MAX,
        ensures
            final(self).wf(),
            final(self)@ == old(self)@,
            final(self).spec_capacity() == grown(old(self).spec_capacity()),
    {
        let new_cap: usize = if self.cap == 0 {
            1
        } else {
            self.cap * 2
        };
        while self.buf.len() < new_cap
            invariant
                self.len == old(self).len,
                self.cap == old(self).cap,
                self.cap <= self.buf@.len() <= new_cap,
                self.len <= self.cap,
                forall|i: int| 0 <= i < self.cap ==> self.buf@[i] == old(self).buf@[i],
                forall|i: int| self.cap <= i < self.buf@.len() ==> (#[trigger] self.buf@[i]) is None,
            decreases new_cap - self.buf@.len(),
        {
            self.buf.push(None);
        }
        self.cap = new_cap;
        assert(self@ =~= old(self)@);
    }

    /// Appends `value`.
    pub fn push(&mut self, value: T)
        requires
            old(self).wf(),
            grown(old(self).spec_capacity()) <= usize::MAX,
        ensures
            final(self).wf(),
            final(self)@ == old(self)@.push(value),
            final(self).spec_capacity() == if old(self)@.len() == old(self).spec_capacity() {
                grown(old(self).spec_capacity())
            } else {
                old(self).spec_capacity()
            },
    {
        if self.cap == self.len {
            self.grow();
        }
        let ghost before = self.buf@;
        self.buf[self.len] = Some(value);
        self.len += 1;
        assert(self@ =~= old(self)@.push(value));
    }

    /// Takes the last element off, if there is one.
    pub fn pop(&mut self) -> (r: Option<T>)
        requires
            old(self).wf(),
        ensures
            final(self).wf(),
            final(self).spec_capacity() == old(self).spec_capacity(),
            old(self)@.len() == 0 ==> r is None && final(self)@ == old(self)@,
            old(self)@.len() > 0 ==> r == Some(old(self)@.last()) && final(self)@ == old(
                self,
            )@.drop_last(),
    {
        if self.len == 0 {
            None
        } else {
            self.len -= 1;
            let r = self.buf[self.len].take();
            assert(self@ =~= old(self)@.drop_last());
            r
        }
    }

    /// Puts `value` at `index` and moves the elements from there on one
    /// place up.
    pub fn insert(&mut self, index: usize, value: T)
        requires
            old(self).wf(),
            index <= old(self)@.len(),
            grown(old(self).spec_capacity()) <= usize::MAX,
        ensures
            final(self).wf(),
            final(self)@ == old(self)@.insert(index as int, value),
            final(self).spec_capacity() == if old(self)@.len() == old(self).spec_capacity() {
                grown(old(self).spec_capacity())
            } else {
                old(self).spec_capacity()
            },
    {
        if self.cap == self.len {
            self.grow();
        }
        let ghost elems = self@;
        let mut i: usize = self.len;
        while i > index
            invariant
                index <= i <= self.len < self.cap,
                self.buf@.len() == self.cap,
                self.len == old(self).len,
                elems == old(self)@,
                self.cap == if old(self).len == old(self).cap {
                    grown(old(self).cap as int)
                } else {
                    old(self).cap as int
                },
                self.buf@[i as int] is None,
                forall|k: int| 0 <= k < i ==> self.buf@[k] == Some(elems[k]),
                forall|k: int| i < k <= self.len ==> self.buf@[k] == Some(elems[k - 1]),
                forall|k: int| self.len < k < self.cap ==> (#[trigger] self.buf@[k]) is None,
            decreases i,
        {
            let moved = self.buf[i - 1].take();
            self.buf[i] = moved;
            i -= 1;
        }
        self.buf[index] = Some(value);
        self.len += 1;
        assert(self@ =~= old(self)@.insert(index as int, value));
    }

    /// Takes the element at `index` out and moves the elements behind it one
    /// place down.
    pub fn remove(&mut self, index: usize) -> (r: T)
        requires
            old(self).wf(),
            index < old(self)@.len(),
        ensures
            final(self).wf(),
            r == old(self)@[index as int],
            final(self)@ == old(self)@.remove(index as int),
            final(self).spec_capacity() == old(self).spec_capacity(),
    {
        let ghost elems = self@;
        let result = self.buf[index].take();
        let mut i: usize = index;
        while i + 1 < self.len
            invariant
                index <= i < self.len <= self.cap,
                self.buf@.len() == self.cap,
                self.len == old(self).len,
                self.cap == old(self).cap,
                elems == old(self)@,
                self.buf@[i as int] is None,
                forall|k: int| 0 <= k < index ==> self.buf@[k] == Some(elems[k]),
                forall|k: int| index <= k < i ==> self.buf@[k] == Some(elems[k + 1]),
                forall|k: int| i < k < self.len ==> self.buf@[k] == Some(elems[k]),
                forall|k: int| self.len <= k < self.cap ==> (#[trigger] self.buf@[k]) is None,
            decreases self.len - i,
        {
            let moved = self.buf[i + 1].take();
            self.buf[i] = moved;
            i += 1;
        }
        self.len -= 1;
        assert(self@ =~= old(self)@.remove(index as int));
        result.unwrap()
    }

    /// The element at `index`, to read.
    pub fn get(&self, index: usize) -> (t: &T)
        requires
            self.wf(),
            index < self@.len(),
        ensures
            *t == self@[index as int],
    {
        match &self.buf[index] {
            Some(t) => t,
            None => vstd::pervasive::unreached(),
        }
    }

    /// Replaces the element at `index` and returns the one that was there.
    pub fn set(&mut self, index: usize, value: T) -> (prev: T)
        requires
            old(self).wf(),
            index < old(self)@.len(),
        ensures
            final(self).wf(),
            prev == old(self)@[index as int],
            final(self)@ == old(self)@.update(index as int, value),
            final(self).spec_capacity() == old(self).spec_capacity(),
    {
        let prev = self.buf[index].take();
        self.buf[index] = Some(value);
        assert(self@ =~= old(self)@.update(index as int, value));
        prev.unwrap()
    }

    /// Turns the array into the sequence of its elements, to be taken from
    /// either end.
    pub fn into_iter(self) -> (it: IntoIter<T>)
        requires
            self.wf(),
        ensures
            it.wf(),
            it@ == self@,
    {
        let it = IntoIter { buf: self.buf, beg: 0, end: self.len };
        assert(it@ =~= self@);
        it
    }

    /// Takes the elements from `start` up to `end` out of the array. The
    /// result hands them out one by one; when it is dropped, the elements
    /// behind `end` move down to `start`.
    pub fn drain(&mut self, start: usize, end: usize) -> (d: Drain<'_, T>)
        requires
            old(self).wf(),
            start <= end <= old(self)@.len(),
        ensures
            d.wf(),
            d@ == old(self)@.subrange(start as int, end as int),
            d.kept() == old(self)@.subrange(0, start as int) + old(self)@.subrange(
                end as int,
                old(self)@.len() as int,
            ),
            d.spec_capacity() == old(self).spec_capacity(),
            *final(self) == *final(d.borrowed()),
    {
        let tail_len: usize = self.len - end;
        self.len = start;
        let d = Drain { vec: self, tail_start: end, tail_len, beg: start, end };
        assert(d@ =~= old(self)@.subrange(start as int, end as int));
        assert(d.kept() =~= old(self)@.subrange(0, start as int) + old(self)@.subrange(
            end as int,
            old(self)@.len() as int,
        ));
        d
    }
}

/// The elements of an array that was taken apart, from `beg` up to `end`.
pub struct IntoIter<T> {
    buf: std::vec::Vec<Option<T>>,
    beg: usize,
    end: usize,
}

impl<T> View for IntoIter<T> {
    type V = Seq<T>;

    /// The elements that are left, in order.
    closed spec fn view(&self) -> Seq<T> {
        Seq::new((self.end - self.beg) as nat, |i: int| self.buf@[self.beg + i].unwrap())
    }
}

impl<T> IntoIter<T> {
    /// The slots from `beg` up to `end` are filled.
    pub closed spec fn wf(&self) -> bool {
        &&& self.beg <= self.end <= self.buf@.len()
        &&& forall|i: int| self.beg <= i < self.end ==> (#[trigger] self.buf@[i]) is Some
    }

    /// Takes the first element that is left.
    pub fn next(&mut self) -> (r: Option<T>)
        requires
            old(self).wf(),
        ensures
            final(self).wf(),
            old(self)@.len() == 0 ==> r is None && final(self)@ == old(self)@,
            old(self)@.len() > 0 ==> r == Some(old(self)@.first()) && final(self)@ == old(
                self,
            )@.drop_first(),
    {
        if self.beg == self.end {
            None
        } else {
            let r = self.buf[self.beg].take();
            self.beg += 1;
            assert(self@ =~= old(self)@.drop_first());
            r
        }
    }

    /// The number of elements that are left, as a lower and an upper bound.
    pub fn size_hint(&self) -> (r: (usize, Option<usize>))
        requires
            self.wf(),
        ensures
            r.0 == self@.len(),
            r.1 == Some(r.0),
    {
        let remaining: usize = self.end - self.beg;
        (remaining, Some(remaining))
    }

    /// Takes the last element that is left.
    pub fn next_back(&mut self) -> (r: Option<T>)
        requires
            old(self).wf(),
        ensures
            final(self).wf(),
            old(self)@.len() == 0 ==> r is None && final(self)@ == old(self)@,
            old(self)@.len() > 0 ==> r == Some(old(self)@.last()) && final(self)@ == old(
                self,
            )@.drop_last(),
    {
        if self.beg == self.end {
            None
        } else {
            self.end -= 1;
            let r = self.buf[self.end].take();
            assert(self@ =~= old(self)@.drop_last());
            r
        }
    }
}

/// The elements that are being taken out of an array, from `beg` up to
/// `end`, and the borrow of the array, whose own elements end before them.
pub struct Drain<'a, T> {
    vec: &'a mut Vec<T>,
    tail_start: usize,
    tail_len: usize,
    beg: usize,
    end: usize,
}

impl<'a, T> View for Drain<'a, T> {
    type V = Seq<T>;

    /// The elements that are left to hand out, in order.
    closed spec fn view(&self) -> Seq<T> {
        Seq::new((self.end - self.beg) as nat, |i: int| self.vec.buf@[self.beg + i].unwrap())
    }
}

impl<'a, T> Drain<'a, T> {
    /// The buffer holds the elements in front, a gap, the elements that are
    /// left to hand out, a gap, and the elements behind.
    pub closed spec fn wf(&self) -> bool {
        &&& self.vec.buf@.len() == self.vec.cap
        &&& self.vec.len <= self.beg <= self.end <= self.tail_start
        &&& self.tail_start + self.tail_len <= self.vec.cap
        &&& forall|i: int| 0 <= i < self.vec.len ==> (#[trigger] self.vec.buf@[i]) is Some
        &&& forall|i: int| self.vec.len <= i < self.beg ==> (#[trigger] self.vec.buf@[i]) is None
        &&& forall|i: int| self.beg <= i < self.end ==> (#[trigger] self.vec.buf@[i]) is Some
        &&& forall|i: int| self.end <= i < self.tail_start ==> (#[trigger] self.vec.buf@[i]) is None
        &&& forall|i: int|
            self.tail_start <= i < self.tail_start + self.tail_len ==> (
            #[trigger] self.vec.buf@[i]) is Some
        &&& forall|i: int|
            self.tail_start + self.tail_len <= i < self.vec.cap ==> (
            #[trigger] self.vec.buf@[i]) is None
    }

    /// The elements that the array holds once this is dropped: those in
    /// front and those behind.
    pub closed spec fn kept(&self) -> Seq<T> {
        Seq::new(self.vec.len as nat, |i: int| self.vec.buf@[i].unwrap()) + Seq::new(
            self.tail_len as nat,
            |i: int| self.vec.buf@[self.tail_start + i].unwrap(),
        )
    }

    /// The number of slots in the array's buffer.
    pub closed spec fn spec_capacity(&self) -> int {
        self.vec.cap as int
    }

    /// The borrow of the array that this holds.
    pub closed spec fn borrowed(&self) -> &'a mut Vec<T> {
        self.vec
    }

    /// Takes the first element that is left.
    pub fn next(&mut self) -> (r: Option<T>)
        requires
            old(self).wf(),
        ensures
            final(self).wf(),
            final(self).kept() == old(self).kept(),
            final(self).spec_capacity() == old(self).spec_capacity(),
            *final(final(self).borrowed()) == *final(old(self).borrowed()),
            old(self)@.len() == 0 ==> r is None && final(self)@ == old(self)@,
            old(self)@.len() > 0 ==> r == Some(old(self)@.first()) && final(self)@ == old(
                self,
            )@.drop_first(),
    {
        if self.beg == self.end {
            None
        } else {
            let r = self.vec.buf[self.beg].take();
            self.beg += 1;
            assert(self@ =~= old(self)@.drop_first());
            assert(self.kept() =~= old(self).kept());
            r
        }
    }

    /// The number of elements that are left, as a lower and an upper bound.
    pub fn size_hint(&self) -> (r: (usize, Option<usize>))
        requires
            self.wf(),
        ensures
            r.0 == self@.len(),
            r.1 == Some(r.0),
    {
        let remaining: usize = self.end - self.beg;
        (remaining, Some(remaining))
    }

    /// Takes the last element that is left.
    pub fn next_back(&mut self) -> (r: Option<T>)
        requires
            old(self).wf(),
        ensures
            final(self).wf(),
            final(self).kept() == old(self).kept(),
            final(self).spec_capacity() == old(self).spec_capacity(),
            *final(final(self).borrowed()) == *final(old(self).borrowed()),
            old(self)@.len() == 0 ==> r is None && final(self)@ == old(self)@,
            old(self)@.len() > 0 ==> r == Some(old(self)@.last()) && final(self)@ == old(
                self,
            )@.drop_last(),
    {
        if self.beg == self.end {
            None
        } else {
            self.end -= 1;
            let r = self.vec.buf[self.end].take();
            assert(self@ =~= old(self)@.drop_last());
            assert(self.kept() =~= old(self).kept());
            r
        }
    }

    /// Ends the draining: the elements that were not handed out are dropped,
    /// and the elements behind them move down to close the gap.
    pub fn drop(self)
        requires
            self.wf(),
        ensures
            final(self.borrowed()).wf(),
            final(self.borrowed())@ == self.kept(),
            final(self.borrowed()).spec_capacity() == self.spec_capacity(),
    {
        let mut d = self;
        while d.beg < d.end
            invariant
                d.wf(),
                d.kept() == self.kept(),
                d.vec.cap == self.vec.cap,
                d.tail_start == self.tail_start,
                d.tail_len == self.tail_len,
                *final(d.vec) == *final(self.vec),
            decreases d.end - d.beg,
        {
            let ghost before = d.kept();
            let _ = d.vec.buf[d.beg].take();
            d.beg += 1;
            assert(d.kept() =~= before);
        }
        let ghost kept = d.kept();
        let start: usize = d.vec.len;
        let mut k: usize = 0;
        if d.tail_start > start {
            while k < d.tail_len
                invariant
                    k <= d.tail_len,
                    start == d.vec.len,
                    start < d.tail_start,
                    d.vec.buf@.len() == d.vec.cap,
                    d.vec.cap == self.vec.cap,
                    d.tail_start + d.tail_len <= d.vec.cap,
                    *final(d.vec) == *final(self.vec),
                    kept == self.kept(),
                    kept.len() == start + d.tail_len,
                    forall|i: int| 0 <= i < start + k ==> d.vec.buf@[i] == Some(kept[i]),
                    forall|i: int|
                        start + k <= i < d.tail_start + k ==> (#[trigger] d.vec.buf@[i]) is None,
                    forall|i: int|
                        d.tail_start + k <= i < d.tail_start + d.tail_len ==> d.vec.buf@[i]
                            == Some(kept[i - d.tail_start + start]),
                    forall|i: int|
                        d.tail_start + d.tail_len <= i < d.vec.cap ==> (
                        #[trigger] d.vec.buf@[i]) is None,
                decreases d.tail_len - k,
            {
                let moved = d.vec.buf[d.tail_start + k].take();
                d.vec.buf[start + k] = moved;
                k += 1;
            }
        }
        d.vec.len = start + d.tail_len;
        assert(d.vec@ =~= kept);
    }
}

} // verus!
