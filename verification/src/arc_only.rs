use crate::atomics::{Counter, MAX_REFCOUNT};
use vstd::prelude::*;

verus! {

/// What one allocation record holds, as a mathematical value.
pub ghost struct Record<T> {
    /// The payload.
    pub payload: T,
    /// The counter: the number of handles that exist.
    pub count: int,
}

impl<T> Record<T> {
    /// What holds of every record between two operations.
    pub open spec fn inv(self) -> bool {
        1 <= self.count <= MAX_REFCOUNT + 1
    }

    /// The record after one more handle was made.
    pub open spec fn add_handle(self) -> Record<T> {
        Record { count: self.count + 1, ..self }
    }

    /// What is left after one handle was dropped: nothing, if it was the
    /// last one.
    pub open spec fn sub_handle(self) -> Option<Record<T>> {
        if self.count == 1 {
            None
        } else {
            Some(Record { count: self.count - 1, ..self })
        }
    }
}

/// An allocation record: the payload and its counter.
pub struct ArcData<T> {
    data: T,
    count: Counter,
}

impl<T> View for ArcData<T> {
    type V = Record<T>;

    closed spec fn view(&self) -> Record<T> {
        Record { payload: self.data, count: self.count@ as int }
    }
}

/// The memory in which allocation records live. A handle names its record
/// by the record's place here; a place is never given out twice, so that a
/// handle to a released record can never be taken for a handle to a later
/// one. Every operation of a handle is handed the heap and runs to its end
/// before the next one starts.
pub struct Heap<T> {
    slots: Vec<Option<ArcData<T>>>,
}

impl<T> View for Heap<T> {
    type V = Seq<Option<Record<T>>>;

    closed spec fn view(&self) -> Seq<Option<Record<T>>> {
        records(self.slots@)
    }
}

/// The records that a sequence of slots holds.
spec fn records<T>(slots: Seq<Option<ArcData<T>>>) -> Seq<Option<Record<T>>> {
    Seq::new(
        slots.len(),
        |p: int|
            match slots[p] {
                Some(d) => Some(d@),
                None => None,
            },
    )
}

/// Writing a record into one slot changes that slot's record and no other.
proof fn lemma_records_update<T>(slots: Seq<Option<ArcData<T>>>, p: int, d: ArcData<T>)
    requires
        0 <= p < slots.len(),
    ensures
        records(slots.update(p, Some(d))) == records(slots).update(p, Some(d@)),
{
    assert(records(slots.update(p, Some(d))) =~= records(slots).update(p, Some(d@)));
}

impl<T> Heap<T> {
    /// Every record that is still allocated meets the record invariant.
    pub open spec fn wf(&self) -> bool {
        forall|p: int|
            0 <= p < self@.len() ==> (#[trigger] self@[p] matches Some(r) ==> r.inv())
    }

    /// The record at `p` is allocated, so that a handle to it exists.
    pub open spec fn has_handle(&self, p: usize) -> bool {
        p < self@.len() && self@[p as int] is Some
    }

    /// The record at `p`; meant for a place that is allocated.
    pub open spec fn record(&self, p: usize) -> Record<T> {
        self@[p as int].unwrap()
    }

    /// A heap without records.
    pub fn new() -> (heap: Heap<T>)
        ensures
            heap@ == Seq::<Option<Record<T>>>::empty(),
            heap.wf(),
    {
        let heap = Heap { slots: Vec::new() };
        assert(heap@ =~= Seq::<Option<Record<T>>>::empty());
        heap
    }

    /// The number of places given out so far.
    pub fn len(&self) -> (n: usize)
        ensures
            n == self@.len(),
    {
        self.slots.len()
    }

    /// Whether the record at `p` is still allocated.
    pub fn is_allocated(&self, p: usize) -> (b: bool)
        ensures
            b == (p < self@.len() && self@[p as int] is Some),
    {
        p < self.slots.len() && self.slots[p].is_some()
    }

    fn record_mut(&mut self, p: usize) -> (r: &mut ArcData<T>)
        requires
            p < old(self).slots@.len(),
            old(self).slots@[p as int] is Some,
        ensures
            *r == old(self).slots@[p as int].unwrap(),
            final(self).slots@ == old(self).slots@.update(p as int, Some(*final(r))),
    {
        match &mut self.slots[p] {
            Some(r) => r,
            None => vstd::pervasive::unreached(),
        }
    }
}

/// An owning handle: the payload lives as long as one of these exists.
pub struct Arc<T> {
    ptr: usize,
    marker: core::marker::PhantomData<T>,
}

impl<T> View for Arc<T> {
    type V = usize;

    /// The place of the handle's record.
    closed spec fn view(&self) -> usize {
        self.ptr
    }
}

impl<T> Arc<T> {
    /// Allocates a record for `t`, with the counter at 1, and returns the
    /// first handle to it.
    pub fn new(heap: &mut Heap<T>, t: T) -> (arc: Arc<T>)
        requires
            old(heap).wf(),
        ensures
            final(heap).wf(),
            arc@ == old(heap)@.len(),
            final(heap)@ == old(heap)@.push(Some(Record { payload: t, count: 1 })),
    {
        let ptr: usize = heap.slots.len();
        heap.slots.push(Some(ArcData { data: t, count: Counter::new(1) }));
        assert(heap@ =~= old(heap)@.push(Some(Record { payload: t, count: 1 })));
        Arc { ptr, marker: core::marker::PhantomData }
    }

    /// The place of the handle's record in the heap.
    pub fn ptr(&self) -> (p: usize)
        ensures
            p == self@,
    {
        self.ptr
    }

    /// A mutable view of the payload, if this is the only handle.
    pub fn get_mut<'a>(&mut self, heap: &'a mut Heap<T>) -> (r: Option<&'a mut T>)
        requires
            old(heap).wf(),
            old(heap).has_handle(old(self)@),
        ensures
            final(self)@ == old(self)@,
            r is Some <==> old(heap).record(old(self)@).count == 1,
            r is None ==> final(heap)@ == old(heap)@,
            r matches Some(t) ==> old(heap).record(old(self)@).payload == *t && final(heap)@
                == old(heap)@.update(
                old(self)@ as int,
                Some(Record { payload: *final(t), ..old(heap).record(old(self)@) }),
            ),
            final(heap).wf(),
    {
        let rec = heap.record_mut(self.ptr);
        let single: bool = rec.count.load() == 1;
        assert(heap@ =~= old(heap)@);
        if !single {
            return None;
        }
        let rec = heap.record_mut(self.ptr);
        let ghost count = rec.count;
        let r = &mut rec.data;
        proof {
            lemma_records_update(
                old(heap).slots@,
                self.ptr as int,
                ArcData { data: *final(r), count },
            );
            let after = old(heap)@.update(
                self.ptr as int,
                Some(Record { payload: *final(r), ..old(heap).record(self.ptr) }),
            );
            assert forall|q: int| 0 <= q < after.len() implies (#[trigger] after[q] matches Some(
                rec,
            ) ==> rec.inv()) by {
                if q != self.ptr as int {
                    assert(after[q] == old(heap)@[q]);
                }
            }
        }
        Some(r)
    }

    /// A further handle to the same record.
    pub fn clone(&self, heap: &mut Heap<T>) -> (arc: Arc<T>)
        requires
            old(heap).wf(),
            old(heap).has_handle(self@),
            old(heap).record(self@).count <= MAX_REFCOUNT,
        ensures
            final(heap).wf(),
            arc@ == self@,
            final(heap)@ == old(heap)@.update(
                self@ as int,
                Some(old(heap).record(self@).add_handle()),
            ),
    {
        let rec = heap.record_mut(self.ptr);
        let _ = rec.count.fetch_add(1);
        assert(heap@ =~= old(heap)@.update(
            self@ as int,
            Some(old(heap).record(self@).add_handle()),
        ));
        Arc { ptr: self.ptr, marker: core::marker::PhantomData }
    }

    /// Gives the handle up. The last handle releases the record, and the
    /// payload with it.
    pub fn drop(self, heap: &mut Heap<T>)
        requires
            old(heap).wf(),
            old(heap).has_handle(self@),
        ensures
            final(heap).wf(),
            final(heap)@ == old(heap)@.update(self@ as int, old(heap).record(self@).sub_handle()),
    {
        let rec = heap.record_mut(self.ptr);
        if rec.count.fetch_sub(1) == 1 {
            heap.slots[self.ptr] = None;
        }
        assert(heap@ =~= old(heap)@.update(self@ as int, old(heap).record(self@).sub_handle()));
    }

    /// A read-only view of the payload.
    pub fn deref<'a>(&self, heap: &'a Heap<T>) -> (t: &'a T)
        requires
            heap.wf(),
            heap.has_handle(self@),
        ensures
            heap.record(self@).payload == *t,
    {
        assert(heap@[self@ as int] is Some);
        match &heap.slots[self.ptr] {
            Some(rec) => &rec.data,
            None => vstd::pervasive::unreached(),
        }
    }
}

} // verus!
