use crate::atomics::{overflows, Counter, MAX_REFCOUNT};
use vstd::prelude::*;

verus! {

/// Value of the weak counter while an exclusive-access check holds the
/// right to downgrade. It is a flag, never a count of handles.
pub const LOCKED: usize = usize::MAX;

/// What one allocation record holds, as a mathematical value.
pub ghost struct Record<T> {
    /// The payload, until it is destroyed.
    pub payload: Option<T>,
    /// The strong counter.
    pub strong: int,
    /// The weak counter: one unit for each weak handle, and one more for
    /// all strong handles together while any of them exists.
    pub weak: int,
}

impl<T> Record<T> {
    /// The number of weak handles that the weak counter accounts for.
    pub open spec fn weak_handles(self) -> int {
        if self.strong >= 1 {
            self.weak - 1
        } else {
            self.weak
        }
    }

    /// What holds of every record between two operations.
    pub open spec fn inv(self) -> bool {
        &&& self.payload is Some <==> self.strong >= 1
        &&& 0 <= self.strong <= MAX_REFCOUNT + 1
        &&& 1 <= self.weak <= MAX_REFCOUNT + 1
        &&& self.weak_handles() >= 0
    }

    /// The record after one more strong handle was made.
    pub open spec fn add_strong(self) -> Record<T> {
        Record { strong: self.strong + 1, ..self }
    }

    /// The record after one more weak handle was made.
    pub open spec fn add_weak(self) -> Record<T> {
        Record { weak: self.weak + 1, ..self }
    }

    /// What is left after one weak unit was given up: nothing, if it was the
    /// last one.
    pub open spec fn sub_weak(self) -> Option<Record<T>> {
        if self.weak == 1 {
            None
        } else {
            Some(Record { weak: self.weak - 1, ..self })
        }
    }

    /// What is left after one strong handle was dropped. The last one takes
    /// the payload with it, and the weak unit of the strong handles.
    pub open spec fn sub_strong(self) -> Option<Record<T>> {
        if self.strong == 1 {
            Record { payload: None, strong: 0, weak: self.weak }.sub_weak()
        } else {
            Some(Record { strong: self.strong - 1, ..self })
        }
    }

    /// One strong handle and no weak handle exist.
    pub open spec fn unique(self) -> bool {
        self.strong == 1 && self.weak == 1
    }
}

/// What a handle does after it has read a counter that it wants to raise.
#[derive(Clone, Copy, Debug, PartialEq, Eq, Structural)]
pub enum Step {
    /// The counter holds the lock flag: read it again.
    Spin,
    /// The counter is 0: there is nothing left to take a handle to.
    Gone,
    /// The counter is past the limit: the process must stop.
    Abort,
    /// Try to replace the value that was read by this one.
    Exchange(usize),
}

/// The next step of a downgrade that read `observed` in the weak counter.
pub fn downgrade_step(observed: usize) -> (step: Step)
    ensures
        step == if observed == LOCKED {
            Step::Spin
        } else if observed > MAX_REFCOUNT {
            Step::Abort
        } else {
            Step::Exchange((observed + 1) as usize)
        },
{
    if observed == LOCKED {
        Step::Spin
    } else if overflows(observed) {
        Step::Abort
    } else {
        Step::Exchange(observed + 1)
    }
}

/// The next step of an upgrade that read `observed` in the strong counter.
pub fn upgrade_step(observed: usize) -> (step: Step)
    ensures
        step == if observed == 0 {
            Step::Gone
        } else if observed > MAX_REFCOUNT {
            Step::Abort
        } else {
            Step::Exchange((observed + 1) as usize)
        },
{
    if observed == 0 {
        Step::Gone
    } else if overflows(observed) {
        Step::Abort
    } else {
        Step::Exchange(observed + 1)
    }
}

/// An allocation record: the payload and the two counters.
pub struct ArcData<T> {
    data: Option<T>,
    strong_count: Counter,
    weak_count: Counter,
}

impl<T> View for ArcData<T> {
    type V = Record<T>;

    closed spec fn view(&self) -> Record<T> {
        Record { payload: self.data, strong: self.strong_count@ as int, weak: self.weak_count@ as int }
    }
}

/// The memory in which allocation records live. A handle names its record
/// by the record's place here; a place is never given out twice, so that a
/// handle to a released record can never be taken for a handle to a later
/// one. Every operation of a handle is handed the heap and runs to its end
/// before the next one starts; what holds when threads take the steps of
/// their operations in turn is stated of the steps themselves.
pub struct Heap<T> {
    slots: Vec<Option<ArcData<T>>>,
}

impl<T> View for Heap<T> {
    type V = Seq<Option<Record<T>>>;

    closed spec fn view(&self) -> Seq<Option<Record<T>>> {
        records(self.slots@)
    }
}

/// The records that a sequence of slots holds.
spec fn records<T>(slots: Seq<Option<ArcData<T>>>) -> Seq<Option<Record<T>>> {
    Seq::new(
        slots.len(),
        |p: int|
            match slots[p] {
                Some(d) => Some(d@),
                None => None,
            },
    )
}

/// Writing a record into one slot changes that slot's record and no other.
proof fn lemma_records_update<T>(slots: Seq<Option<ArcData<T>>>, p: int, d: ArcData<T>)
    requires
        0 <= p < slots.len(),
    ensures
        records(slots.update(p, Some(d))) == records(slots).update(p, Some(d@)),
{
    assert(records(slots.update(p, Some(d))) =~= records(slots).update(p, Some(d@)));
}

impl<T> Heap<T> {
    /// Every record that is still allocated meets the record invariant.
    pub open spec fn wf(&self) -> bool {
        forall|p: int|
            0 <= p < self@.len() ==> (#[trigger] self@[p] matches Some(r) ==> r.inv())
    }

    /// The record at `p` is allocated and at least one strong handle to it
    /// exists.
    pub open spec fn has_strong(&self, p: usize) -> bool {
        &&& p < self@.len()
        &&& self@[p as int] matches Some(r) && r.strong >= 1
    }

    /// The record at `p` is allocated and at least one weak handle to it
    /// exists.
    pub open spec fn has_weak(&self, p: usize) -> bool {
        &&& p < self@.len()
        &&& self@[p as int] matches Some(r) && r.weak_handles() >= 1
    }

    /// The record at `p`; meant for a place that is allocated.
    pub open spec fn record(&self, p: usize) -> Record<T> {
        self@[p as int].unwrap()
    }

    /// A heap without records.
    pub fn new() -> (heap: Heap<T>)
        ensures
            heap@ == Seq::<Option<Record<T>>>::empty(),
            heap.wf(),
    {
        let heap = Heap { slots: Vec::new() };
        assert(heap@ =~= Seq::<Option<Record<T>>>::empty());
        heap
    }

    /// The number of places given out so far.
    pub fn len(&self) -> (n: usize)
        ensures
            n == self@.len(),
    {
        self.slots.len()
    }

    /// Whether the record at `p` is still allocated.
    pub fn is_allocated(&self, p: usize) -> (b: bool)
        ensures
            b == (p < self@.len() && self@[p as int] is Some),
    {
        p < self.slots.len() && self.slots[p].is_some()
    }

    /// The strong and the weak counter of the record at `p`, if it is still
    /// allocated.
    pub fn counts(&self, p: usize) -> (c: Option<(usize, usize)>)
        ensures
            c is Some <==> p < self@.len() && self@[p as int] is Some,
            c matches Some((strong, weak)) ==> strong == self.record(p).strong && weak
                == self.record(p).weak,
    {
        if p < self.slots.len() {
            match &self.slots[p] {
                Some(rec) => Some((rec.strong_count.load(), rec.weak_count.load())),
                None => None,
            }
        } else {
            None
        }
    }

    fn record_mut(&mut self, p: usize) -> (r: &mut ArcData<T>)
        requires
            p < old(self).slots@.len(),
            old(self).slots@[p as int] is Some,
        ensures
            *r == old(self).slots@[p as int].unwrap(),
            final(self).slots@ == old(self).slots@.update(p as int, Some(*final(r))),
    {
        match &mut self.slots[p] {
            Some(r) => r,
            None => vstd::pervasive::unreached(),
        }
    }
}

/// An owning handle: the payload lives as long as one of these exists.
pub struct Arc<T> {
    ptr: usize,
    marker: core::marker::PhantomData<T>,
}

/// A handle that does not own: the payload may be gone when it is used.
pub struct Weak<T> {
    ptr: usize,
    marker: core::marker::PhantomData<T>,
}

impl<T> View for Arc<T> {
    type V = usize;

    /// The place of the handle's record.
    closed spec fn view(&self) -> usize {
        self.ptr
    }
}

impl<T> View for Weak<T> {
    type V = usize;

    /// The place of the handle's record.
    closed spec fn view(&self) -> usize {
        self.ptr
    }
}

impl<T> Arc<T> {
    /// Allocates a record for `t`, with both counters at 1, and returns the
    /// first strong handle to it.
    pub fn new(heap: &mut Heap<T>, t: T) -> (arc: Arc<T>)
        requires
            old(heap).wf(),
        ensures
            final(heap).wf(),
            arc@ == old(heap)@.len(),
            final(heap)@ == old(heap)@.push(Some(Record { payload: Some(t), strong: 1, weak: 1 })),
    {
        let ptr: usize = heap.slots.len();
        heap.slots.push(
            Some(ArcData { data: Some(t), strong_count: Counter::new(1), weak_count: Counter::new(1) }),
        );
        assert(heap@ =~= old(heap)@.push(Some(Record { payload: Some(t), strong: 1, weak: 1 })));
        Arc { ptr, marker: core::marker::PhantomData }
    }

    /// The place of the handle's record in the heap.
    pub fn ptr(&self) -> (p: usize)
        ensures
            p == self@,
    {
        self.ptr
    }

    /// A further strong handle to the same record.
    pub fn clone(&self, heap: &mut Heap<T>) -> (arc: Arc<T>)
        requires
            old(heap).wf(),
            old(heap).has_strong(self@),
            old(heap).record(self@).strong <= MAX_REFCOUNT,
        ensures
            final(heap).wf(),
            arc@ == self@,
            final(heap)@ == old(heap)@.update(
                self@ as int,
                Some(old(heap).record(self@).add_strong()),
            ),
    {
        let rec = heap.record_mut(self.ptr);
        let prev: usize = rec.strong_count.fetch_add(1);
        assert(!(prev > MAX_REFCOUNT));
        assert(heap@ =~= old(heap)@.update(
            self@ as int,
            Some(old(heap).record(self@).add_strong()),
        ));
        Arc { ptr: self.ptr, marker: core::marker::PhantomData }
    }

    /// A read-only view of the payload.
    pub fn deref<'a>(&self, heap: &'a Heap<T>) -> (t: &'a T)
        requires
            heap.wf(),
            heap.has_strong(self@),
        ensures
            heap.record(self@).payload == Some(*t),
    {
        assert(heap@[self@ as int] is Some);
        match &heap.slots[self.ptr] {
            Some(rec) => match &rec.data {
                Some(t) => t,
                None => vstd::pervasive::unreached(),
            },
            None => vstd::pervasive::unreached(),
        }
    }

    /// Gives the handle up. The last strong handle destroys the payload and
    /// gives up the weak unit that stood for all strong handles; if that was
    /// the last weak unit, the record is released.
    pub fn drop(self, heap: &mut Heap<T>)
        requires
            old(heap).wf(),
            old(heap).has_strong(self@),
        ensures
            final(heap).wf(),
            final(heap)@ == old(heap)@.update(self@ as int, old(heap).record(self@).sub_strong()),
    {
        let rec = heap.record_mut(self.ptr);
        if rec.strong_count.fetch_sub(1) == 1 {
            rec.data = None;
            if rec.weak_count.fetch_sub(1) == 1 {
                heap.slots[self.ptr] = None;
            }
        }
        assert(heap@ =~= old(heap)@.update(
            self@ as int,
            old(heap).record(self@).sub_strong(),
        ));
    }

    /// A mutable view of the payload, if this is the only handle of either
    /// kind. The weak counter is locked while the strong counter is read, so
    /// that no downgrade can slip in between the two checks.
    pub fn get_mut<'a>(&mut self, heap: &'a mut Heap<T>) -> (r: Option<&'a mut T>)
        requires
            old(heap).wf(),
            old(heap).has_strong(old(self)@),
        ensures
            final(self)@ == old(self)@,
            r is Some <==> old(heap).record(old(self)@).unique(),
            r is None ==> final(heap)@ == old(heap)@,
            r matches Some(t) ==> old(heap).record(old(self)@).payload == Some(*t) && final(heap)@
                == old(heap)@.update(
                old(self)@ as int,
                Some(Record { payload: Some(*final(t)), ..old(heap).record(old(self)@) }),
            ),
            final(heap).wf(),
    {
        let rec = heap.record_mut(self.ptr);
        let mut single: bool = false;
        if rec.weak_count.compare_exchange(1, LOCKED).is_ok() {
            single = rec.strong_count.load() == 1;
            rec.weak_count.store(1);
        }
        assert(heap@ =~= old(heap)@);
        if !single {
            return None;
        }
        let rec = heap.record_mut(self.ptr);
        let ghost strong_count = rec.strong_count;
        let ghost weak_count = rec.weak_count;
        let r = rec.data.as_mut();
        proof {
            lemma_records_update(
                old(heap).slots@,
                self.ptr as int,
                ArcData { data: Some(*final(r.unwrap())), strong_count, weak_count },
            );
            let after = old(heap)@.update(
                self.ptr as int,
                Some(Record { payload: Some(*final(r.unwrap())), ..old(heap).record(self.ptr) }),
            );
            assert forall|q: int| 0 <= q < after.len() implies (#[trigger] after[q] matches Some(
                rec,
            ) ==> rec.inv()) by {
                if q != self.ptr as int {
                    assert(after[q] == old(heap)@[q]);
                }
            }
        }
        r
    }

    /// A new weak handle to the record of `arc`.
    pub fn downgrade(arc: &Self, heap: &mut Heap<T>) -> (weak: Weak<T>)
        requires
            old(heap).wf(),
            old(heap).has_strong(arc@),
            old(heap).record(arc@).weak <= MAX_REFCOUNT,
        ensures
            final(heap).wf(),
            weak@ == arc@,
            final(heap)@ == old(heap)@.update(arc@ as int, Some(old(heap).record(arc@).add_weak())),
    {
        let rec = heap.record_mut(arc.ptr);
        let observed: usize = rec.weak_count.load();
        match downgrade_step(observed) {
            Step::Exchange(new) => {
                let _ = rec.weak_count.compare_exchange(observed, new);
            },
            _ => {
                assert(false);
            },
        }
        assert(heap@ =~= old(heap)@.update(arc@ as int, Some(old(heap).record(arc@).add_weak())));
        Weak { ptr: arc.ptr, marker: core::marker::PhantomData }
    }
}

impl<T> Weak<T> {
    /// The place of the handle's record in the heap.
    pub fn ptr(&self) -> (p: usize)
        ensures
            p == self@,
    {
        self.ptr
    }

    /// A strong handle to the record, unless no strong handle is left.
    pub fn upgrade(&self, heap: &mut Heap<T>) -> (r: Option<Arc<T>>)
        requires
            old(heap).wf(),
            old(heap).has_weak(self@),
            old(heap).record(self@).strong <= MAX_REFCOUNT,
        ensures
            final(heap).wf(),
            r is Some <==> old(heap).record(self@).strong >= 1,
            r is None ==> final(heap)@ == old(heap)@,
            r matches Some(arc) ==> arc@ == self@ && final(heap)@ == old(heap)@.update(
                self@ as int,
                Some(old(heap).record(self@).add_strong()),
            ),
    {
        let rec = heap.record_mut(self.ptr);
        let observed: usize = rec.strong_count.load();
        match upgrade_step(observed) {
            Step::Gone => {
                assert(heap@ =~= old(heap)@);
                None
            },
            Step::Exchange(new) => {
                let _ = rec.strong_count.compare_exchange(observed, new);
                assert(heap@ =~= old(heap)@.update(
                    self@ as int,
                    Some(old(heap).record(self@).add_strong()),
                ));
                Some(Arc { ptr: self.ptr, marker: core::marker::PhantomData })
            },
            _ => {
                assert(false);
                None
            },
        }
    }

    /// A further weak handle to the same record.
    pub fn clone(&self, heap: &mut Heap<T>) -> (weak: Weak<T>)
        requires
            old(heap).wf(),
            old(heap).has_weak(self@),
            old(heap).record(self@).weak <= MAX_REFCOUNT,
        ensures
            final(heap).wf(),
            weak@ == self@,
            final(heap)@ == old(heap)@.update(
                self@ as int,
                Some(old(heap).record(self@).add_weak()),
            ),
    {
        let rec = heap.record_mut(self.ptr);
        let prev: usize = rec.weak_count.fetch_add(1);
        assert(!(prev > MAX_REFCOUNT));
        assert(heap@ =~= old(heap)@.update(
            self@ as int,
            Some(old(heap).record(self@).add_weak()),
        ));
        Weak { ptr: self.ptr, marker: core::marker::PhantomData }
    }

    /// Gives the handle up. The last weak unit releases the record.
    pub fn drop(self, heap: &mut Heap<T>)
        requires
            old(heap).wf(),
            old(heap).has_weak(self@),
        ensures
            final(heap).wf(),
            final(heap)@ == old(heap)@.update(self@ as int, old(heap).record(self@).sub_weak()),
    {
        let rec = heap.record_mut(self.ptr);
        if rec.weak_count.fetch_sub(1) == 1 {
            heap.slots[self.ptr] = None;
        }
        assert(heap@ =~= old(heap)@.update(self@ as int, old(heap).record(self@).sub_weak()));
    }
}

} // verus!
