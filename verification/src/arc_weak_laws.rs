use crate::arc_weak::Record;
use crate::atomics::MAX_REFCOUNT;
use vstd::prelude::*;

verus! {

/// One operation of a handle on its record.
pub enum Op<T> {
    /// A strong handle is cloned.
    CloneStrong,
    /// A strong handle is dropped.
    DropStrong,
    /// A strong handle is downgraded.
    Downgrade,
    /// A strong handle asks for exclusive access and, if it is granted,
    /// overwrites the payload.
    GetMut(T),
    /// A weak handle is upgraded.
    Upgrade,
    /// A weak handle is cloned.
    CloneWeak,
    /// A weak handle is dropped.
    DropWeak,
}

/// A record together with the handles that exist to it and with what has
/// happened to it so far.
pub ghost struct Lifecycle<T> {
    /// The record, until it is released.
    pub record: Option<Record<T>>,
    /// The number of strong handles that exist.
    pub strong_handles: int,
    /// The number of weak handles that exist.
    pub weak_handles: int,
    /// How often the payload was destroyed.
    pub destroyed: int,
    /// How often the record was released.
    pub released: int,
}

impl<T> Lifecycle<T> {
    /// The state right after the first strong handle was made.
    pub open spec fn fresh(t: T) -> Lifecycle<T> {
        Lifecycle {
            record: Some(Record { payload: Some(t), strong: 1, weak: 1 }),
            strong_handles: 1,
            weak_handles: 0,
            destroyed: 0,
            released: 0,
        }
    }

    /// The counters agree with the handles that exist, the payload lives
    /// exactly as long as a strong handle, and the record exactly as long as
    /// any handle.
    pub open spec fn inv(self) -> bool {
        &&& self.strong_handles >= 0
        &&& self.weak_handles >= 0
        &&& self.record is Some <==> self.strong_handles + self.weak_handles >= 1
        &&& self.record matches Some(r) ==> {
            &&& r.inv()
            &&& r.strong == self.strong_handles
            &&& r.weak_handles() == self.weak_handles
        }
        &&& self.destroyed == if self.strong_handles == 0 {
            1int
        } else {
            0int
        }
        &&& self.released == if self.record is None {
            1int
        } else {
            0int
        }
    }

    /// A handle exists that can perform `op`, and the counter that `op`
    /// raises is not past the limit.
    pub open spec fn enabled(self, op: Op<T>) -> bool {
        match op {
            Op::CloneStrong => 1 <= self.strong_handles <= MAX_REFCOUNT,
            Op::DropStrong => 1 <= self.strong_handles,
            Op::Downgrade => 1 <= self.strong_handles && self.weak_handles < MAX_REFCOUNT,
            Op::GetMut(_) => 1 <= self.strong_handles,
            Op::Upgrade => 1 <= self.weak_handles && self.strong_handles <= MAX_REFCOUNT,
            Op::CloneWeak => 1 <= self.weak_handles && self.weak_handles + (if self.strong_handles
                >= 1 {
                1int
            } else {
                0int
            }) <= MAX_REFCOUNT,
            Op::DropWeak => 1 <= self.weak_handles,
        }
    }

    /// Whether an upgrade in this state gives a strong handle.
    pub open spec fn upgrade_succeeds(self) -> bool {
        self.record matches Some(r) && r.strong >= 1
    }

    /// Whether a request for exclusive access is granted in this state.
    pub open spec fn get_mut_succeeds(self) -> bool {
        self.record matches Some(r) && r.unique()
    }

    /// The state after `op`, by the transitions of the record.
    pub open spec fn next(self, op: Op<T>) -> Lifecycle<T> {
        match self.record {
            None => self,
            Some(r) => match op {
                Op::CloneStrong => Lifecycle {
                    record: Some(r.add_strong()),
                    strong_handles: self.strong_handles + 1,
                    ..self
                },
                Op::DropStrong => Lifecycle {
                    record: r.sub_strong(),
                    strong_handles: self.strong_handles - 1,
                    destroyed: self.destroyed + if r.strong == 1 {
                        1int
                    } else {
                        0int
                    },
                    released: self.released + if r.sub_strong() is None {
                        1int
                    } else {
                        0int
                    },
                    ..self
                },
                Op::Downgrade => Lifecycle {
                    record: Some(r.add_weak()),
                    weak_handles: self.weak_handles + 1,
                    ..self
                },
                Op::GetMut(t) => if r.unique() {
                    Lifecycle { record: Some(Record { payload: Some(t), ..r }), ..self }
                } else {
                    self
                },
                Op::Upgrade => if r.strong >= 1 {
                    Lifecycle {
                        record: Some(r.add_strong()),
                        strong_handles: self.strong_handles + 1,
                        ..self
                    }
                } else {
                    self
                },
                Op::CloneWeak => Lifecycle {
                    record: Some(r.add_weak()),
                    weak_handles: self.weak_handles + 1,
                    ..self
                },
                Op::DropWeak => Lifecycle {
                    record: r.sub_weak(),
                    weak_handles: self.weak_handles - 1,
                    released: self.released + if r.sub_weak() is None {
                        1int
                    } else {
                        0int
                    },
                    ..self
                },
            },
        }
    }

    /// Each operation of `ops` is enabled when its turn comes.
    pub open spec fn admits(self, ops: Seq<Op<T>>) -> bool
        decreases ops.len(),
    {
        ops.len() == 0 || (self.enabled(ops[0]) && self.next(ops[0]).admits(ops.skip(1)))
    }

    /// The state after the operations of `ops`, one after the other.
    pub open spec fn run(self, ops: Seq<Op<T>>) -> Lifecycle<T>
        decreases ops.len(),
    {
        if ops.len() == 0 {
            self
        } else {
            self.next(ops[0]).run(ops.skip(1))
        }
    }
}

/// A handle that exists is valid: its record is still allocated and the
/// counter of its kind is at least 1 and not past the limit where the
/// operation raises it.
pub proof fn lemma_enabled_is_valid<T>(s: Lifecycle<T>, op: Op<T>)
    requires
        s.inv(),
        s.enabled(op),
    ensures
        s.record is Some,
        match op {
            Op::CloneStrong => 1 <= s.record.unwrap().strong <= MAX_REFCOUNT,
            Op::DropStrong => 1 <= s.record.unwrap().strong,
            Op::Downgrade => 1 <= s.record.unwrap().strong && s.record.unwrap().weak
                <= MAX_REFCOUNT,
            Op::GetMut(_) => 1 <= s.record.unwrap().strong,
            Op::Upgrade => 1 <= s.record.unwrap().weak_handles() && s.record.unwrap().strong
                <= MAX_REFCOUNT,
            Op::CloneWeak => 1 <= s.record.unwrap().weak_handles() && s.record.unwrap().weak
                <= MAX_REFCOUNT,
            Op::DropWeak => 1 <= s.record.unwrap().weak_handles(),
        },
{
}

/// No operation of a handle that exists breaks the invariant.
pub proof fn lemma_next_keeps_inv<T>(s: Lifecycle<T>, op: Op<T>)
    requires
        s.inv(),
        s.enabled(op),
    ensures
        s.next(op).inv(),
{
}

/// No sequence of operations, each by a handle that exists at its turn,
/// breaks the invariant.
pub proof fn lemma_run_keeps_inv<T>(s: Lifecycle<T>, ops: Seq<Op<T>>)
    requires
        s.inv(),
        s.admits(ops),
    ensures
        s.run(ops).inv(),
    decreases ops.len(),
{
    if ops.len() > 0 {
        lemma_next_keeps_inv(s, ops[0]);
        lemma_run_keeps_inv(s.next(ops[0]), ops.skip(1));
    }
}

/// The invariant holds after every prefix of an admitted sequence.
pub proof fn lemma_prefix_keeps_inv<T>(s: Lifecycle<T>, ops: Seq<Op<T>>, k: int)
    requires
        s.inv(),
        s.admits(ops),
        0 <= k <= ops.len(),
    ensures
        s.run(ops.take(k)).inv(),
    decreases k,
{
    if k > 0 {
        lemma_next_keeps_inv(s, ops[0]);
        lemma_prefix_keeps_inv(s.next(ops[0]), ops.skip(1), k - 1);
        assert(ops.take(k)[0] == ops[0]);
        assert(ops.take(k).skip(1) =~= ops.skip(1).take(k - 1));
    }
}

/// The payload is destroyed exactly once, by the drop of the last strong
/// handle: at every moment it has been destroyed once if no strong handle is
/// left, and never, and is still there, if one is.
pub proof fn lemma_payload_destroyed_once<T>(s: Lifecycle<T>, ops: Seq<Op<T>>, k: int)
    requires
        s.inv(),
        s.admits(ops),
        0 <= k <= ops.len(),
    ensures
        s.run(ops.take(k)).strong_handles == 0 ==> s.run(ops.take(k)).destroyed == 1,
        s.run(ops.take(k)).strong_handles >= 1 ==> {
            &&& s.run(ops.take(k)).destroyed == 0
            &&& s.run(ops.take(k)).record matches Some(r) && r.payload is Some
        },
{
    lemma_prefix_keeps_inv(s, ops, k);
}

/// The record is released exactly once, by the drop of the last handle of
/// either kind, and not before the payload was destroyed.
pub proof fn lemma_record_released_once<T>(s: Lifecycle<T>, ops: Seq<Op<T>>, k: int)
    requires
        s.inv(),
        s.admits(ops),
        0 <= k <= ops.len(),
    ensures
        s.run(ops.take(k)).strong_handles + s.run(ops.take(k)).weak_handles == 0 ==> s.run(
            ops.take(k),
        ).released == 1,
        s.run(ops.take(k)).strong_handles + s.run(ops.take(k)).weak_handles >= 1 ==> s.run(
            ops.take(k),
        ).released == 0,
        s.run(ops.take(k)).released == 1 ==> s.run(ops.take(k)).destroyed == 1,
{
    lemma_prefix_keeps_inv(s, ops, k);
}

/// Once the payload is destroyed no operation brings a strong handle back:
/// every upgrade from then on fails.
pub proof fn lemma_no_upgrade_after_destruction<T>(s: Lifecycle<T>, ops: Seq<Op<T>>)
    requires
        s.inv(),
        s.destroyed >= 1,
        s.admits(ops),
    ensures
        s.run(ops).strong_handles == 0,
        s.run(ops).destroyed == 1,
        !s.run(ops).upgrade_succeeds(),
    decreases ops.len(),
{
    if ops.len() > 0 {
        lemma_next_keeps_inv(s, ops[0]);
        lemma_no_upgrade_after_destruction(s.next(ops[0]), ops.skip(1));
    }
}

/// Exclusive access is granted if and only if one strong handle and no weak
/// handle exist.
pub proof fn lemma_get_mut_iff_sole_handle<T>(s: Lifecycle<T>)
    requires
        s.inv(),
        s.strong_handles >= 1,
    ensures
        s.get_mut_succeeds() <==> s.strong_handles == 1 && s.weak_handles == 0,
{
}

} // verus!
