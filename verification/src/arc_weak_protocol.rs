use crate::arc_weak::{Record, LOCKED};
use crate::atomics::MAX_REFCOUNT;
use vstd::prelude::*;

verus! {

/// One indivisible step of a thread on a record that many threads share.
/// An operation of a handle is one such step or a few of them, and the steps
/// of different threads come in any order.
pub enum Action {
    /// A strong handle at rest is cloned: the strong counter is raised.
    CloneStrong,
    /// A strong handle at rest is dropped: the strong counter is lowered.
    /// The thread that lowers it to 0 goes on to destroy the payload.
    DropStrong,
    /// The thread that dropped the last strong handle destroys the payload.
    Destroy,
    /// That thread gives up the weak unit that stood for the strong handles.
    GiveUpUnit,
    /// The thread that lowered the weak counter to 0 releases the record.
    Release,
    /// A strong handle at rest is downgraded: the weak counter, read as a
    /// value that is not the lock flag, is replaced by the next.
    Downgrade,
    /// A weak handle at rest is upgraded: the strong counter, read as a
    /// value that is not 0, is replaced by the next. At 0 nothing happens.
    Upgrade,
    /// A weak handle at rest is cloned: the weak counter is raised.
    CloneWeak,
    /// A weak handle at rest is dropped: the weak counter is lowered. The
    /// thread that lowers it to 0 goes on to release the record.
    DropWeak,
    /// A strong handle at rest asks for exclusive access: a weak counter of
    /// 1 is replaced by the lock flag. At another value nothing happens.
    Lock,
    /// The thread that holds the lock reads the strong counter.
    Check,
    /// The thread that has read the strong counter puts the weak counter
    /// back to 1. If it read 1, it has exclusive access from now on.
    Unlock,
    /// The thread that has exclusive access gives it back.
    Finish,
}

/// The shared record and what each handle's thread is doing.
pub ghost struct Protocol {
    /// The strong counter.
    pub strong: int,
    /// The weak counter; `LOCKED` while the lock flag is set.
    pub weak: int,
    /// The payload has not been destroyed.
    pub payload: bool,
    /// The record has not been released.
    pub allocated: bool,
    /// How often the payload was destroyed.
    pub destroyed: int,
    /// How often the record was released.
    pub released: int,
    /// Strong handles at rest.
    pub strong_idle: int,
    /// Strong handles whose thread holds the lock and has not read the
    /// strong counter yet.
    pub locking: int,
    /// Strong handles whose thread holds the lock and has read 1.
    pub found_single: int,
    /// Strong handles whose thread holds the lock and has read another
    /// value.
    pub found_shared: int,
    /// Strong handles whose thread has exclusive access to the payload.
    pub mutating: int,
    /// Threads that lowered the strong counter to 0 and have not destroyed
    /// the payload yet.
    pub destroying: int,
    /// Threads that destroyed the payload and still hold the weak unit of
    /// the strong handles.
    pub holding_unit: int,
    /// Threads that lowered the weak counter to 0 and have not released the
    /// record yet.
    pub releasing: int,
    /// Weak handles at rest.
    pub weak_idle: int,
}

impl Protocol {
    /// The state right after the first strong handle was made.
    pub open spec fn fresh() -> Protocol {
        Protocol {
            strong: 1,
            weak: 1,
            payload: true,
            allocated: true,
            destroyed: 0,
            released: 0,
            strong_idle: 1,
            locking: 0,
            found_single: 0,
            found_shared: 0,
            mutating: 0,
            destroying: 0,
            holding_unit: 0,
            releasing: 0,
            weak_idle: 0,
        }
    }

    /// The threads that hold the lock.
    pub open spec fn lockers(self) -> int {
        self.locking + self.found_single + self.found_shared
    }

    /// The strong handles that exist.
    pub open spec fn strong_handles(self) -> int {
        self.strong_idle + self.lockers() + self.mutating
    }

    /// The threads that are on the way from the last strong drop to the
    /// release of the weak unit.
    pub open spec fn finishers(self) -> int {
        self.destroying + self.holding_unit
    }

    /// Whether a thread can take the step now.
    pub open spec fn enabled(self, a: Action) -> bool {
        match a {
            Action::CloneStrong => self.strong_idle >= 1 && self.strong <= MAX_REFCOUNT,
            Action::DropStrong => self.strong_idle >= 1,
            Action::Destroy => self.destroying >= 1,
            Action::GiveUpUnit => self.holding_unit >= 1,
            Action::Release => self.releasing >= 1,
            Action::Downgrade => self.strong_idle >= 1 && self.weak != LOCKED && self.weak
                <= MAX_REFCOUNT,
            Action::Upgrade => self.weak_idle >= 1 && self.strong <= MAX_REFCOUNT,
            Action::CloneWeak => self.weak_idle >= 1 && self.weak <= MAX_REFCOUNT,
            Action::DropWeak => self.weak_idle >= 1,
            Action::Lock => self.strong_idle >= 1,
            Action::Check => self.locking >= 1,
            Action::Unlock => self.found_single + self.found_shared >= 1,
            Action::Finish => self.mutating >= 1,
        }
    }

    /// The state after the step.
    pub open spec fn next(self, a: Action) -> Protocol {
        match a {
            Action::CloneStrong => Protocol {
                strong: self.strong + 1,
                strong_idle: self.strong_idle + 1,
                ..self
            },
            Action::DropStrong => Protocol {
                strong: self.strong - 1,
                strong_idle: self.strong_idle - 1,
                destroying: self.destroying + if self.strong == 1 {
                    1int
                } else {
                    0int
                },
                ..self
            },
            Action::Destroy => Protocol {
                payload: false,
                destroyed: self.destroyed + 1,
                destroying: self.destroying - 1,
                holding_unit: self.holding_unit + 1,
                ..self
            },
            Action::GiveUpUnit => Protocol {
                weak: self.weak - 1,
                holding_unit: self.holding_unit - 1,
                releasing: self.releasing + if self.weak == 1 {
                    1int
                } else {
                    0int
                },
                ..self
            },
            Action::Release => Protocol {
                allocated: false,
                released: self.released + 1,
                releasing: self.releasing - 1,
                ..self
            },
            Action::Downgrade => Protocol {
                weak: self.weak + 1,
                weak_idle: self.weak_idle + 1,
                ..self
            },
            Action::Upgrade => if self.strong == 0 {
                self
            } else {
                Protocol { strong: self.strong + 1, strong_idle: self.strong_idle + 1, ..self }
            },
            Action::CloneWeak => Protocol {
                weak: self.weak + 1,
                weak_idle: self.weak_idle + 1,
                ..self
            },
            Action::DropWeak => Protocol {
                weak: self.weak - 1,
                weak_idle: self.weak_idle - 1,
                releasing: self.releasing + if self.weak == 1 {
                    1int
                } else {
                    0int
                },
                ..self
            },
            Action::Lock => if self.weak == 1 {
                Protocol {
                    weak: LOCKED as int,
                    strong_idle: self.strong_idle - 1,
                    locking: self.locking + 1,
                    ..self
                }
            } else {
                self
            },
            Action::Check => if self.strong == 1 {
                Protocol {
                    locking: self.locking - 1,
                    found_single: self.found_single + 1,
                    ..self
                }
            } else {
                Protocol {
                    locking: self.locking - 1,
                    found_shared: self.found_shared + 1,
                    ..self
                }
            },
            Action::Unlock => if self.found_single >= 1 {
                Protocol {
                    weak: 1,
                    found_single: self.found_single - 1,
                    mutating: self.mutating + 1,
                    ..self
                }
            } else {
                Protocol {
                    weak: 1,
                    found_shared: self.found_shared - 1,
                    strong_idle: self.strong_idle + 1,
                    ..self
                }
            },
            Action::Finish => Protocol {
                mutating: self.mutating - 1,
                strong_idle: self.strong_idle + 1,
                ..self
            },
        }
    }

    /// What holds of every state that the steps can reach.
    pub open spec fn inv(self) -> bool {
        let unit: int = if self.strong_handles() >= 1 || self.finishers() >= 1 {
            1
        } else {
            0
        };
        let alive = self.strong_handles() + self.weak_idle + self.finishers() + self.releasing;
        &&& self.strong_idle >= 0
        &&& self.locking >= 0
        &&& self.found_single >= 0
        &&& self.found_shared >= 0
        &&& self.mutating >= 0
        &&& self.destroying >= 0
        &&& self.holding_unit >= 0
        &&& self.releasing >= 0
        &&& self.weak_idle >= 0
        &&& self.strong == self.strong_handles()
        &&& self.finishers() <= 1
        &&& self.finishers() >= 1 ==> self.strong_handles() == 0
        &&& self.lockers() <= 1
        &&& self.weak == LOCKED <==> self.lockers() == 1
        &&& self.lockers() == 0 ==> self.weak == self.weak_idle + unit && self.weak
            <= MAX_REFCOUNT + 1
        &&& self.lockers() == 1 ==> self.weak_idle == 0
        &&& self.found_single >= 1 ==> self.strong_handles() == 1
        &&& self.mutating >= 1 ==> self.strong_handles() == 1 && self.weak_idle == 0
        &&& self.releasing <= 1
        &&& self.releasing >= 1 ==> alive == 1
        &&& self.payload <==> self.strong_handles() >= 1 || self.destroying >= 1
        &&& self.destroyed == if self.payload {
            0int
        } else {
            1int
        }
        &&& self.allocated <==> alive >= 1
        &&& self.released == if self.allocated {
            0int
        } else {
            1int
        }
    }

    /// Each step of `actions` can be taken when its turn comes.
    pub open spec fn admits(self, actions: Seq<Action>) -> bool
        decreases actions.len(),
    {
        actions.len() == 0 || (self.enabled(actions[0]) && self.next(actions[0]).admits(
            actions.skip(1),
        ))
    }

    /// The state after the steps of `actions`, one after the other.
    pub open spec fn run(self, actions: Seq<Action>) -> Protocol
        decreases actions.len(),
    {
        if actions.len() == 0 {
            self
        } else {
            self.next(actions[0]).run(actions.skip(1))
        }
    }
}

/// The invariant holds when the first handle has been made.
pub proof fn lemma_fresh_inv()
    ensures
        Protocol::fresh().inv(),
{
}

/// No step breaks the invariant.
pub proof fn lemma_next_keeps_inv(s: Protocol, a: Action)
    requires
        s.inv(),
        s.enabled(a),
    ensures
        s.next(a).inv(),
{
}

/// The invariant holds after any steps, in whatever order the threads take
/// them.
pub proof fn lemma_run_keeps_inv(s: Protocol, actions: Seq<Action>)
    requires
        s.inv(),
        s.admits(actions),
    ensures
        s.run(actions).inv(),
    decreases actions.len(),
{
    if actions.len() > 0 {
        lemma_next_keeps_inv(s, actions[0]);
        lemma_run_keeps_inv(s.next(actions[0]), actions.skip(1));
    }
}

/// While a thread has exclusive access, its handle is the only handle of
/// either kind, the payload is there, and no thread can take a step on the
/// record but that thread, which gives the access back: nothing can read the
/// payload while it is changed, and no downgrade or upgrade can succeed.
pub proof fn lemma_exclusive_access(s: Protocol)
    requires
        s.inv(),
        s.mutating >= 1,
    ensures
        s.mutating == 1,
        s.strong_handles() == 1,
        s.weak_idle == 0,
        s.lockers() == 0,
        s.finishers() == 0,
        s.payload,
        s.allocated,
        forall|a: Action| #[trigger] s.enabled(a) ==> a == Action::Finish,
{
}

/// Exclusive access is granted if and only if one strong handle and no
/// weak handle exist at the instant at which the strong counter is read: the
/// lock is taken only where no weak handle exists; as no downgrade succeeds
/// while it is held, none exists when the strong counter is read; and the
/// thread that read 1 there is the one that gets the access.
pub proof fn lemma_grant_iff_sole_handle(s: Protocol)
    requires
        s.inv(),
    ensures
        s.enabled(Action::Lock) ==> (s.next(Action::Lock).lockers() == s.lockers() + 1 <==> s.lockers()
            == 0 && s.weak_idle == 0),
        s.enabled(Action::Check) ==> s.weak_idle == 0 && (s.next(Action::Check).found_single
            == 1 <==> s.strong_handles() == 1),
        s.enabled(Action::Unlock) ==> s.weak_idle == 0 && (s.next(Action::Unlock).mutating == 1
            <==> s.found_single == 1),
{
}

/// While the lock is held no weak handle exists and none can be made: a
/// downgrade finds the flag and has to read the counter again.
pub proof fn lemma_lock_excludes_weak_handles(s: Protocol)
    requires
        s.inv(),
        s.weak == LOCKED,
    ensures
        s.lockers() == 1,
        s.weak_idle == 0,
        s.payload,
        !s.enabled(Action::Downgrade),
        !s.enabled(Action::Upgrade),
        !s.enabled(Action::CloneWeak),
        !s.enabled(Action::DropWeak),
        !s.enabled(Action::GiveUpUnit),
{
}

/// A handle that exists can be used: the record is allocated while any
/// handle exists, and the payload is there while a strong handle exists.
pub proof fn lemma_no_use_after_free(s: Protocol)
    requires
        s.inv(),
    ensures
        s.strong_handles() + s.weak_idle >= 1 ==> s.allocated,
        s.strong_handles() >= 1 ==> s.payload,
        s.enabled(Action::Upgrade) && s.next(Action::Upgrade).strong_idle > s.strong_idle
            ==> s.payload,
{
}

/// The payload is destroyed at most once, and the record is released at
/// most once and not before the payload is destroyed. When every handle is
/// gone and every thread has finished, both have happened.
pub proof fn lemma_destroyed_and_released_once(s: Protocol)
    requires
        s.inv(),
    ensures
        0 <= s.destroyed <= 1,
        0 <= s.released <= 1,
        s.released == 1 ==> s.destroyed == 1,
        s.strong_handles() + s.weak_idle + s.finishers() + s.releasing == 0 ==> s.destroyed == 1
            && s.released == 1,
        s.strong_handles() >= 1 ==> s.destroyed == 0,
        s.strong_handles() + s.weak_idle >= 1 ==> s.released == 0,
{
}

/// Once the payload is destroyed no step brings a strong handle back,
/// whatever the threads do: every upgrade from then on finds 0.
pub proof fn lemma_destruction_is_final(s: Protocol, actions: Seq<Action>)
    requires
        s.inv(),
        !s.payload,
        s.admits(actions),
    ensures
        !s.run(actions).payload,
        s.run(actions).strong == 0,
        s.run(actions).strong_handles() == 0,
        s.run(actions).destroyed == 1,
    decreases actions.len(),
{
    if actions.len() > 0 {
        lemma_next_keeps_inv(s, actions[0]);
        lemma_destruction_is_final(s.next(actions[0]), actions.skip(1));
    }
}

impl Protocol {
    /// No thread is in the middle of an operation.
    pub open spec fn at_rest(self) -> bool {
        self.lockers() == 0 && self.mutating == 0 && self.finishers() == 0 && self.releasing == 0
    }

    /// The counters as a record with the payload `payload`.
    pub open spec fn record<T>(self, payload: Option<T>) -> Record<T> {
        Record { payload, strong: self.strong, weak: self.weak }
    }
}

/// Between operations the counters are those of a well-formed record whose
/// weak counter accounts for the weak handles at rest.
pub proof fn lemma_at_rest_is_a_record<T>(s: Protocol, payload: Option<T>)
    requires
        s.inv(),
        s.at_rest(),
        s.allocated,
        payload is Some <==> s.payload,
        s.strong <= MAX_REFCOUNT + 1,
    ensures
        s.record(payload).inv(),
        s.record(payload).strong == s.strong_idle,
        s.record(payload).weak_handles() == s.weak_idle,
{
}

/// The steps of a request for exclusive access, taken without a step of
/// another thread in between, end in exclusive access if and only if the
/// record is unique, and leave the counters as they were.
pub proof fn lemma_get_mut_alone<T>(s: Protocol, payload: Option<T>)
    requires
        s.inv(),
        s.at_rest(),
        s.strong_idle >= 1,
    ensures
        s.admits(seq![Action::Lock]),
        s.record(payload).weak == 1 ==> s.admits(seq![Action::Lock, Action::Check, Action::Unlock]),
        s.record(payload).weak != 1 ==> s.run(seq![Action::Lock]) == s,
        s.record(payload).weak == 1 ==> {
            let end = s.run(seq![Action::Lock, Action::Check, Action::Unlock]);
            &&& end.mutating == 1 <==> s.record(payload).unique()
            &&& end.strong == s.strong
            &&& end.weak == s.weak
            &&& end.strong_handles() == s.strong_handles()
        },
{
    let one = seq![Action::Lock];
    assert(one.skip(1) =~= Seq::<Action>::empty());
    assert(s.next(Action::Lock).admits(one.skip(1)));
    assert(s.run(one) == s.next(Action::Lock)) by {
        assert(s.next(Action::Lock).run(one.skip(1)) == s.next(Action::Lock));
    }
    if s.weak == 1 {
        let all = seq![Action::Lock, Action::Check, Action::Unlock];
        let s1 = s.next(Action::Lock);
        let s2 = s1.next(Action::Check);
        let s3 = s2.next(Action::Unlock);
        let rest1 = seq![Action::Check, Action::Unlock];
        let rest2 = seq![Action::Unlock];
        assert(all.skip(1) =~= rest1);
        assert(rest1.skip(1) =~= rest2);
        assert(rest2.skip(1) =~= Seq::<Action>::empty());
        lemma_next_keeps_inv(s, Action::Lock);
        lemma_next_keeps_inv(s1, Action::Check);
        assert(s3.admits(rest2.skip(1)));
        assert(s2.admits(rest2));
        assert(s1.admits(rest1));
        assert(s3.run(rest2.skip(1)) == s3);
        assert(s2.run(rest2) == s3);
        assert(s1.run(rest1) == s3);
        assert(s.run(all) == s3);
    }
}

/// The steps of the drop of a strong handle, taken without a step of
/// another thread in between, leave what the record's own account of the
/// drop says: the counter lowered or, after the last handle, the payload
/// destroyed, the weak unit given up and, if that was the last one, the
/// record released.
pub proof fn lemma_drop_strong_alone<T>(s: Protocol, payload: Option<T>)
    requires
        s.inv(),
        s.at_rest(),
        s.allocated,
        s.strong_idle >= 1,
        payload is Some,
    ensures
        ({
            let steps = if s.strong >= 2 {
                seq![Action::DropStrong]
            } else if s.weak >= 2 {
                seq![Action::DropStrong, Action::Destroy, Action::GiveUpUnit]
            } else {
                seq![Action::DropStrong, Action::Destroy, Action::GiveUpUnit, Action::Release]
            };
            let end = s.run(steps);
            &&& s.admits(steps)
            &&& end.inv()
            &&& end.at_rest()
            &&& match s.record(payload).sub_strong() {
                Some(r) => end.allocated && end.strong == r.strong && end.weak == r.weak && (
                end.payload <==> r.payload is Some),
                None => !end.allocated && !end.payload,
            }
        }),
{
    let s1 = s.next(Action::DropStrong);
    lemma_next_keeps_inv(s, Action::DropStrong);
    let none = Seq::<Action>::empty();
    if s.strong >= 2 {
        let steps = seq![Action::DropStrong];
        assert(steps.skip(1) =~= none);
        assert(s1.admits(steps.skip(1)));
        assert(s1.run(steps.skip(1)) == s1);
    } else {
        let s2 = s1.next(Action::Destroy);
        lemma_next_keeps_inv(s1, Action::Destroy);
        let s3 = s2.next(Action::GiveUpUnit);
        lemma_next_keeps_inv(s2, Action::GiveUpUnit);
        if s.weak >= 2 {
            let steps = seq![Action::DropStrong, Action::Destroy, Action::GiveUpUnit];
            let rest1 = seq![Action::Destroy, Action::GiveUpUnit];
            let rest2 = seq![Action::GiveUpUnit];
            assert(steps.skip(1) =~= rest1);
            assert(rest1.skip(1) =~= rest2);
            assert(rest2.skip(1) =~= none);
            assert(s3.admits(rest2.skip(1)));
            assert(s2.admits(rest2));
            assert(s1.admits(rest1));
            assert(s3.run(rest2.skip(1)) == s3);
            assert(s2.run(rest2) == s3);
            assert(s1.run(rest1) == s3);
        } else {
            let s4 = s3.next(Action::Release);
            lemma_next_keeps_inv(s3, Action::Release);
            let steps = seq![
                Action::DropStrong,
                Action::Destroy,
                Action::GiveUpUnit,
                Action::Release,
            ];
            let rest1 = seq![Action::Destroy, Action::GiveUpUnit, Action::Release];
            let rest2 = seq![Action::GiveUpUnit, Action::Release];
            let rest3 = seq![Action::Release];
            assert(steps.skip(1) =~= rest1);
            assert(rest1.skip(1) =~= rest2);
            assert(rest2.skip(1) =~= rest3);
            assert(rest3.skip(1) =~= none);
            assert(s4.admits(rest3.skip(1)));
            assert(s3.admits(rest3));
            assert(s2.admits(rest2));
            assert(s1.admits(rest1));
            assert(s4.run(rest3.skip(1)) == s4);
            assert(s3.run(rest3) == s4);
            assert(s2.run(rest2) == s4);
            assert(s1.run(rest1) == s4);
        }
    }
}

} // verus!
