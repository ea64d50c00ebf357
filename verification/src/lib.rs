//! Primitives for sharing between threads, and a few containers, each with
//! a contract that states what it does.
//!
//! The counted handles, the locks and the channels are given as what one
//! thread after the other does to the shared state: every operation takes
//! that state explicitly and runs to its end. What a thread does on a value
//! that it has read from shared state is a function of that value, so that a
//! program which shares the state through the machine's atomic operations
//! decides by the same rules.

pub mod arc_only;
pub mod arc_weak;
pub mod arc_weak_laws;
pub mod arc_weak_protocol;
pub mod atomics;
pub mod bst;
pub mod channel_mutex;
pub mod channel_oneshot_arc;
pub mod condvar_simple;
pub mod futex;
pub mod gcd_stein;
pub mod linked_list;
pub mod mutex_simple;
pub mod mutex_spin;
pub mod spinlock_v1;
pub mod spinlock_v2;
pub mod vec;
