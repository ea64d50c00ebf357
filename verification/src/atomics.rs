use vstd::prelude::*;

verus! {

/// Largest counter value from which a handle may still be added.
pub const MAX_REFCOUNT: usize = usize::MAX / 2;

/// One word of shared state, changed only by indivisible steps.
pub struct Counter {
    value: usize,
}

impl View for Counter {
    type V = usize;

    closed spec fn view(&self) -> usize {
        self.value
    }
}

impl Counter {
    pub fn new(value: usize) -> (c: Counter)
        ensures
            c@ == value,
    {
        Counter { value }
    }

    /// Reads the current value.
    pub fn load(&self) -> (v: usize)
        ensures
            v == self@,
    {
        self.value
    }

    /// Overwrites the value.
    pub fn store(&mut self, value: usize)
        ensures
            final(self)@ == value,
    {
        self.value = value;
    }

    /// Adds `n`, wrapping at the word size, and returns the value before.
    pub fn fetch_add(&mut self, n: usize) -> (prev: usize)
        ensures
            prev == old(self)@,
            old(self)@ + n <= usize::MAX ==> final(self)@ == old(self)@ + n,
            old(self)@ + n > usize::MAX ==> final(self)@ == old(self)@ + n - usize::MAX - 1,
    {
        let prev: usize = self.value;
        if n <= usize::MAX - prev {
            self.value = prev + n;
        } else {
            self.value = n - (usize::MAX - prev) - 1;
        }
        prev
    }

    /// Subtracts `n`, wrapping at the word size, and returns the value before.
    pub fn fetch_sub(&mut self, n: usize) -> (prev: usize)
        ensures
            prev == old(self)@,
            old(self)@ >= n ==> final(self)@ == old(self)@ - n,
            old(self)@ < n ==> final(self)@ == old(self)@ + usize::MAX + 1 - n,
    {
        let prev: usize = self.value;
        if n <= prev {
            self.value = prev - n;
        } else {
            self.value = usize::MAX - (n - prev) + 1;
        }
        prev
    }

    /// Replaces `current` by `new` if the value is `current`. Returns the
    /// value before, as `Ok` if it was replaced and as `Err` if it was not.
    pub fn compare_exchange(&mut self, current: usize, new: usize) -> (r: Result<usize, usize>)
        ensures
            old(self)@ == current ==> r == Ok::<usize, usize>(current) && final(self)@ == new,
            old(self)@ != current ==> r == Err::<usize, usize>(old(self)@) && final(self)@ == old(
                self,
            )@,
    {
        let prev: usize = self.value;
        if prev == current {
            self.value = new;
            Ok(prev)
        } else {
            Err(prev)
        }
    }
}

/// A 32-bit word of shared state, changed only by indivisible steps.
pub struct Word {
    value: u32,
}

impl View for Word {
    type V = u32;

    closed spec fn view(&self) -> u32 {
        self.value
    }
}

impl Word {
    pub fn new(value: u32) -> (w: Word)
        ensures
            w@ == value,
    {
        Word { value }
    }

    /// Reads the current value.
    pub fn load(&self) -> (v: u32)
        ensures
            v == self@,
    {
        self.value
    }

    /// Overwrites the value.
    pub fn store(&mut self, value: u32)
        ensures
            final(self)@ == value,
    {
        self.value = value;
    }

    /// Overwrites the value and returns the value before.
    pub fn swap(&mut self, value: u32) -> (prev: u32)
        ensures
            prev == old(self)@,
            final(self)@ == value,
    {
        let prev: u32 = self.value;
        self.value = value;
        prev
    }

    /// Adds `n`, wrapping at the word size, and returns the value before.
    pub fn fetch_add(&mut self, n: u32) -> (prev: u32)
        ensures
            prev == old(self)@,
            old(self)@ + n <= u32::MAX ==> final(self)@ == old(self)@ + n,
            old(self)@ + n > u32::MAX ==> final(self)@ == old(self)@ + n - u32::MAX - 1,
    {
        let prev: u32 = self.value;
        if n <= u32::MAX - prev {
            self.value = prev + n;
        } else {
            self.value = n - (u32::MAX - prev) - 1;
        }
        prev
    }

    /// Replaces `current` by `new` if the value is `current`. Returns the
    /// value before, as `Ok` if it was replaced and as `Err` if it was not.
    pub fn compare_exchange(&mut self, current: u32, new: u32) -> (r: Result<u32, u32>)
        ensures
            old(self)@ == current ==> r == Ok::<u32, u32>(current) && final(self)@ == new,
            old(self)@ != current ==> r == Err::<u32, u32>(old(self)@) && final(self)@ == old(
                self,
            )@,
    {
        let prev: u32 = self.value;
        if prev == current {
            self.value = new;
            Ok(prev)
        } else {
            Err(prev)
        }
    }
}

/// A byte of shared state, changed only by indivisible steps.
pub struct Byte {
    value: u8,
}

impl View for Byte {
    type V = u8;

    closed spec fn view(&self) -> u8 {
        self.value
    }
}

impl Byte {
    pub fn new(value: u8) -> (b: Byte)
        ensures
            b@ == value,
    {
        Byte { value }
    }

    /// Reads the current value.
    pub fn load(&self) -> (v: u8)
        ensures
            v == self@,
    {
        self.value
    }

    /// Overwrites the value.
    pub fn store(&mut self, value: u8)
        ensures
            final(self)@ == value,
    {
        self.value = value;
    }

    /// Replaces `current` by `new` if the value is `current`. Returns the
    /// value before, as `Ok` if it was replaced and as `Err` if it was not.
    pub fn compare_exchange(&mut self, current: u8, new: u8) -> (r: Result<u8, u8>)
        ensures
            old(self)@ == current ==> r == Ok::<u8, u8>(current) && final(self)@ == new,
            old(self)@ != current ==> r == Err::<u8, u8>(old(self)@) && final(self)@ == old(
                self,
            )@,
    {
        let prev: u8 = self.value;
        if prev == current {
            self.value = new;
            Ok(prev)
        } else {
            Err(prev)
        }
    }
}

/// A flag of shared state, changed only by indivisible steps.
pub struct Flag {
    value: bool,
}

impl View for Flag {
    type V = bool;

    closed spec fn view(&self) -> bool {
        self.value
    }
}

impl Flag {
    pub fn new(value: bool) -> (f: Flag)
        ensures
            f@ == value,
    {
        Flag { value }
    }

    /// Reads the current value.
    pub fn load(&self) -> (v: bool)
        ensures
            v == self@,
    {
        self.value
    }

    /// Overwrites the value.
    pub fn store(&mut self, value: bool)
        ensures
            final(self)@ == value,
    {
        self.value = value;
    }

    /// Overwrites the value and returns the value before.
    pub fn swap(&mut self, value: bool) -> (prev: bool)
        ensures
            prev == old(self)@,
            final(self)@ == value,
    {
        let prev: bool = self.value;
        self.value = value;
        prev
    }
}

/// Whether a counter that held `prev` before it was raised is past the
/// limit, so that the process must stop.
pub fn overflows(prev: usize) -> (b: bool)
    ensures
        b == (prev > MAX_REFCOUNT),
{
    prev > MAX_REFCOUNT
}

} // verus!
