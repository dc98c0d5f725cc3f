//! Access to hardware registers.
//!
//! A register is read and written through [`Io`]. What a read returns and
//! what a write brings about is up to the device, so nothing is said of
//! either. A driver holds its registers as [`Recorded`] registers: each keeps
//! the history of the accesses made through it, so that the driver can say
//! which register it reads, and which values it hands to which register, in
//! which order.

use vstd::prelude::*;
use core::ops::{BitAnd, BitOr, Not};

verus! {

/// A register of a device.
pub trait Io {
    /// The type of the values that the register holds.
    type Value: Copy + PartialEq + BitAnd<Output = Self::Value> + BitOr<Output = Self::Value> + Not<
        Output = Self::Value,
    >;

    /// Reads the register. The device decides what comes back.
    fn read(&self) -> Self::Value;

    /// Writes `value` to the register.
    fn write(&mut self, value: Self::Value);
}

/// One access to a register.
pub enum Access<V> {
    /// The register was read, and this value came back.
    Read(V),
    /// This value was written to the register.
    Write(V),
}

/// The values that the accesses in `history` wrote, the oldest first.
pub open spec fn written<V>(history: Seq<Access<V>>) -> Seq<V>
    decreases history.len(),
{
    if history.len() == 0 {
        Seq::empty()
    } else {
        match history.last() {
            Access::Write(value) => written(history.drop_last()).push(value),
            Access::Read(_) => written(history.drop_last()),
        }
    }
}

/// A register together with the history of the accesses made through it.
pub struct Recorded<I: Io> {
    inner: I,
    history: Ghost<Seq<Access<I::Value>>>,
}

impl<I: Io> Recorded<I> {
    /// The accesses made through this register so far, the oldest first.
    pub closed spec fn history(&self) -> Seq<Access<I::Value>> {
        self.history@
    }

    /// Starts a history for `inner`: no access has been made yet.
    pub fn new(inner: I) -> (register: Self)
        ensures
            register.history() == Seq::<Access<I::Value>>::empty(),
    {
        Recorded { inner, history: Ghost(Seq::empty()) }
    }

    /// Reads the register and adds the read to the history. The device
    /// decides what comes back.
    pub fn read(&mut self) -> (value: I::Value)
        ensures
            final(self).history() == old(self).history().push(Access::Read(value)),
    {
        let value = self.inner.read();
        self.history = Ghost(self.history@.push(Access::Read(value)));
        value
    }

    /// Writes `value` to the register and adds the write to the history.
    pub fn write(&mut self, value: I::Value)
        ensures
            final(self).history() == old(self).history().push(Access::Write(value)),
    {
        self.inner.write(value);
        self.history = Ghost(self.history@.push(Access::Write(value)));
    }
}

/// A write adds its value to the values written, and a read adds nothing.
pub proof fn lemma_written_push<V>(history: Seq<Access<V>>, access: Access<V>)
    ensures
        written(history.push(access)) == match access {
            Access::Write(value) => written(history).push(value),
            Access::Read(_) => written(history),
        },
{
    assert(history.push(access).drop_last() =~= history);
}

/// A register that is only read.
pub struct ReadOnly<I> {
    inner: I,
}

impl<I> ReadOnly<I> {
    /// The register behind the wrapper.
    pub closed spec fn inner(&self) -> I {
        self.inner
    }

    /// Wraps `inner`.
    pub fn new(inner: I) -> (wrapped: Self)
        ensures
            wrapped.inner() == inner,
    {
        Self { inner }
    }
}

impl<I: Io> ReadOnly<I> {
    /// Reads the register behind the wrapper: the result is what a read of
    /// that register gives. The device decides what that is.
    #[inline(always)]
    pub fn read(&self) -> (value: I::Value)
        ensures
            call_ensures(I::read, (&self.inner(),), value),
    {
        self.inner.read()
    }
}

/// A register that is not meant to be read back.
pub struct WriteOnly<I> {
    inner: I,
}

impl<I> WriteOnly<I> {
    /// The register behind the wrapper.
    pub closed spec fn inner(&self) -> I {
        self.inner
    }

    /// Wraps `inner`.
    pub fn new(inner: I) -> (wrapped: Self)
        ensures
            wrapped.inner() == inner,
    {
        Self { inner }
    }
}

impl<I: Io> WriteOnly<I> {
    /// Hands back what the register behind the wrapper reads as: the result
    /// is what a read of that register gives. Nothing is written to it.
    #[inline(always)]
    pub fn write(&self) -> (value: I::Value)
        ensures
            call_ensures(I::read, (&self.inner(),), value),
    {
        self.inner.read()
    }
}

} // verus!
