//! The transport that carries a transaction to the chain, and the record of
//! what was handed to it.

use vstd::prelude::*;

verus! {

/// A synchronous byte transmitter: the one capability that the controller
/// needs from a serial bus.
///
/// Nothing is assumed of an implementation. Whether a write succeeds, and
/// what the transport is afterwards, is its own affair.
pub trait Transport {
    /// What the transport reports when a write fails.
    type Error;

    /// Sends `bytes` as one write and blocks until the transport has taken
    /// them or has failed.
    fn transmit(&mut self, bytes: &[u8]) -> Result<(), Self::Error>;
}

/// One write handed to a transport, and what the transport returned for it.
pub ghost struct Write<E> {
    pub bytes: Seq<u8>,
    pub outcome: Result<(), E>,
}

/// The bytes of a run of writes, in the order they were handed over.
pub open spec fn bytes_of<E>(writes: Seq<Write<E>>) -> Seq<u8> {
    writes.map_values(|w: Write<E>| w.bytes).flatten()
}

/// A transport together with the record of every write handed to it.
///
/// The record cannot be changed from outside this module: it grows by one
/// entry with each call of `send`, and in no other way.
pub(crate) struct Recorder<T: Transport> {
    inner: T,
    record: Ghost<Seq<Write<T::Error>>>,
}

impl<T: Transport> Recorder<T> {
    /// The transport as it is now.
    pub(crate) closed spec fn inner(&self) -> T {
        self.inner
    }

    /// Every write handed to the transport through this recorder, oldest
    /// first.
    pub(crate) closed spec fn writes(&self) -> Seq<Write<T::Error>> {
        self.record@
    }

    /// Takes `inner` and starts with an empty record.
    pub(crate) fn new(inner: T) -> (recorder: Self)
        ensures
            recorder.inner() == inner,
            recorder.writes() == Seq::<Write<T::Error>>::empty(),
    {
        Recorder { inner, record: Ghost(Seq::empty()) }
    }

    /// Gives the transport back.
    pub(crate) fn into_inner(self) -> (inner: T)
        ensures
            inner == self.inner(),
    {
        self.inner
    }

    /// Hands `bytes` to the transport as one write, and records the write
    /// with its outcome.
    pub(crate) fn send(&mut self, bytes: &[u8]) -> (res: Result<(), T::Error>)
        ensures
            final(self).writes() == old(self).writes().push(
                (Write { bytes: bytes@, outcome: res }),
            ),
    {
        let res = self.inner.transmit(bytes);
        proof {
            self.record@ = self.record@.push(Write { bytes: bytes@, outcome: res });
        }
        res
    }
}

} // verus!
