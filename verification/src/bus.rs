//! The byte-stream bus the chain hangs on.
//!
//! The driver needs exactly one primitive from the outside world: a blocking
//! `write` that either transmits a whole byte buffer as one chain-clocking
//! transaction or fails.  `Bus` states that primitive over a ghost log of
//! transactions, so every driver contract can say bit-exactly what went over
//! the wire.  `RecordingBus` is an in-memory implementation, verified against
//! the same contract, that keeps the log for real and can be scripted to fail
//! on a chosen transaction.

use vstd::prelude::*;

verus! {

/// A transport that transmits byte buffers as atomic transactions.
///
/// `log()` is the ghost history of transactions the bus has accepted, oldest
/// first.  A successful `write` appends exactly the bytes handed to it; a
/// failed `write` accepts nothing.
pub trait Bus: Sized {
    /// The transport's own transmission-failure value.
    type BusError;

    /// The transactions accepted so far, oldest first.
    ///
    /// The default is the empty history, so that transports outside the
    /// verifier's reach (a real SPI device, a hand-written test double) can
    /// implement the trait with `write` alone; an implementation whose log
    /// verified code reasons about overrides this.
    open spec fn log(&self) -> Seq<Seq<u8>> {
        Seq::empty()
    }

    /// Transmit `bytes` as one atomic chain-clocking transaction.
    fn write(&mut self, bytes: &[u8]) -> (r: Result<(), Self::BusError>)
        ensures
            r is Ok ==> final(self).log() == old(self).log().push(bytes@),
            r is Err ==> final(self).log() == old(self).log(),
    ;
}

/// The failure a `RecordingBus` reports when it reaches its scripted fault.
#[derive(Clone, Copy, PartialEq, Eq, Structural, Debug)]
pub struct BusFault;

/// A bus that keeps every accepted transaction in memory and, if `fail_at`
/// is set, refuses the transaction with that index (and every retry of it).
pub struct RecordingBus {
    /// The accepted transactions, oldest first.
    pub sent: Vec<Vec<u8>>,
    /// Index of the transaction on which `write` reports `BusFault`.
    pub fail_at: Option<usize>,
}

impl RecordingBus {
    /// A bus with an empty log that never fails.
    pub fn new() -> (r: RecordingBus)
        ensures
            r.log() == Seq::<Seq<u8>>::empty(),
            r.fail_at is None,
    {
        RecordingBus { sent: Vec::new(), fail_at: None }
    }

    /// A bus with an empty log that fails on transaction number `n`
    /// (0-based) and on every later attempt.
    pub fn failing_at(n: usize) -> (r: RecordingBus)
        ensures
            r.log() == Seq::<Seq<u8>>::empty(),
            r.fail_at == Some(n),
    {
        RecordingBus { sent: Vec::new(), fail_at: Some(n) }
    }
}

impl Bus for RecordingBus {
    type BusError = BusFault;

    open spec fn log(&self) -> Seq<Seq<u8>> {
        self.sent@.map_values(|t: Vec<u8>| t@)
    }

    fn write(&mut self, bytes: &[u8]) -> (r: Result<(), BusFault>) {
        if let Some(n) = self.fail_at {
            if self.sent.len() == n {
                return Err(BusFault);
            }
        }
        let t = vstd::slice::slice_to_vec(bytes);
        let ghost before = self.sent@;
        self.sent.push(t);
        proof {
            assert(self.sent@.map_values(|v: Vec<u8>| v@)
                =~= before.map_values(|v: Vec<u8>| v@).push(bytes@));
        }
        Ok(())
    }
}

} // verus!
