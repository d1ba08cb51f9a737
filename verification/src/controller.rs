//! The controller of a chain of P9813s: it owns the transport and sends one
//! transaction per call.

use crate::frame::{
    color_to_array, lemma_transaction_prefix, transaction, transaction_writes, Color,
};
use crate::transport::{bytes_of, Recorder, Transport, Write};
use vstd::prelude::*;

verus! {

/// The highest clock frequency, in hertz, at which the P9813 can be driven.
pub const MAX_CLOCK_FREQUENCY: u32 = 15_000_000;

/// What one call that sends `colors` does: `issued` are the writes it hands
/// to the transport, in order, and `res` is what it returns.
///
/// The writes are those of the transaction, from the first on and without a
/// gap. Every write before the last was accepted, the call returns what the
/// last write returned, and it returns `Ok` only when the whole transaction
/// went out. So the first failure ends the call, is returned as it came, and
/// no write follows it.
pub open spec fn transmission<E>(
    colors: Seq<Color>,
    issued: Seq<Write<E>>,
    res: Result<(), E>,
) -> bool {
    let planned = transaction_writes(colors);
    &&& 1 <= issued.len() <= planned.len()
    &&& forall|i: int| 0 <= i < issued.len() ==> (#[trigger] issued[i]).bytes == planned[i]
    &&& forall|i: int| 0 <= i < issued.len() - 1 ==> (#[trigger] issued[i]).outcome is Ok
    &&& res == issued.last().outcome
    &&& res is Ok ==> issued.len() == planned.len()
}

/// What reached the transport in one call is the transaction of `colors` up
/// to the end of the last write made, and the whole of it when the call
/// returned `Ok`.
pub proof fn lemma_transmission_bytes<E>(
    colors: Seq<Color>,
    issued: Seq<Write<E>>,
    res: Result<(), E>,
)
    requires
        transmission(colors, issued, res),
    ensures
        bytes_of(issued) == transaction(colors).take(4 * (issued.len() as int)),
        res is Ok ==> bytes_of(issued) == transaction(colors),
{
    let planned = transaction_writes(colors);
    let k = issued.len() as int;
    assert(issued.map_values(|w: Write<E>| w.bytes) =~= planned.take(k));
    lemma_transaction_prefix(colors, k);
    if res is Ok {
        assert(planned.take(k) =~= planned);
    }
}

/// A write that fails is the last of its call, and the call returns what that
/// write returned: nothing is retried and nothing is sent after a failure.
pub proof fn lemma_failure_ends_call<E>(
    colors: Seq<Color>,
    issued: Seq<Write<E>>,
    res: Result<(), E>,
    k: int,
)
    requires
        transmission(colors, issued, res),
        0 <= k < issued.len(),
        issued[k].outcome is Err,
    ensures
        issued.len() == k + 1,
        res == issued[k].outcome,
{
}

/// Sending the same colours again hands the same bytes to the transport:
/// write for write as far as both calls got, and the same transaction in all
/// when both returned `Ok`.
pub proof fn lemma_repeat_sends_same_bytes<E>(
    colors: Seq<Color>,
    first: Seq<Write<E>>,
    first_res: Result<(), E>,
    second: Seq<Write<E>>,
    second_res: Result<(), E>,
)
    requires
        transmission(colors, first, first_res),
        transmission(colors, second, second_res),
    ensures
        forall|i: int|
            0 <= i < first.len() && i < second.len() ==> (#[trigger] first[i]).bytes
                == second[i].bytes,
        first_res is Ok && second_res is Ok ==> bytes_of(first) == bytes_of(second),
{
    lemma_transmission_bytes(colors, first, first_res);
    lemma_transmission_bytes(colors, second, second_res);
}

/// A chain of P9813 controllers behind one transport.
pub struct P9813<SPI: Transport> {
    spi: Recorder<SPI>,
}

impl<SPI: Transport> P9813<SPI> {
    /// The transport that the controller holds.
    pub closed spec fn transport(&self) -> SPI {
        self.spi.inner()
    }

    /// Every write made through this controller since it was created, oldest
    /// first.
    pub closed spec fn writes(&self) -> Seq<Write<SPI::Error>> {
        self.spi.writes()
    }

    /// Creates a controller that owns `spi`. Nothing is sent.
    pub fn new(spi: SPI) -> (controller: Self)
        ensures
            controller.transport() == spi,
            controller.writes() == Seq::<Write<SPI::Error>>::empty(),
    {
        P9813 { spi: Recorder::new(spi) }
    }

    /// Gives the transport back and ends the controller.
    pub fn release(self) -> (spi: SPI)
        ensures
            spi == self.transport(),
    {
        self.spi.into_inner()
    }

    /// Sets the colour of a single P9813: a transaction for a chain of one.
    pub fn set_color(&mut self, r: u8, g: u8, b: u8) -> (res: Result<(), SPI::Error>)
        ensures
            ({
                let issued = final(self).writes().skip(old(self).writes().len() as int);
                &&& final(self).writes() == old(self).writes() + issued
                &&& transmission(seq![(r, g, b)], issued, res)
                &&& res is Ok ==> bytes_of(issued) == transaction(seq![(r, g, b)])
            }),
    {
        let one: [Color; 1] = [(r, g, b)];
        assert(one@ =~= seq![(r, g, b)]);
        self.set_colors(one.as_slice())
    }

    /// Sets the colours of a chain of P9813s, `colors[0]` for the first
    /// device, in one transaction: the start marker, one frame per device and
    /// the end marker, each as a write of its own. The first write that the
    /// transport refuses ends the call with the transport's error.
    pub fn set_colors(&mut self, colors: &[Color]) -> (res: Result<(), SPI::Error>)
        ensures
            ({
                let issued = final(self).writes().skip(old(self).writes().len() as int);
                &&& final(self).writes() == old(self).writes() + issued
                &&& transmission(colors@, issued, res)
                &&& res is Ok ==> bytes_of(issued) == transaction(colors@)
            }),
    {
        let ghost before = self.writes();
        let ghost planned = transaction_writes(colors@);
        let zeros: [u8; 4] = [0, 0, 0, 0];
        let start = self.spi.send(zeros.as_slice());
        let ghost mut issued = seq![Write { bytes: zeros@, outcome: start }];
        if let Err(e) = start {
            return Err(e);
        }
        let mut i: usize = 0;
        while i < colors.len()
            invariant
                i <= colors.len(),
                planned == transaction_writes(colors@),
                before == old(self).writes(),
                self.writes() == before + issued,
                issued.len() == i + 1,
                forall|j: int|
                    0 <= j < issued.len() ==> (#[trigger] issued[j]).bytes == planned[j],
                forall|j: int| 0 <= j < issued.len() ==> (#[trigger] issued[j]).outcome is Ok,
            decreases colors.len() - i,
        {
            let (r, g, b) = colors[i];
            let frame = color_to_array(r, g, b);
            let sent = self.spi.send(frame.as_slice());
            proof {
                issued = issued.push(Write { bytes: frame@, outcome: sent });
            }
            if let Err(e) = sent {
                return Err(e);
            }
            i += 1;
        }
        let end = self.spi.send(zeros.as_slice());
        proof {
            issued = issued.push(Write { bytes: zeros@, outcome: end });
            assert(issued =~= self.writes().skip(before.len() as int));
            lemma_transmission_bytes(colors@, issued, end);
        }
        end
    }
}

} // verus!
