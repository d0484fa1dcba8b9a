use vstd::prelude::*;

use crate::frame::{encode_frame, frame_bytes};

verus! {

/// The most numbers that one probe sends.
pub const SEND_LIMIT: u32 = 8388608;

/// The odd value that is sent once, half way through the stream.
pub const INJECTED_ODD: u32 = 23;

/// The number sent at position `i` of a stream of `count` numbers: the
/// injected odd value at the middle, elsewhere `i` rounded down to even.
pub open spec fn spec_nth_number(i: u32, count: u32) -> u32 {
    if i == count / 2 {
        INJECTED_ODD
    } else {
        (i - i % 2) as u32
    }
}

/// The number sent at position `i` of a stream of `count` numbers.
pub fn nth_number(i: u32, count: u32) -> (r: u32)
    ensures
        r == spec_nth_number(i, count),
        i != count / 2 ==> r % 2 == 0,
        i == count / 2 ==> r % 2 == 1,
{
    if i == count / 2 {
        INJECTED_ODD
    } else {
        i - i % 2
    }
}

/// The writing side of one probe: it polls the stop signal before each send,
/// and stops for good once the signal is seen, a write fails, or the limit is
/// reached.
#[derive(Clone, Copy, Debug, PartialEq, Eq, Structural)]
pub struct Sender {
    /// Position of the next number in the stream.
    pub next: u32,
    /// How many numbers the stream holds.
    pub limit: u32,
    /// Whether the sender has stopped.
    pub stopped: bool,
}

/// What the sender does after a poll.
#[derive(Clone, Copy, Debug)]
pub enum SendStep {
    /// Write `frame`, the encoding of `value`.
    Send { value: u32, frame: [u8; 4] },
    /// Send nothing more.
    Stop,
}

/// Whether a poll that observes `signal` sends a number.
pub open spec fn sends_now(s: Sender, signal: bool) -> bool {
    !s.stopped && !signal && s.next < s.limit
}

/// The sender after a poll that observes `signal`.
pub open spec fn polled(s: Sender, signal: bool) -> Sender {
    if sends_now(s, signal) {
        Sender { next: (s.next + 1) as u32, ..s }
    } else {
        Sender { stopped: true, ..s }
    }
}

/// `step` sends the number at position `s.next`.
pub open spec fn sends_next(s: Sender, step: SendStep) -> bool {
    match step {
        SendStep::Send { value, frame } => value == spec_nth_number(s.next, s.limit) && frame@
            == frame_bytes(value),
        SendStep::Stop => false,
    }
}

/// How many numbers are sent over polls that observe `signals` in turn.
pub open spec fn sends(s: Sender, signals: Seq<bool>) -> nat
    decreases signals.len(),
{
    if signals.len() == 0 {
        0
    } else {
        (if sends_now(s, signals[0]) {
            1nat
        } else {
            0nat
        }) + sends(polled(s, signals[0]), signals.drop_first())
    }
}

impl Sender {
    /// A sender at the start of a stream of `limit` numbers.
    pub fn new(limit: u32) -> (r: Sender)
        ensures
            r == (Sender { next: 0, limit, stopped: false }),
    {
        Sender { next: 0, limit, stopped: false }
    }

    /// Polls with the current state of the stop signal and says whether to send.
    pub fn poll(&mut self, stop_signal: bool) -> (r: SendStep)
        ensures
            *final(self) == polled(*old(self), stop_signal),
            sends_now(*old(self), stop_signal) ==> sends_next(*old(self), r),
            !sends_now(*old(self), stop_signal) ==> r is Stop,
    {
        if self.stopped || stop_signal || self.next >= self.limit {
            self.stopped = true;
            SendStep::Stop
        } else {
            let value = nth_number(self.next, self.limit);
            self.next = self.next + 1;
            SendStep::Send { value, frame: encode_frame(value) }
        }
    }

    /// Takes note of a failed write: nothing more is sent.
    pub fn write_failed(&mut self)
        ensures
            *final(self) == (Sender { stopped: true, ..*old(self) }),
    {
        self.stopped = true;
    }
}

/// A stopped sender sends nothing more, whatever it observes; so after a
/// failed write no further send is attempted.
pub proof fn lemma_stopped_sends_nothing(s: Sender, signals: Seq<bool>)
    requires
        s.stopped,
    ensures
        sends(s, signals) == 0,
    decreases signals.len(),
{
    if signals.len() > 0 {
        lemma_stopped_sends_nothing(polled(s, signals[0]), signals.drop_first());
    }
}

/// Every send happens before the first poll that observes the stop signal:
/// if the poll at `k` observes it, at most `k` numbers are sent in all.
pub proof fn lemma_stop_signal_bounds_sends(s: Sender, signals: Seq<bool>, k: int)
    requires
        0 <= k < signals.len(),
        signals[k],
    ensures
        sends(s, signals) <= k,
    decreases signals.len(),
{
    if k == 0 {
        lemma_stopped_sends_nothing(polled(s, signals[0]), signals.drop_first());
    } else {
        lemma_stop_signal_bounds_sends(polled(s, signals[0]), signals.drop_first(), k - 1);
    }
}

/// Without a stop signal or a failed write, the sender still ends: it sends
/// at most the numbers left before its limit.
pub proof fn lemma_sends_bounded(s: Sender, signals: Seq<bool>)
    ensures
        sends(s, signals) <= if s.next <= s.limit {
            (s.limit - s.next) as nat
        } else {
            0nat
        },
    decreases signals.len(),
{
    if signals.len() > 0 {
        let t = polled(s, signals[0]);
        lemma_sends_bounded(t, signals.drop_first());
        if !sends_now(s, signals[0]) {
            lemma_stopped_sends_nothing(t, signals.drop_first());
        }
    }
}

} // verus!
