use vstd::prelude::*;

use crate::frame::{decode_frame, encode_frame, frame_bytes, frame_value, lemma_frame_bytes_of_value};
use crate::mode::TeardownMode;

verus! {

/// Which directions a half-close shuts.
#[derive(Clone, Copy, Debug, PartialEq, Eq, Structural)]
pub enum ShutdownHow {
    Write,
    Both,
}

/// The part of a connection's life in which something went wrong.
#[derive(Clone, Copy, Debug, PartialEq, Eq, Structural)]
pub enum Stage {
    Scanning,
    Echoing,
    ShuttingDown,
    Sleeping,
    Draining,
}

/// How a connection ended.
#[derive(Clone, Copy, Debug, PartialEq, Eq, Structural)]
pub enum Outcome {
    /// The teardown ran to its end without draining.
    Released,
    /// The teardown drained the peer's bytes up to the end of its stream.
    ReleasedAfterDrain { drained: u64 },
    /// An I/O operation failed; the connection was released all the same.
    Failed { during: Stage },
}

/// Where a connection handler stands.
#[derive(Clone, Copy, Debug, PartialEq, Eq, Structural)]
pub enum Phase {
    /// Reading frames until the first odd value.
    Scanning,
    /// The odd value is to be written back.
    Echoing { value: u32 },
    /// A half-close is to be made.
    ShuttingDown { how: ShutdownHow },
    /// The handler is to sleep before closing.
    Sleeping,
    /// Reading and discarding until the peer's stream ends.
    Draining { drained: u64 },
    /// The connection is to be released; nothing follows.
    Closed { outcome: Outcome },
}

/// What the I/O around the handler reports back.
#[derive(Clone, Copy, Debug)]
pub enum Event {
    /// Four bytes were read while scanning.
    FrameRead { frame: [u8; 4] },
    /// The echo was written.
    EchoWritten,
    /// The half-close was made.
    ShutdownDone,
    /// The sleep is over.
    Slept,
    /// One read while draining returned `len` bytes; zero is the end of the stream.
    DrainRead { len: usize },
    /// The pending operation failed.
    Failed,
}

/// The operation that the I/O around the handler is to perform next.
#[derive(Clone, Copy, Debug)]
pub enum Action {
    ReadFrame,
    WriteEcho { frame: [u8; 4] },
    Shutdown { how: ShutdownHow },
    Sleep,
    DrainRead,
    Close,
}

/// The phase that follows a written echo.
pub open spec fn after_echo(mode: TeardownMode) -> Phase {
    match mode {
        TeardownMode::CloseImmediately => Phase::Closed { outcome: Outcome::Released },
        TeardownMode::SleepThenClose => Phase::Sleeping,
        TeardownMode::DrainThenClose => Phase::Draining { drained: 0 },
        TeardownMode::ShutdownWriteThenDrain => Phase::ShuttingDown { how: ShutdownHow::Write },
        TeardownMode::ShutdownWriteThenClose => Phase::ShuttingDown { how: ShutdownHow::Write },
        TeardownMode::ShutdownBothThenClose => Phase::ShuttingDown { how: ShutdownHow::Both },
    }
}

/// The phase that follows a half-close.
pub open spec fn after_shutdown(mode: TeardownMode) -> Phase {
    if mode == TeardownMode::ShutdownWriteThenDrain {
        Phase::Draining { drained: 0 }
    } else {
        Phase::Closed { outcome: Outcome::Released }
    }
}

/// The stage that a failure in phase `p` is reported under.
pub open spec fn stage_of(p: Phase) -> Stage {
    match p {
        Phase::Scanning => Stage::Scanning,
        Phase::Echoing { .. } => Stage::Echoing,
        Phase::ShuttingDown { .. } => Stage::ShuttingDown,
        Phase::Sleeping => Stage::Sleeping,
        _ => Stage::Draining,
    }
}

/// A byte count grown by `len`, held at the largest `u64`.
pub open spec fn grown(drained: u64, len: usize) -> u64 {
    if drained + len <= u64::MAX {
        (drained + len) as u64
    } else {
        u64::MAX
    }
}

/// The phase after `e` in phase `p`. A closed connection stays closed; a
/// failure closes it; an event that does not answer the pending action is
/// ignored.
pub open spec fn next_phase(mode: TeardownMode, p: Phase, e: Event) -> Phase {
    if p is Closed {
        p
    } else {
        match e {
            Event::Failed => Phase::Closed { outcome: Outcome::Failed { during: stage_of(p) } },
            Event::FrameRead { frame } => if p is Scanning {
                if frame_value(frame@) % 2 == 0 {
                    Phase::Scanning
                } else {
                    Phase::Echoing { value: frame_value(frame@) as u32 }
                }
            } else {
                p
            },
            Event::EchoWritten => if p is Echoing {
                after_echo(mode)
            } else {
                p
            },
            Event::ShutdownDone => if p is ShuttingDown {
                after_shutdown(mode)
            } else {
                p
            },
            Event::Slept => if p is Sleeping {
                Phase::Closed { outcome: Outcome::Released }
            } else {
                p
            },
            Event::DrainRead { len } => match p {
                Phase::Draining { drained } => if len == 0 {
                    Phase::Closed { outcome: Outcome::ReleasedAfterDrain { drained } }
                } else {
                    Phase::Draining { drained: grown(drained, len) }
                },
                _ => p,
            },
        }
    }
}

/// `a` is the action that phase `p` asks for.
pub open spec fn action_of(p: Phase, a: Action) -> bool {
    match p {
        Phase::Scanning => a is ReadFrame,
        Phase::Echoing { value } => match a {
            Action::WriteEcho { frame } => frame@ == frame_bytes(value),
            _ => false,
        },
        Phase::ShuttingDown { how } => a == Action::Shutdown { how },
        Phase::Sleeping => a is Sleep,
        Phase::Draining { .. } => a is DrainRead,
        Phase::Closed { .. } => a is Close,
    }
}

/// The phase after each of `events` in turn.
pub open spec fn replay(mode: TeardownMode, p: Phase, events: Seq<Event>) -> Phase
    decreases events.len(),
{
    if events.len() == 0 {
        p
    } else {
        replay(mode, next_phase(mode, p, events[0]), events.drop_first())
    }
}

/// The phase has released the connection after a teardown that met no failure.
pub open spec fn closed_cleanly(p: Phase) -> bool {
    match p {
        Phase::Closed { outcome } => !(outcome is Failed),
        _ => false,
    }
}

/// The phase has released the connection after a failed operation.
pub open spec fn closed_after_failure(p: Phase) -> bool {
    match p {
        Phase::Closed { outcome } => outcome is Failed,
        _ => false,
    }
}

/// The events of a teardown in which every operation succeeds and the peer
/// sends nothing more.
pub open spec fn clean_teardown(mode: TeardownMode) -> Seq<Event> {
    match mode {
        TeardownMode::CloseImmediately => seq![Event::EchoWritten],
        TeardownMode::SleepThenClose => seq![Event::EchoWritten, Event::Slept],
        TeardownMode::DrainThenClose => seq![Event::EchoWritten, Event::DrainRead { len: 0 }],
        TeardownMode::ShutdownWriteThenDrain => seq![
            Event::EchoWritten,
            Event::ShutdownDone,
            Event::DrainRead { len: 0 },
        ],
        _ => seq![Event::EchoWritten, Event::ShutdownDone],
    }
}

/// Running one sequence of events after another is running their concatenation.
pub proof fn lemma_run_concat(mode: TeardownMode, p: Phase, a: Seq<Event>, b: Seq<Event>)
    ensures
        replay(mode, p, a + b) == replay(mode, replay(mode, p, a), b),
    decreases a.len(),
{
    if a.len() == 0 {
        assert(a + b =~= b);
    } else {
        assert((a + b).drop_first() =~= a.drop_first() + b);
        lemma_run_concat(mode, next_phase(mode, p, a[0]), a.drop_first(), b);
    }
}

/// Once released, a connection stays released whatever is reported after.
pub proof fn lemma_closed_is_final(mode: TeardownMode, p: Phase, events: Seq<Event>)
    requires
        (p is Closed),
    ensures
        replay(mode, p, events) == p,
    decreases events.len(),
{
    if events.len() > 0 {
        lemma_closed_is_final(mode, p, events.drop_first());
    }
}

/// In every mode, once the odd value has been captured, the connection is
/// released: after a teardown that succeeds, and after one whose operation
/// fails at any of its steps; the failure closes it at once.
pub proof fn lemma_teardown_always_releases(mode: TeardownMode, value: u32, k: nat)
    requires
        k < clean_teardown(mode).len(),
    ensures
        closed_cleanly(replay(mode, (Phase::Echoing { value }), clean_teardown(mode))),
        closed_after_failure(
            replay(mode, (Phase::Echoing { value }), clean_teardown(mode).take(k as int).push(Event::Failed)),
        ),
{
    reveal_with_fuel(replay, 5);
    let evs = clean_teardown(mode);
    let failing = evs.take(k as int).push(Event::Failed);
    assert(failing.len() == k + 1);
    assert(forall|i: int| 0 <= i < k ==> failing[i] == evs[i]);
    assert(failing[k as int] == Event::Failed);
    if evs.len() >= 2 {
        assert(evs.drop_first()[0] == evs[1]);
        assert(failing.drop_first().len() == k);
    }
    if evs.len() >= 3 {
        assert(evs.drop_first().drop_first()[0] == evs[2]);
    }
    if k >= 1 {
        assert(failing.drop_first()[0] == failing[1]);
    }
    if k >= 2 {
        assert(failing.drop_first().drop_first()[0] == failing[2]);
    }
}

/// Whatever the phase, a failed operation closes the connection, unless it was
/// already closed.
pub proof fn lemma_failure_releases(mode: TeardownMode, p: Phase)
    ensures
        (next_phase(mode, p, Event::Failed) is Closed),
        !(p is Closed) ==> closed_after_failure(next_phase(mode, p, Event::Failed)),
{
}

/// The sum of the lengths.
pub open spec fn total(lens: Seq<usize>) -> nat
    decreases lens.len(),
{
    if lens.len() == 0 {
        0
    } else {
        (lens[0] + total(lens.drop_first())) as nat
    }
}

/// Reads that returned the given numbers of bytes while draining.
pub open spec fn drain_reads(lens: Seq<usize>) -> Seq<Event> {
    lens.map_values(|n: usize| Event::DrainRead { len: n })
}

/// Draining counts every byte it discards: reads of `lens` bytes add their
/// sum to the count, and the end of the stream then releases the connection
/// reporting that count.
pub proof fn lemma_drain_counts_all(mode: TeardownMode, drained: u64, lens: Seq<usize>)
    requires
        forall|i: int| 0 <= i < lens.len() ==> lens[i] > 0,
        drained + total(lens) <= u64::MAX,
    ensures
        replay(mode, (Phase::Draining { drained }), drain_reads(lens)) == (Phase::Draining {
            drained: (drained + total(lens)) as u64,
        }),
        replay(mode, (Phase::Draining { drained }), drain_reads(lens).push((Event::DrainRead { len: 0 })))
            == (Phase::Closed {
            outcome: Outcome::ReleasedAfterDrain { drained: (drained + total(lens)) as u64 },
        }),
    decreases lens.len(),
{
    let end = seq![Event::DrainRead { len: 0 }];
    assert(drain_reads(lens).push(Event::DrainRead { len: 0 }) =~= drain_reads(lens) + end);
    lemma_run_concat(mode, Phase::Draining { drained }, drain_reads(lens), end);
    if lens.len() > 0 {
        let reads = drain_reads(lens);
        let next = (drained + lens[0]) as u64;
        assert(reads.drop_first() =~= drain_reads(lens.drop_first()));
        assert(reads[0] == Event::DrainRead { len: lens[0] });
        assert(next_phase(mode, Phase::Draining { drained }, reads[0]) == Phase::Draining { drained: next });
        assert forall|i: int| 0 <= i < lens.drop_first().len() implies lens.drop_first()[i] > 0 by {
            assert(lens.drop_first()[i] == lens[i + 1]);
        }
        lemma_drain_counts_all(mode, next, lens.drop_first());
        assert(replay(mode, Phase::Draining { drained }, reads) == replay(
            mode,
            Phase::Draining { drained: next },
            drain_reads(lens.drop_first()),
        ));
    } else {
        assert(drain_reads(lens) =~= Seq::<Event>::empty());
    }
    assert(end.drop_first() =~= Seq::<Event>::empty());
    let last = Phase::Draining { drained: (drained + total(lens)) as u64 };
    let closed = next_phase(mode, last, end[0]);
    assert(replay(mode, closed, end.drop_first()) == closed);
}

/// The events that lead from the captured odd value to draining.
pub open spec fn before_drain(mode: TeardownMode) -> Seq<Event> {
    if mode == TeardownMode::ShutdownWriteThenDrain {
        seq![Event::EchoWritten, Event::ShutdownDone]
    } else {
        seq![Event::EchoWritten]
    }
}

/// In the two draining modes, a peer that sends bytes in reads of `lens`
/// after the echo and then ends its stream gets a connection released with
/// exactly their sum reported as drained.
pub proof fn lemma_drain_round_trip(mode: TeardownMode, value: u32, lens: Seq<usize>)
    requires
        mode == TeardownMode::DrainThenClose || mode == TeardownMode::ShutdownWriteThenDrain,
        forall|i: int| 0 <= i < lens.len() ==> lens[i] > 0,
        total(lens) <= u64::MAX,
    ensures
        replay(
            mode,
            (Phase::Echoing { value }),
            before_drain(mode) + drain_reads(lens).push((Event::DrainRead { len: 0 })),
        ) == (Phase::Closed { outcome: Outcome::ReleasedAfterDrain { drained: total(lens) as u64 } }),
{
    reveal_with_fuel(replay, 3);
    let pre = before_drain(mode);
    lemma_run_concat(mode, Phase::Echoing { value }, pre, drain_reads(lens).push(Event::DrainRead { len: 0 }));
    if pre.len() == 2 {
        assert(pre.drop_first()[0] == Event::ShutdownDone);
    }
    assert(replay(mode, Phase::Echoing { value }, pre) == Phase::Draining { drained: 0 });
    lemma_drain_counts_all(mode, 0, lens);
}

/// The phases that the close-after-shutdown modes pass through after the echo.
pub open spec fn without_drain(p: Phase) -> bool {
    match p {
        Phase::Echoing { .. } => true,
        Phase::ShuttingDown { .. } => true,
        Phase::Closed { outcome } => !(outcome is ReleasedAfterDrain),
        _ => false,
    }
}

proof fn lemma_without_drain_kept(mode: TeardownMode, p: Phase, events: Seq<Event>)
    requires
        mode == TeardownMode::ShutdownWriteThenClose || mode == TeardownMode::ShutdownBothThenClose,
        without_drain(p),
    ensures
        without_drain(replay(mode, p, events)),
    decreases events.len(),
{
    if events.len() > 0 {
        lemma_without_drain_kept(mode, next_phase(mode, p, events[0]), events.drop_first());
    }
}

/// In the modes that close after a half-close, the write side (or both sides)
/// is shut once the echo is written, the connection is released as soon as
/// the shutdown returns, and no draining happens on any path.
pub proof fn lemma_shutdown_modes_never_drain(mode: TeardownMode, value: u32, events: Seq<Event>)
    requires
        mode == TeardownMode::ShutdownWriteThenClose || mode == TeardownMode::ShutdownBothThenClose,
    ensures
        without_drain(replay(mode, (Phase::Echoing { value }), events)),
        replay(mode, (Phase::Echoing { value }), seq![Event::EchoWritten]) == (Phase::ShuttingDown {
            how: if mode == TeardownMode::ShutdownBothThenClose {
                ShutdownHow::Both
            } else {
                ShutdownHow::Write
            },
        }),
        replay(mode, (Phase::Echoing { value }), seq![Event::EchoWritten, Event::ShutdownDone])
            == (Phase::Closed { outcome: Outcome::Released }),
{
    reveal_with_fuel(replay, 3);
    lemma_without_drain_kept(mode, Phase::Echoing { value }, events);
    assert(seq![Event::EchoWritten, Event::ShutdownDone].drop_first()[0] == Event::ShutdownDone);
}

/// The phase holds no even value to echo.
pub open spec fn echoes_odd(p: Phase) -> bool {
    match p {
        Phase::Echoing { value } => value % 2 == 1,
        _ => true,
    }
}

/// No even value is ever echoed: from a phase with no even value to echo,
/// every sequence of events leads to such a phase.
pub proof fn lemma_never_echoes_even(mode: TeardownMode, p: Phase, events: Seq<Event>)
    requires
        echoes_odd(p),
    ensures
        echoes_odd(replay(mode, p, events)),
    decreases events.len(),
{
    if events.len() > 0 {
        let q = next_phase(mode, p, events[0]);
        match events[0] {
            Event::FrameRead { frame } => {
                if p is Scanning && frame_value(frame@) % 2 != 0 {
                    lemma_frame_bytes_of_value(frame@);
                }
            },
            _ => {},
        }
        lemma_never_echoes_even(mode, q, events.drop_first());
    }
}

/// `a` writes the frame `b` back.
pub open spec fn echoes_frame(a: Action, b: Seq<u8>) -> bool {
    match a {
        Action::WriteEcho { frame } => frame@ == b,
        _ => false,
    }
}

/// Reads of the given frames while scanning.
pub open spec fn frame_reads(frames: Seq<[u8; 4]>) -> Seq<Event> {
    frames.map_values(|f: [u8; 4]| Event::FrameRead { frame: f })
}

/// Scanning skips leading even values and captures the first odd one; the
/// echo it then asks for is that frame, byte for byte.
pub proof fn lemma_scan_echoes_first_odd(mode: TeardownMode, frames: Seq<[u8; 4]>)
    requires
        frames.len() > 0,
        forall|i: int| 0 <= i < frames.len() - 1 ==> frame_value(#[trigger] frames[i]@) % 2 == 0,
        frame_value(frames.last()@) % 2 == 1,
    ensures
        replay(mode, Phase::Scanning, frame_reads(frames)) == (Phase::Echoing {
            value: frame_value(frames.last()@) as u32,
        }),
        forall|a: Action|
            action_of(replay(mode, Phase::Scanning, frame_reads(frames)), a) ==> echoes_frame(
                a,
                frames.last()@,
            ),
    decreases frames.len(),
{
    lemma_frame_bytes_of_value(frames.last()@);
    assert(frame_reads(frames)[0] == Event::FrameRead { frame: frames[0] });
    assert(frame_reads(frames).drop_first() =~= frame_reads(frames.drop_first()));
    let reads = frame_reads(frames);
    if frames.len() == 1 {
        assert(reads.drop_first().len() == 0);
        assert(frames[0] == frames.last());
        let q = next_phase(mode, Phase::Scanning, reads[0]);
        assert(replay(mode, q, reads.drop_first()) == q);
    } else {
        assert(frame_value(frames[0]@) % 2 == 0);
        assert(replay(mode, Phase::Scanning, reads) == replay(mode, Phase::Scanning, frame_reads(frames.drop_first())));
        assert(frames.drop_first().last() == frames.last());
        assert forall|i: int| 0 <= i < frames.drop_first().len() - 1 implies frame_value(
            #[trigger] frames.drop_first()[i]@,
        ) % 2 == 0 by {
            assert(frames.drop_first()[i] == frames[i + 1]);
        }
        lemma_scan_echoes_first_odd(mode, frames.drop_first());
    }
}

/// One accepted connection's handler: scans for the first odd value, echoes
/// it, tears the connection down as its mode says, and asks for the release.
pub struct ConnHandler {
    pub mode: TeardownMode,
    pub phase: Phase,
}

impl ConnHandler {
    /// A handler that starts by scanning.
    pub fn new(mode: TeardownMode) -> (r: ConnHandler)
        ensures
            r.mode == mode,
            r.phase == Phase::Scanning,
    {
        ConnHandler { mode, phase: Phase::Scanning }
    }

    /// The operation to perform next.
    pub fn action(&self) -> (a: Action)
        ensures
            action_of(self.phase, a),
    {
        match self.phase {
            Phase::Scanning => Action::ReadFrame,
            Phase::Echoing { value } => Action::WriteEcho { frame: encode_frame(value) },
            Phase::ShuttingDown { how } => Action::Shutdown { how },
            Phase::Sleeping => Action::Sleep,
            Phase::Draining { .. } => Action::DrainRead,
            Phase::Closed { .. } => Action::Close,
        }
    }

    /// Takes in the result of the last action.
    pub fn advance(&mut self, event: Event)
        ensures
            final(self).mode == old(self).mode,
            final(self).phase == next_phase(old(self).mode, old(self).phase, event),
    {
        let next = match self.phase {
            Phase::Closed { .. } => self.phase,
            _ => match event {
                Event::Failed => Phase::Closed {
                    outcome: Outcome::Failed { during: Self::stage(self.phase) },
                },
                Event::FrameRead { frame } => match self.phase {
                    Phase::Scanning => {
                        let value = decode_frame(&frame);
                        if value % 2 == 0 {
                            Phase::Scanning
                        } else {
                            Phase::Echoing { value }
                        }
                    },
                    _ => self.phase,
                },
                Event::EchoWritten => match self.phase {
                    Phase::Echoing { .. } => Self::phase_after_echo(self.mode),
                    _ => self.phase,
                },
                Event::ShutdownDone => match self.phase {
                    Phase::ShuttingDown { .. } => {
                        match self.mode {
                            TeardownMode::ShutdownWriteThenDrain => Phase::Draining { drained: 0 },
                            _ => Phase::Closed { outcome: Outcome::Released },
                        }
                    },
                    _ => self.phase,
                },
                Event::Slept => match self.phase {
                    Phase::Sleeping => Phase::Closed { outcome: Outcome::Released },
                    _ => self.phase,
                },
                Event::DrainRead { len } => match self.phase {
                    Phase::Draining { drained } => {
                        if len == 0 {
                            Phase::Closed { outcome: Outcome::ReleasedAfterDrain { drained } }
                        } else if len as u64 <= u64::MAX - drained {
                            Phase::Draining { drained: drained + len as u64 }
                        } else {
                            Phase::Draining { drained: u64::MAX }
                        }
                    },
                    _ => self.phase,
                },
            },
        };
        self.phase = next;
    }

    fn stage(p: Phase) -> (r: Stage)
        ensures
            r == stage_of(p),
    {
        match p {
            Phase::Scanning => Stage::Scanning,
            Phase::Echoing { .. } => Stage::Echoing,
            Phase::ShuttingDown { .. } => Stage::ShuttingDown,
            Phase::Sleeping => Stage::Sleeping,
            _ => Stage::Draining,
        }
    }

    fn phase_after_echo(mode: TeardownMode) -> (r: Phase)
        ensures
            r == after_echo(mode),
    {
        match mode {
            TeardownMode::CloseImmediately => Phase::Closed { outcome: Outcome::Released },
            TeardownMode::SleepThenClose => Phase::Sleeping,
            TeardownMode::DrainThenClose => Phase::Draining { drained: 0 },
            TeardownMode::ShutdownWriteThenDrain => Phase::ShuttingDown { how: ShutdownHow::Write },
            TeardownMode::ShutdownWriteThenClose => Phase::ShuttingDown { how: ShutdownHow::Write },
            TeardownMode::ShutdownBothThenClose => Phase::ShuttingDown { how: ShutdownHow::Both },
        }
    }

    /// How the connection ended; `None` while it is still open.
    pub fn outcome(&self) -> (r: Option<Outcome>)
        ensures
            r == (match self.phase {
                Phase::Closed { outcome } => Some(outcome),
                _ => None,
            }),
    {
        match self.phase {
            Phase::Closed { outcome } => Some(outcome),
            _ => None,
        }
    }
}

} // verus!
