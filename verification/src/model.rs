//! Abstract model of the handoff protocol.
//!
//! The model state records where the single receive buffer lives (armed in
//! hardware, or parked in the shared slot), the ready flag, the application
//! read window, and — as history — every byte the hardware ever delivered
//! and every byte the application consumed.  Each driver operation refines
//! one `step` of this model, and `inv` is proved inductive over every
//! sequence of interrupt/poll interleavings, which establishes at once:
//! single ownership of the buffer, "ready implies the slot is populated",
//! and loss- and duplication-free, order-preserving transport of bytes.

use vstd::prelude::*;

use crate::{RING_CAPACITY, RING_RESERVED, WINDOW_CAPACITY};

verus! {

/// The protocol state, abstracted to plain mathematical values.
#[verifier::ext_equal]
pub ghost struct ModelState {
    /// Bytes received so far into the buffer armed in hardware;
    /// `None` when no receive is in flight.
    pub armed: Option<Seq<u8>>,
    /// Bytes held by the shared slot awaiting collection by `poll`;
    /// `None` when the slot is empty.
    pub slot: Option<Seq<u8>>,
    /// The ready flag: the interrupt handler raised it after filling the slot.
    pub ready: bool,
    /// Fatal Halt was reached; no further state change is observable.
    pub halted: bool,
    /// The hardware will refuse the next start-receive command.
    pub arm_refused: bool,
    /// The application read window: valid, unconsumed bytes, oldest first.
    pub window: Seq<u8>,
    /// Bytes the application already consumed, oldest first.
    pub taken: Seq<u8>,
    /// Every byte the hardware ever delivered, oldest first.
    pub delivered: Seq<u8>,
}

/// One observable occurrence in either execution context.
pub ghost enum Event {
    /// The DMA engine stores one incoming byte into the armed buffer.
    Deliver(u8),
    /// The completion interrupt fires and the handler runs.
    Complete,
    /// The application's main loop calls `poll`.
    Poll,
    /// The application consumes a prefix of the read window.
    Consume(nat),
    /// The application discards the whole read window.
    Clear,
    /// The hardware is made to refuse the next start-receive command.
    RefuseArm,
}

/// The bytes a buffer location holds, or none when the location is empty.
pub open spec fn opt_bytes(o: Option<Seq<u8>>) -> Seq<u8> {
    match o {
        Some(bytes) => bytes,
        None => Seq::empty(),
    }
}

/// The smaller of a requested count and an available length.
pub open spec fn clamped(count: nat, len: nat) -> nat {
    if count < len {
        count
    } else {
        len
    }
}

/// The protocol invariant.  Until Fatal Halt:
/// - the buffer is owned by exactly one of {armed in hardware, shared slot};
/// - the ready flag is raised only while the slot is populated;
/// - the delivery history is exactly the consumed bytes, then the window,
///   then the slot's bytes, then the armed buffer's bytes — so no byte is
///   lost, duplicated, or reordered on its way to the application;
/// - every location respects its fixed capacity.
pub open spec fn inv(s: ModelState) -> bool {
    s.halted || {
        &&& (s.armed is Some) != (s.slot is Some)
        &&& (s.ready ==> s.slot is Some)
        &&& s.delivered == s.taken + s.window + opt_bytes(s.slot) + opt_bytes(s.armed)
        &&& s.window.len() <= WINDOW_CAPACITY
        &&& opt_bytes(s.armed).len() <= RING_CAPACITY - RING_RESERVED
        &&& opt_bytes(s.slot).len() <= RING_CAPACITY - RING_RESERVED
    }
}

/// The state right after construction: an empty buffer armed in hardware,
/// everything else empty and lowered.
pub open spec fn init(s: ModelState) -> bool {
    &&& s.armed == Some(Seq::<u8>::empty())
    &&& s.slot is None
    &&& !s.ready
    &&& !s.halted
    &&& !s.arm_refused
    &&& s.window == Seq::<u8>::empty()
    &&& s.taken == Seq::<u8>::empty()
    &&& s.delivered == Seq::<u8>::empty()
}

/// The DMA engine stores one byte, if a buffer is armed and its usable
/// region has room; otherwise the byte is not accepted.
pub open spec fn step_deliver(s: ModelState, byte: u8) -> ModelState {
    match s.armed {
        Some(bytes) => {
            if bytes.len() < RING_CAPACITY - RING_RESERVED {
                ModelState {
                    armed: Some(bytes.push(byte)),
                    delivered: s.delivered.push(byte),
                    ..s
                }
            } else {
                s
            }
        },
        None => s,
    }
}

/// The completion interrupt: with a receive in flight, the handler moves
/// the filled buffer into the shared slot and raises the ready flag.  With
/// none in flight the signal belongs to another source on the shared line
/// and is ignored.
pub open spec fn step_complete(s: ModelState) -> ModelState {
    match s.armed {
        Some(bytes) => ModelState { armed: None, slot: Some(bytes), ready: true, ..s },
        None => s,
    }
}

/// The drain path.  With the ready flag down, nothing happens.  Otherwise
/// the flag is lowered, the buffer is taken out of the slot, its bytes are
/// appended to the read window, and the buffer is re-armed.  Fatal Halt if
/// the slot is unexpectedly empty, if the window would overflow, or if the
/// hardware refuses the re-arm.
pub open spec fn step_poll(s: ModelState) -> ModelState {
    if !s.ready {
        s
    } else {
        match s.slot {
            None => ModelState { ready: false, halted: true, ..s },
            Some(bytes) => {
                if s.window.len() + bytes.len() > WINDOW_CAPACITY {
                    ModelState { ready: false, slot: None, halted: true, ..s }
                } else if s.arm_refused {
                    ModelState {
                        ready: false,
                        slot: None,
                        window: s.window + bytes,
                        halted: true,
                        ..s
                    }
                } else {
                    ModelState {
                        ready: false,
                        slot: None,
                        window: s.window + bytes,
                        armed: Some(Seq::empty()),
                        ..s
                    }
                }
            },
        }
    }
}

/// The application removes the first `count` window bytes, clamped to the
/// available length.
pub open spec fn step_consume(s: ModelState, count: nat) -> ModelState {
    let c = clamped(count, s.window.len());
    ModelState {
        window: s.window.skip(c as int),
        taken: s.taken + s.window.take(c as int),
        ..s
    }
}

/// The application discards the whole read window.
pub open spec fn step_clear(s: ModelState) -> ModelState {
    ModelState { window: Seq::empty(), taken: s.taken + s.window, ..s }
}

/// The hardware is made to refuse the next start-receive command.
pub open spec fn step_refuse_arm(s: ModelState) -> ModelState {
    ModelState { arm_refused: true, ..s }
}

/// One protocol step.  After Fatal Halt no event changes the state.
pub open spec fn step(s: ModelState, e: Event) -> ModelState {
    if s.halted {
        s
    } else {
        match e {
            Event::Deliver(byte) => step_deliver(s, byte),
            Event::Complete => step_complete(s),
            Event::Poll => step_poll(s),
            Event::Consume(count) => step_consume(s, count),
            Event::Clear => step_clear(s),
            Event::RefuseArm => step_refuse_arm(s),
        }
    }
}

/// The state after a whole sequence of events, oldest first.
pub open spec fn run(s: ModelState, evs: Seq<Event>) -> ModelState
    decreases evs.len(),
{
    if evs.len() == 0 {
        s
    } else {
        step(run(s, evs.drop_last()), evs.last())
    }
}

/// The initial state satisfies the protocol invariant.
pub proof fn lemma_init_inv(s: ModelState)
    requires
        init(s),
    ensures
        inv(s),
{
    assert(s.delivered =~= s.taken + s.window + opt_bytes(s.slot) + opt_bytes(s.armed));
}

/// Every single event preserves the protocol invariant.
pub proof fn lemma_step_inv(s: ModelState, e: Event)
    requires
        inv(s),
    ensures
        inv(step(s, e)),
{
    if !s.halted {
        match e {
            Event::Deliver(byte) => {
                if s.armed is Some {
                    let bytes = opt_bytes(s.armed);
                    if bytes.len() < RING_CAPACITY - RING_RESERVED {
                        assert(s.delivered.push(byte) =~= s.taken + s.window + opt_bytes(s.slot)
                            + opt_bytes(Some(bytes.push(byte))));
                    }
                }
            },
            Event::Complete => {
                if s.armed is Some {
                    let bytes = opt_bytes(s.armed);
                    assert(s.delivered =~= s.taken + s.window + opt_bytes(Some(bytes))
                        + opt_bytes(None::<Seq<u8>>));
                }
            },
            Event::Poll => {
                if s.ready && s.slot is Some {
                    let bytes = opt_bytes(s.slot);
                    if s.window.len() + bytes.len() <= WINDOW_CAPACITY && !s.arm_refused {
                        assert(s.delivered =~= s.taken + (s.window + bytes)
                            + opt_bytes(None::<Seq<u8>>) + opt_bytes(Some(Seq::<u8>::empty())));
                    }
                }
            },
            Event::Consume(count) => {
                let c = clamped(count, s.window.len()) as int;
                assert(s.delivered =~= (s.taken + s.window.take(c)) + s.window.skip(c)
                    + opt_bytes(s.slot) + opt_bytes(s.armed));
            },
            Event::Clear => {
                assert(s.delivered =~= (s.taken + s.window) + Seq::<u8>::empty()
                    + opt_bytes(s.slot) + opt_bytes(s.armed));
            },
            Event::RefuseArm => {},
        }
    }
}

/// The protocol invariant holds after every sequence of interleavings.
pub proof fn lemma_run_inv(s: ModelState, evs: Seq<Event>)
    requires
        inv(s),
    ensures
        inv(run(s, evs)),
    decreases evs.len(),
{
    if evs.len() > 0 {
        lemma_run_inv(s, evs.drop_last());
        lemma_step_inv(run(s, evs.drop_last()), evs.last());
    }
}

/// Single ownership: under every sequence of interrupt/poll interleavings,
/// until Fatal Halt, the receive buffer is owned by exactly one of
/// {armed in hardware, shared slot} — never by two, never by none.
pub proof fn lemma_single_owner(s: ModelState, evs: Seq<Event>)
    requires
        init(s),
    ensures
        !run(s, evs).halted ==> ((run(s, evs).armed is Some) != (run(s, evs).slot is Some)),
{
    lemma_init_inv(s);
    lemma_run_inv(s, evs);
}

/// Acquire/release correctness: under every sequence of interleavings,
/// whenever `poll` observes the ready flag raised, the shared slot is
/// populated at that instant.
pub proof fn lemma_ready_implies_slot(s: ModelState, evs: Seq<Event>)
    requires
        init(s),
    ensures
        !run(s, evs).halted && run(s, evs).ready ==> run(s, evs).slot is Some,
{
    lemma_init_inv(s);
    lemma_run_inv(s, evs);
}

/// Round trip: under every sequence of interleavings, until Fatal Halt, the
/// delivery history is exactly the consumed bytes, then the read window,
/// then the bytes still in flight (slot, then armed buffer) — bytes reach
/// `get_buffer` in completion order with no duplication and no loss.
pub proof fn lemma_round_trip(s: ModelState, evs: Seq<Event>)
    requires
        init(s),
    ensures
        !run(s, evs).halted ==> run(s, evs).delivered == run(s, evs).taken + run(s, evs).window
            + opt_bytes(run(s, evs).slot) + opt_bytes(run(s, evs).armed),
{
    lemma_init_inv(s);
    lemma_run_inv(s, evs);
}

/// Consuming is idempotent at zero: a `Consume(0)` event changes nothing.
pub proof fn lemma_consume_zero(s: ModelState)
    ensures
        step_consume(s, 0) == s,
{
    assert(s.window.skip(0) =~= s.window);
    assert(s.taken + s.window.take(0) =~= s.taken);
    assert(step_consume(s, 0) =~= s);
}

/// Consuming twice with the same count is safe and clamps to the available
/// length: the window ends up as if the two counts had been consumed at
/// once, clamped to what was there.
pub proof fn lemma_consume_twice(s: ModelState, count: nat)
    ensures
        step_consume(step_consume(s, count), count).window == s.window.skip(
            clamped(2 * count, s.window.len()) as int,
        ),
{
    let c1 = clamped(count, s.window.len()) as int;
    let w1 = s.window.skip(c1);
    let c2 = clamped(count, w1.len()) as int;
    assert(w1.skip(c2) =~= s.window.skip(clamped(2 * count, s.window.len()) as int));
}

} // verus!
