//! Model of the transport relay: one live duplex connection, two bounded
//! queues, and two forwarding loops that co-terminate.
//!
//! The relay here is the decision core: every step of each loop is a
//! function from state and event to next state and action. The surrounding
//! program owns the real connection; it reads a frame and hands it to
//! [`Relay::recv_step`], asks [`Relay::send_step`] what to write next, and
//! performs the returned action. The caller pushes with
//! [`Relay::push_outbound`] and polls with [`Relay::poll_inbound`], which
//! never blocks.

use vstd::prelude::*;

use crate::codec::{decode, encode, spec_decode, spec_encode_send};
use crate::messages::{DecodeError, RecvMessage, RecvMessageView, SendMessage, SendMessageView};

verus! {

/// Mathematical state of a relay: the two queues, the frames written so
/// far, every outbound message ever accepted, and the termination flags.
#[verifier::ext_equal]
pub struct RelayView {
    /// Capacity of the outbound queue.
    pub out_cap: nat,
    /// Capacity of the inbound queue.
    pub in_cap: nat,
    /// Outbound queue, oldest first.
    pub outbound: Seq<SendMessageView>,
    /// Inbound queue, oldest first.
    pub inbound: Seq<RecvMessageView>,
    /// Payloads written to the connection, oldest first.
    pub sent: Seq<Seq<char>>,
    /// Every outbound message the queue ever accepted, oldest first.
    pub pushed: Seq<SendMessageView>,
    /// Every inbound message ever decoded and queued, in wire order.
    pub arrived: Seq<RecvMessageView>,
    /// Every inbound message the caller has polled out, oldest first.
    pub handed: Seq<RecvMessageView>,
    /// The shared termination signal: the connection is closed or closing.
    pub closed: bool,
    /// The receive loop has terminated.
    pub recv_done: bool,
    /// The send loop has terminated.
    pub send_done: bool,
    /// The caller dropped its sending end of the outbound queue.
    pub caller_closed: bool,
}

/// What pushing onto the outbound queue came to.
#[derive(Clone, Copy, Debug, PartialEq, Eq, Structural)]
pub enum PushOutcome {
    /// The message sits at the back of the queue.
    Accepted,
    /// The queue is at capacity: the caller must wait for the send loop to
    /// drain a slot. Nothing was dropped.
    Full,
    /// The relay is gone; the message cannot be sent.
    Closed,
}

/// One step of the send loop, as the surrounding program must perform it.
#[derive(Debug, PartialEq)]
pub enum SendStep {
    /// Write this payload to the connection before pulling the next one.
    Wrote(String),
    /// The queue is empty: suspend until a message arrives.
    Idle,
    /// The loop is over: close the connection if it still stands.
    Stopped,
}

/// Mathematical value of a send-loop step.
#[verifier::ext_equal]
pub enum SendStepView {
    Wrote(Seq<char>),
    Idle,
    Stopped,
}

impl View for SendStep {
    type V = SendStepView;

    open spec fn view(&self) -> SendStepView {
        match self {
            SendStep::Wrote(f) => SendStepView::Wrote(f@),
            SendStep::Idle => SendStepView::Idle,
            SendStep::Stopped => SendStepView::Stopped,
        }
    }
}

/// What the receive loop read off the connection.
#[derive(Debug, PartialEq)]
pub enum RecvEvent {
    /// A text frame with this payload.
    Text(String),
    /// A frame of another kind.
    NotText,
    /// The remote side closed the connection.
    Closed,
    /// Reading failed.
    Failed,
}

/// Mathematical value of a receive event.
#[verifier::ext_equal]
pub enum RecvEventView {
    Text(Seq<char>),
    NotText,
    Closed,
    Failed,
}

impl View for RecvEvent {
    type V = RecvEventView;

    open spec fn view(&self) -> RecvEventView {
        match self {
            RecvEvent::Text(f) => RecvEventView::Text(f@),
            RecvEvent::NotText => RecvEventView::NotText,
            RecvEvent::Closed => RecvEventView::Closed,
            RecvEvent::Failed => RecvEventView::Failed,
        }
    }
}

/// One step of the receive loop.
#[derive(Clone, Copy, Debug, PartialEq, Eq, Structural)]
pub enum RecvOutcome {
    /// The frame decoded and the message sits in the inbound queue.
    Delivered,
    /// The frame was unusable; it was reported and dropped, and the loop
    /// goes on.
    Dropped(DecodeError),
    /// The inbound queue is full: hand the same event back once the caller
    /// has drained a slot.
    Blocked,
    /// The loop is over.
    Stopped,
}

/// What a non-blocking poll of the inbound queue came to.
#[derive(Debug, PartialEq)]
pub enum PollResult {
    /// The oldest undelivered inbound message.
    Msg(RecvMessage),
    /// Nothing waiting; the connection still stands.
    Empty,
    /// Nothing waiting and the relay is gone: end of stream.
    Closed,
}

/// Mathematical value of a poll.
#[verifier::ext_equal]
pub enum PollView {
    Msg(RecvMessageView),
    Empty,
    Closed,
}

impl View for PollResult {
    type V = PollView;

    open spec fn view(&self) -> PollView {
        match self {
            PollResult::Msg(m) => PollView::Msg(m@),
            PollResult::Empty => PollView::Empty,
            PollResult::Closed => PollView::Closed,
        }
    }
}

// ---------------------------------------------------------------------------
// Spec transitions
// ---------------------------------------------------------------------------

/// A fresh relay over a just-established connection.
pub open spec fn spec_start(out_cap: nat, in_cap: nat) -> RelayView {
    RelayView {
        out_cap,
        in_cap,
        outbound: Seq::empty(),
        inbound: Seq::empty(),
        sent: Seq::empty(),
        pushed: Seq::empty(),
        arrived: Seq::empty(),
        handed: Seq::empty(),
        closed: false,
        recv_done: false,
        send_done: false,
        caller_closed: false,
    }
}

pub open spec fn spec_push(v: RelayView, m: SendMessageView) -> (RelayView, PushOutcome) {
    if v.send_done || v.caller_closed {
        (v, PushOutcome::Closed)
    } else if v.outbound.len() == v.out_cap {
        (v, PushOutcome::Full)
    } else {
        (
            RelayView { outbound: v.outbound.push(m), pushed: v.pushed.push(m), ..v },
            PushOutcome::Accepted,
        )
    }
}

pub open spec fn spec_send_step(v: RelayView) -> (RelayView, SendStepView) {
    if v.send_done {
        (v, SendStepView::Stopped)
    } else if v.closed {
        (RelayView { send_done: true, ..v }, SendStepView::Stopped)
    } else if v.outbound.len() > 0 {
        let f = spec_encode_send(v.outbound[0]);
        (
            RelayView { outbound: v.outbound.drop_first(), sent: v.sent.push(f), ..v },
            SendStepView::Wrote(f),
        )
    } else if v.caller_closed {
        (RelayView { send_done: true, closed: true, ..v }, SendStepView::Stopped)
    } else {
        (v, SendStepView::Idle)
    }
}

pub open spec fn spec_recv_step(v: RelayView, ev: RecvEventView) -> (RelayView, RecvOutcome) {
    if v.recv_done {
        (v, RecvOutcome::Stopped)
    } else if v.closed {
        (RelayView { recv_done: true, ..v }, RecvOutcome::Stopped)
    } else {
        match ev {
            RecvEventView::Text(f) => match spec_decode(f) {
                Ok(mv) => if v.inbound.len() < v.in_cap {
                    (
                        RelayView {
                            inbound: v.inbound.push(mv),
                            arrived: v.arrived.push(mv),
                            ..v
                        },
                        RecvOutcome::Delivered,
                    )
                } else {
                    (v, RecvOutcome::Blocked)
                },
                Err(e) => (v, RecvOutcome::Dropped(e)),
            },
            RecvEventView::NotText => (v, RecvOutcome::Dropped(DecodeError::NotText)),
            RecvEventView::Closed => (
                RelayView { recv_done: true, closed: true, ..v },
                RecvOutcome::Stopped,
            ),
            RecvEventView::Failed => (
                RelayView { recv_done: true, closed: true, ..v },
                RecvOutcome::Stopped,
            ),
        }
    }
}

pub open spec fn spec_poll(v: RelayView) -> (RelayView, PollView) {
    if v.inbound.len() > 0 {
        (
            RelayView {
                inbound: v.inbound.drop_first(),
                handed: v.handed.push(v.inbound[0]),
                ..v
            },
            PollView::Msg(v.inbound[0]),
        )
    } else if v.recv_done {
        (v, PollView::Closed)
    } else {
        (v, PollView::Empty)
    }
}

pub open spec fn spec_close_outbound(v: RelayView) -> RelayView {
    RelayView { caller_closed: true, ..v }
}

pub open spec fn spec_write_failed(v: RelayView) -> RelayView {
    RelayView { closed: true, send_done: true, ..v }
}

// ---------------------------------------------------------------------------
// The executable relay core
// ---------------------------------------------------------------------------

/// The relay's state, as the surrounding program drives it.
pub struct Relay {
    out_cap: usize,
    in_cap: usize,
    outbound: Vec<SendMessage>,
    inbound: Vec<RecvMessage>,
    sent: Ghost<Seq<Seq<char>>>,
    pushed: Ghost<Seq<SendMessageView>>,
    arrived: Ghost<Seq<RecvMessageView>>,
    handed: Ghost<Seq<RecvMessageView>>,
    closed: bool,
    recv_done: bool,
    send_done: bool,
    caller_closed: bool,
}

impl View for Relay {
    type V = RelayView;

    closed spec fn view(&self) -> RelayView {
        RelayView {
            out_cap: self.out_cap as nat,
            in_cap: self.in_cap as nat,
            outbound: self.outbound@.map_values(|m: SendMessage| m@),
            inbound: self.inbound@.map_values(|m: RecvMessage| m@),
            sent: self.sent@,
            pushed: self.pushed@,
            arrived: self.arrived@,
            handed: self.handed@,
            closed: self.closed,
            recv_done: self.recv_done,
            send_done: self.send_done,
            caller_closed: self.caller_closed,
        }
    }
}

impl Relay {
    /// Take up a just-established connection: both queues empty, both loops
    /// running. The connection itself stays with the surrounding program,
    /// which must not touch it other than on this relay's instructions.
    pub fn start(out_cap: usize, in_cap: usize) -> (r: Relay)
        requires
            1 <= out_cap,
            1 <= in_cap,
        ensures
            r@ == spec_start(out_cap as nat, in_cap as nat),
    {
        let r = Relay {
            out_cap,
            in_cap,
            outbound: Vec::new(),
            inbound: Vec::new(),
            sent: Ghost(Seq::empty()),
            pushed: Ghost(Seq::empty()),
            arrived: Ghost(Seq::empty()),
            handed: Ghost(Seq::empty()),
            closed: false,
            recv_done: false,
            send_done: false,
            caller_closed: false,
        };
        proof {
            assert(r@ =~= spec_start(out_cap as nat, in_cap as nat));
        }
        r
    }

    /// Caller side: offer an outbound message. `Full` means the queue is at
    /// capacity and the caller must wait for the send loop to drain a slot;
    /// nothing is dropped or reordered. `Closed` means the relay is gone or
    /// the caller already hung up.
    pub fn push_outbound(&mut self, m: SendMessage) -> (r: PushOutcome)
        ensures
            final(self)@ == spec_push(old(self)@, m@).0,
            r == spec_push(old(self)@, m@).1,
    {
        if self.send_done || self.caller_closed {
            return PushOutcome::Closed;
        }
        if self.outbound.len() == self.out_cap {
            return PushOutcome::Full;
        }
        let ghost mv = m@;
        proof {
            self.pushed@ = self.pushed@.push(mv);
        }
        self.outbound.push(m);
        proof {
            assert(self@.outbound =~= spec_push(old(self)@, mv).0.outbound);
            assert(self@ =~= spec_push(old(self)@, mv).0);
        }
        PushOutcome::Accepted
    }

    /// Caller side: drop the sending end. The send loop will drain what is
    /// queued, then stop and close the connection.
    pub fn close_outbound(&mut self)
        ensures
            final(self)@ == spec_close_outbound(old(self)@),
    {
        self.caller_closed = true;
        proof {
            assert(self@ =~= spec_close_outbound(old(self)@));
        }
    }

    /// One iteration of the send loop. On `Wrote`, the surrounding program
    /// must write the payload to the connection, fully, before the next
    /// iteration; that keeps the wire order equal to the push order.
    pub fn send_step(&mut self) -> (r: SendStep)
        ensures
            final(self)@ == spec_send_step(old(self)@).0,
            r@ == spec_send_step(old(self)@).1,
    {
        if self.send_done {
            return SendStep::Stopped;
        }
        if self.closed {
            self.send_done = true;
            proof {
                assert(self@ =~= spec_send_step(old(self)@).0);
            }
            return SendStep::Stopped;
        }
        if self.outbound.len() > 0 {
            let m = self.outbound.remove(0);
            let f = encode(&m);
            proof {
                self.sent@ = self.sent@.push(f@);
                assert(self@.outbound =~= spec_send_step(old(self)@).0.outbound);
                assert(self@ =~= spec_send_step(old(self)@).0);
            }
            return SendStep::Wrote(f);
        }
        if self.caller_closed {
            self.send_done = true;
            self.closed = true;
            proof {
                assert(self@ =~= spec_send_step(old(self)@).0);
            }
            return SendStep::Stopped;
        }
        SendStep::Idle
    }

    /// One iteration of the receive loop, fed with what came off the
    /// connection. A frame that does not decode is reported and dropped:
    /// the loop keeps running, and the next well-formed frame goes through.
    /// Closure or failure of the connection stops this loop and signals the
    /// send loop through the shared flag.
    pub fn recv_step(&mut self, ev: RecvEvent) -> (r: RecvOutcome)
        ensures
            final(self)@ == spec_recv_step(old(self)@, ev@).0,
            r == spec_recv_step(old(self)@, ev@).1,
    {
        if self.recv_done {
            return RecvOutcome::Stopped;
        }
        if self.closed {
            self.recv_done = true;
            proof {
                assert(self@ =~= spec_recv_step(old(self)@, ev@).0);
            }
            return RecvOutcome::Stopped;
        }
        match ev {
            RecvEvent::Text(f) => match decode(f.as_str()) {
                Ok(m) => {
                    if self.inbound.len() < self.in_cap {
                        proof {
                            self.arrived@ = self.arrived@.push(m@);
                        }
                        self.inbound.push(m);
                        proof {
                            assert(self@.inbound =~= spec_recv_step(old(self)@, ev@).0.inbound);
                            assert(self@ =~= spec_recv_step(old(self)@, ev@).0);
                        }
                        RecvOutcome::Delivered
                    } else {
                        RecvOutcome::Blocked
                    }
                },
                Err(e) => RecvOutcome::Dropped(e),
            },
            RecvEvent::NotText => RecvOutcome::Dropped(DecodeError::NotText),
            RecvEvent::Closed => {
                self.recv_done = true;
                self.closed = true;
                proof {
                    assert(self@ =~= spec_recv_step(old(self)@, ev@).0);
                }
                RecvOutcome::Stopped
            },
            RecvEvent::Failed => {
                self.recv_done = true;
                self.closed = true;
                proof {
                    assert(self@ =~= spec_recv_step(old(self)@, ev@).0);
                }
                RecvOutcome::Stopped
            },
        }
    }

    /// Caller side: a non-blocking poll of the inbound queue. Buffered
    /// messages are handed out even after the connection closed; `Closed`
    /// comes only once the queue is drained and the receive loop is gone.
    pub fn poll_inbound(&mut self) -> (r: PollResult)
        ensures
            final(self)@ == spec_poll(old(self)@).0,
            r@ == spec_poll(old(self)@).1,
    {
        if self.inbound.len() > 0 {
            let m = self.inbound.remove(0);
            proof {
                self.handed@ = self.handed@.push(m@);
                assert(self@.inbound =~= spec_poll(old(self)@).0.inbound);
                assert(self@ =~= spec_poll(old(self)@).0);
            }
            PollResult::Msg(m)
        } else if self.recv_done {
            PollResult::Closed
        } else {
            PollResult::Empty
        }
    }

    /// The surrounding program reports that a connection write failed: the
    /// relay is over, and the receive loop stops at its next step.
    pub fn write_failed(&mut self)
        ensures
            final(self)@ == spec_write_failed(old(self)@),
    {
        self.closed = true;
        self.send_done = true;
        proof {
            assert(self@ =~= spec_write_failed(old(self)@));
        }
    }
}

// ---------------------------------------------------------------------------
// Laws
// ---------------------------------------------------------------------------

/// Everything that holds of every reachable relay state: the queues respect
/// their bounds, and the frames written so far are exactly the encodings of
/// the accepted messages, in push order, with the rest still queued.
pub open spec fn relay_inv(v: RelayView) -> bool {
    &&& 1 <= v.out_cap
    &&& 1 <= v.in_cap
    &&& v.outbound.len() <= v.out_cap
    &&& v.inbound.len() <= v.in_cap
    &&& v.sent.len() + v.outbound.len() == v.pushed.len()
    &&& forall|i: int| 0 <= i < v.sent.len() ==> v.sent[i] == spec_encode_send(v.pushed[i])
    &&& v.outbound =~= v.pushed.skip(v.sent.len() as int)
    &&& v.handed + v.inbound =~= v.arrived
}

/// A fresh relay satisfies the invariant.
pub proof fn lemma_inv_start(out_cap: nat, in_cap: nat)
    requires
        1 <= out_cap,
        1 <= in_cap,
    ensures
        relay_inv(spec_start(out_cap, in_cap)),
{
    assert(spec_start(out_cap, in_cap).outbound =~= spec_start(out_cap, in_cap).pushed.skip(0));
    assert(spec_start(out_cap, in_cap).handed + spec_start(out_cap, in_cap).inbound =~= spec_start(
        out_cap,
        in_cap,
    ).arrived);
}

/// Pushing preserves the invariant.
pub proof fn lemma_inv_push(v: RelayView, m: SendMessageView)
    requires
        relay_inv(v),
    ensures
        relay_inv(spec_push(v, m).0),
{
    let v1 = spec_push(v, m).0;
    assert(v1.outbound =~= v1.pushed.skip(v1.sent.len() as int));
    assert(v1.handed + v1.inbound =~= v1.arrived);
}

/// A send-loop step preserves the invariant.
pub proof fn lemma_inv_send_step(v: RelayView)
    requires
        relay_inv(v),
    ensures
        relay_inv(spec_send_step(v).0),
{
    let v1 = spec_send_step(v).0;
    assert(v1.outbound =~= v1.pushed.skip(v1.sent.len() as int));
    assert(v1.handed + v1.inbound =~= v1.arrived);
}

/// A receive-loop step preserves the invariant.
pub proof fn lemma_inv_recv_step(v: RelayView, ev: RecvEventView)
    requires
        relay_inv(v),
    ensures
        relay_inv(spec_recv_step(v, ev).0),
{
    let v1 = spec_recv_step(v, ev).0;
    assert(v1.outbound =~= v1.pushed.skip(v1.sent.len() as int));
    assert(v1.handed + v1.inbound =~= v1.arrived);
}

/// A poll preserves the invariant.
pub proof fn lemma_inv_poll(v: RelayView)
    requires
        relay_inv(v),
    ensures
        relay_inv(spec_poll(v).0),
{
    let v1 = spec_poll(v).0;
    assert(v1.outbound =~= v1.pushed.skip(v1.sent.len() as int));
    assert(v1.handed + v1.inbound =~= v1.arrived);
}

/// Hanging up and write failure preserve the invariant.
pub proof fn lemma_inv_close(v: RelayView)
    requires
        relay_inv(v),
    ensures
        relay_inv(spec_close_outbound(v)),
        relay_inv(spec_write_failed(v)),
{
    assert(spec_close_outbound(v).outbound =~= spec_close_outbound(v).pushed.skip(
        spec_close_outbound(v).sent.len() as int,
    ));
    assert(spec_write_failed(v).outbound =~= spec_write_failed(v).pushed.skip(
        spec_write_failed(v).sent.len() as int,
    ));
    assert(spec_close_outbound(v).handed + spec_close_outbound(v).inbound =~= spec_close_outbound(
        v,
    ).arrived);
    assert(spec_write_failed(v).handed + spec_write_failed(v).inbound =~= spec_write_failed(
        v,
    ).arrived);
}

/// Order preservation: in every reachable state, the payloads written to
/// the connection are the encodings of the first accepted messages, in the
/// exact order they were pushed, and the messages still queued follow in
/// that same order.
pub proof fn lemma_order_preservation(v: RelayView)
    requires
        relay_inv(v),
    ensures
        v.sent.len() <= v.pushed.len(),
        forall|i: int| 0 <= i < v.sent.len() ==> v.sent[i] == spec_encode_send(v.pushed[i]),
        forall|i: int|
            0 <= i < v.outbound.len() ==> v.outbound[i] == v.pushed[v.sent.len() + i],
{
}

/// Order preservation, inbound: in every reachable state, the messages the
/// caller has polled out are the first messages that arrived off the wire,
/// in arrival order, and the messages still queued follow in that order.
pub proof fn lemma_inbound_order_preservation(v: RelayView)
    requires
        relay_inv(v),
    ensures
        v.handed.len() + v.inbound.len() == v.arrived.len(),
        forall|i: int| 0 <= i < v.handed.len() ==> v.handed[i] == v.arrived[i],
        forall|i: int|
            0 <= i < v.inbound.len() ==> v.inbound[i] == v.arrived[v.handed.len() + i],
{
    assert forall|i: int| 0 <= i < v.handed.len() implies v.handed[i] == v.arrived[i] by {
        assert((v.handed + v.inbound)[i] == v.handed[i]);
    }
    assert forall|i: int| 0 <= i < v.inbound.len() implies v.inbound[i] == v.arrived[v.handed.len()
        + i] by {
        assert((v.handed + v.inbound)[v.handed.len() + i] == v.inbound[i]);
    }
}

/// Backpressure: pushing onto a full queue suspends the caller and changes
/// nothing; one send-loop step drains exactly one slot; the retried push
/// then lands at the back, with nothing dropped or reordered in between.
pub proof fn lemma_backpressure(v: RelayView, m: SendMessageView)
    requires
        relay_inv(v),
        !v.closed,
        !v.send_done,
        !v.caller_closed,
        v.outbound.len() == v.out_cap,
    ensures
        spec_push(v, m) == (v, PushOutcome::Full),
        spec_send_step(v).1 == SendStepView::Wrote(spec_encode_send(v.outbound[0])),
        spec_send_step(v).0.outbound == v.outbound.drop_first(),
        spec_push(spec_send_step(v).0, m).1 == PushOutcome::Accepted,
        spec_push(spec_send_step(v).0, m).0.outbound == v.outbound.drop_first().push(m),
{
}

/// Decode resilience: an unusable frame is dropped and the relay state is
/// untouched; the next well-formed frame is still delivered, in order.
pub proof fn lemma_decode_resilience(v: RelayView, bad: Seq<char>, good: Seq<char>)
    requires
        relay_inv(v),
        !v.closed,
        !v.recv_done,
        v.inbound.len() < v.in_cap,
        spec_decode(bad) is Err,
        spec_decode(good) is Ok,
    ensures
        spec_recv_step(v, RecvEventView::Text(bad)) == (
            v,
            RecvOutcome::Dropped(spec_decode(bad)->Err_0),
        ),
        spec_recv_step(v, RecvEventView::Text(good)).1 == RecvOutcome::Delivered,
        spec_recv_step(v, RecvEventView::Text(good)).0.inbound == v.inbound.push(
            spec_decode(good)->Ok_0,
        ),
        !spec_recv_step(v, RecvEventView::Text(good)).0.recv_done,
        !spec_recv_step(v, RecvEventView::Text(good)).0.closed,
{
}

/// Shutdown propagation: once the remote side closes the connection, the
/// receive loop stops at that very step and raises the shared signal; the
/// send loop stops at its next step; and once the inbound queue is drained,
/// the caller's poll reports end of stream. No loop takes more than one
/// further step.
pub proof fn lemma_shutdown_propagation(v: RelayView)
    requires
        relay_inv(v),
        !v.recv_done,
    ensures
        spec_recv_step(v, RecvEventView::Closed).1 == RecvOutcome::Stopped,
        spec_recv_step(v, RecvEventView::Closed).0.recv_done,
        spec_recv_step(v, RecvEventView::Closed).0.closed,
        spec_send_step(spec_recv_step(v, RecvEventView::Closed).0).1 == SendStepView::Stopped,
        spec_send_step(spec_recv_step(v, RecvEventView::Closed).0).0.send_done,
        v.inbound.len() == 0 ==> spec_poll(
            spec_send_step(spec_recv_step(v, RecvEventView::Closed).0).0,
        ).1 == PollView::Closed,
{
}

} // verus!
