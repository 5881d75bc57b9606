//! What holds of whole operations, and of whole sessions.
//!
//! The contract of an operation speaks of one turn of it. The laws here follow
//! from those contracts alone, whoever drives the session and however: for an
//! operation from its first turn to its last, and for any mixture of turns,
//! operations that were given up half way among them.

use vstd::prelude::*;

use crate::connection::{added, lemma_added_piecewise};
use crate::error::{codes, Errno};
use crate::turn::{
    absorbs, brings_bytes, brought_in, close_turn, end_of_stream, errno, failure, handed_over,
    handshake_turn, read_due, read_turn, refusal, refusal_due, served, verdict, write_due, write_turn, Action, Event,
    SessionView, Upload,
};

verus! {

/// One turn of an operation, with what the operation holds beside the session
/// before and after it.
pub struct Turn<T, X> {
    /// The session before the turn.
    pub before: SessionView,
    /// What the operation held before the turn.
    pub held: X,
    /// What the turn was told.
    pub event: Event,
    /// The session after the turn.
    pub after: SessionView,
    /// What the operation holds after the turn.
    pub kept: X,
    /// What the turn asks for.
    pub action: Action<T>,
}

/// What a write holds beside the session.
pub struct Parcel {
    /// The bytes to write.
    pub buffer: Seq<u8>,
    /// How far the write has come.
    pub upload: Upload,
}

/// One turn of some operation of a session.
pub enum Step {
    /// Of a handshake.
    Handshake(Turn<(), ()>),
    /// Of a read, which holds the buffer of the reader.
    Read(Turn<usize, Seq<u8>>),
    /// Of a write.
    Write(Turn<(), Parcel>),
    /// Of a close.
    Close(Turn<(), ()>),
}

impl Step {
    /// Whether the operation does this.
    #[verifier::opaque]
    pub open spec fn happens(self) -> bool {
        match self {
            Step::Handshake(turn) => handshake_turn(
                turn.before,
                turn.event,
                turn.after,
                turn.action,
            ),
            Step::Read(turn) => read_turn(
                turn.before,
                turn.held,
                turn.event,
                turn.after,
                turn.kept,
                turn.action,
            ),
            Step::Write(turn) => {
                &&& turn.kept.buffer == turn.held.buffer
                &&& write_turn(
                    turn.before,
                    turn.held.buffer,
                    turn.held.upload,
                    turn.event,
                    turn.after,
                    turn.kept.upload,
                    turn.action,
                )
            },
            Step::Close(turn) => close_turn(turn.before, turn.event, turn.after, turn.action),
        }
    }

    /// The session before the step.
    pub open spec fn before(self) -> SessionView {
        match self {
            Step::Handshake(turn) => turn.before,
            Step::Read(turn) => turn.before,
            Step::Write(turn) => turn.before,
            Step::Close(turn) => turn.before,
        }
    }

    /// The session after the step.
    pub open spec fn after(self) -> SessionView {
        match self {
            Step::Handshake(turn) => turn.after,
            Step::Read(turn) => turn.after,
            Step::Write(turn) => turn.after,
            Step::Close(turn) => turn.after,
        }
    }

    /// Whether the step waits for the peer.
    pub open spec fn waits(self) -> bool {
        match self {
            Step::Handshake(turn) => turn.action is Receive,
            Step::Read(turn) => turn.action is Receive,
            Step::Write(turn) => turn.action is Receive,
            Step::Close(turn) => turn.action is Receive,
        }
    }

    /// The bytes that the step hands to the stream.
    pub open spec fn handed_over(self) -> Seq<u8> {
        match self {
            Step::Handshake(turn) => match turn.action {
                Action::Send(bytes) => bytes@,
                Action::Refuse(bytes, _) => bytes@,
                _ => Seq::empty(),
            },
            Step::Read(turn) => match turn.action {
                Action::Send(bytes) => bytes@,
                Action::Refuse(bytes, _) => bytes@,
                _ => Seq::empty(),
            },
            Step::Write(turn) => match turn.action {
                Action::Send(bytes) => bytes@,
                Action::Refuse(bytes, _) => bytes@,
                _ => Seq::empty(),
            },
            Step::Close(turn) => match turn.action {
                Action::Send(bytes) => bytes@,
                Action::Refuse(bytes, _) => bytes@,
                _ => Seq::empty(),
            },
        }
    }

    /// The bytes from the stream that the step has to offer to rustls.
    pub open spec fn brought_in(self) -> Seq<u8> {
        match (self, self.event()) {
            (Step::Close(_), _) => Seq::empty(),
            (_, Event::Received(Ok(bytes))) => bytes@,
            _ => Seq::empty(),
        }
    }

    /// The bytes that the step puts into the buffer of a reader.
    pub open spec fn delivered(self) -> Seq<u8> {
        match self {
            Step::Read(turn) => match turn.action {
                Action::Done(Ok(count)) => turn.kept.take(count as int),
                _ => Seq::empty(),
            },
            _ => Seq::empty(),
        }
    }

    /// The bytes of a writer that rustls accepts in the step.
    pub open spec fn accepted(self) -> Seq<u8> {
        match self {
            Step::Write(turn) => if turn.held.upload.written < turn.kept.upload.written {
                turn.held.buffer.subrange(
                    turn.held.upload.written as int,
                    turn.kept.upload.written as int,
                )
            } else {
                Seq::empty()
            },
            _ => Seq::empty(),
        }
    }

    /// What rustls decrypts in the step.
    pub open spec fn decrypted(self) -> Seq<u8> {
        added(self.before().link.decrypted, self.after().link.decrypted)
    }

    /// What rustls queues for the peer in the step.
    pub open spec fn queued(self) -> Seq<u8> {
        added(self.before().link.queued, self.after().link.queued)
    }

    /// What the step was told.
    pub open spec fn event(self) -> Event {
        match self {
            Step::Handshake(turn) => turn.event,
            Step::Read(turn) => turn.event,
            Step::Write(turn) => turn.event,
            Step::Close(turn) => turn.event,
        }
    }

    /// The error that the step ends its operation with, or tells the peer of
    /// first.
    pub open spec fn error(self) -> Option<Errno> {
        match self {
            Step::Handshake(turn) => error_of(turn.action),
            Step::Read(turn) => error_of(turn.action),
            Step::Write(turn) => error_of(turn.action),
            Step::Close(turn) => error_of(turn.action),
        }
    }

    /// Whether the step ends its operation.
    pub open spec fn ends(self) -> bool {
        match self {
            Step::Handshake(turn) => turn.action is Done,
            Step::Read(turn) => turn.action is Done,
            Step::Write(turn) => turn.action is Done,
            Step::Close(turn) => turn.action is Done,
        }
    }
}

/// The error that `action` ends an operation with, or is about to.
pub open spec fn error_of<T>(action: Action<T>) -> Option<Errno> {
    match action {
        Action::Done(Err(error)) => Some(error),
        Action::Refuse(_, error) => Some(error),
        _ => None,
    }
}

/// Whether `steps` is what happened to one session, in this order.
pub open spec fn history(steps: Seq<Step>) -> bool {
    &&& steps.len() > 0
    &&& forall|i: int| 0 <= i < steps.len() ==> (#[trigger] steps[i]).happens()
    &&& forall|i: int|
        #![trigger steps[i]]
        0 < i < steps.len() ==> steps[i].before() == steps[i - 1].after()
}

/// All that was delivered to readers in `steps`, oldest first.
pub open spec fn all_delivered(steps: Seq<Step>) -> Seq<u8>
    decreases steps.len(),
{
    if steps.len() == 0 {
        Seq::empty()
    } else {
        all_delivered(steps.drop_last()) + steps.last().delivered()
    }
}

/// All that was accepted from writers in `steps`, oldest first.
pub open spec fn all_accepted(steps: Seq<Step>) -> Seq<u8>
    decreases steps.len(),
{
    if steps.len() == 0 {
        Seq::empty()
    } else {
        all_accepted(steps.drop_last()) + steps.last().accepted()
    }
}

/// All that was handed to the stream in `steps`, oldest first.
pub open spec fn all_handed_over(steps: Seq<Step>) -> Seq<u8>
    decreases steps.len(),
{
    if steps.len() == 0 {
        Seq::empty()
    } else {
        all_handed_over(steps.drop_last()) + steps.last().handed_over()
    }
}

/// All that the stream brought in `steps`, oldest first.
pub open spec fn all_brought_in(steps: Seq<Step>) -> Seq<u8>
    decreases steps.len(),
{
    if steps.len() == 0 {
        Seq::empty()
    } else {
        all_brought_in(steps.drop_last()) + steps.last().brought_in()
    }
}

/// A read that goes on from `fed` delivers the front of what waits, or nothing.
proof fn lemma_read_due_keeps_order(
    fed: SessionView,
    buffer: Seq<u8>,
    after: SessionView,
    filled: Seq<u8>,
    action: Action<usize>,
)
    requires
        read_due(fed, buffer, after, filled, action),
    ensures
        action matches Action::Done(Ok(count)) ==> fed.unread() == filled.take(count as int)
            + after.unread(),
        !(action matches Action::Done(Ok(_))) ==> fed.unread() == after.unread(),
{
    if fed.pending.len() > 0 {
        let count = served(fed.pending.len(), buffer.len()) as int;
        assert(filled.take(count) =~= fed.pending.take(count));
        assert(fed.unread() =~= fed.pending.take(count) + after.unread());
    } else if action matches Action::Done(Ok(count)) {
        assert(filled.take(0) =~= Seq::<u8>::empty());
        assert(fed.unread() =~= filled.take(0) + after.unread());
    }
}

/// What one step does to the bytes that pass through the session. What it
/// delivers and what is unread after it are what was unread before it and what
/// rustls decrypted in it. What it hands over and what waits to be sent after
/// it are what waited before it and what rustls queued in it. rustls has
/// accepted the writer's bytes, and nothing else.
pub proof fn law_step_keeps_order(step: Step)
    requires
        step.happens(),
    ensures
        step.before().link.decrypted.is_prefix_of(step.after().link.decrypted),
        step.delivered() + step.after().unread() == step.before().unread() + step.decrypted(),
        step.before().link.queued.is_prefix_of(step.after().link.queued),
        step.handed_over() + step.after().link.outgoing == step.before().link.outgoing
            + step.queued(),
        step.after().link.accepted == step.before().link.accepted + step.accepted(),
{
    match step {
        Step::Handshake(turn) => lemma_handshake_keeps_order(turn),
        Step::Read(turn) => lemma_read_keeps_order(turn),
        Step::Write(turn) => lemma_write_keeps_order(turn),
        Step::Close(turn) => lemma_close_keeps_order(turn),
    }
}

/// Whether a step keeps the bytes that pass through the session in order.
spec fn keeps_order(step: Step) -> bool {
    &&& step.before().link.decrypted.is_prefix_of(step.after().link.decrypted)
    &&& step.delivered() + step.after().unread() == step.before().unread() + step.decrypted()
    &&& step.before().link.queued.is_prefix_of(step.after().link.queued)
    &&& step.handed_over() + step.after().link.outgoing == step.before().link.outgoing
        + step.queued()
    &&& step.after().link.accepted == step.before().link.accepted + step.accepted()
}

/// A turn of a handshake keeps bytes in order.
proof fn lemma_handshake_keeps_order(turn: Turn<(), ()>)
    requires
        Step::Handshake(turn).happens(),
    ensures
        keeps_order(Step::Handshake(turn)),
{
    reveal(Step::happens);
    let step = Step::Handshake(turn);
    assert(step.delivered() + step.after().unread() =~= step.before().unread() + step.decrypted());
    assert(step.handed_over() + step.after().link.outgoing =~= step.before().link.outgoing
        + step.queued());
    assert(step.after().link.accepted =~= step.before().link.accepted + step.accepted());
}

/// A turn of a read keeps bytes in order.
proof fn lemma_read_keeps_order(turn: Turn<usize, Seq<u8>>)
    requires
        Step::Read(turn).happens(),
    ensures
        keeps_order(Step::Read(turn)),
{
    reveal(Step::happens);
    let step = Step::Read(turn);
    let bytes = brought_in(turn.event);
    if brings_bytes(turn.event) {
        let fed = choose|fed: SessionView| #[trigger]
            absorbs(turn.before, bytes, fed) && match verdict(turn.before, bytes, fed) {
                Some(error) => turn.kept == turn.held && refusal_due(
                    fed,
                    error,
                    turn.after,
                    turn.action,
                ),
                None => read_due(fed, turn.held, turn.after, turn.kept, turn.action),
            };
        if verdict(turn.before, bytes, fed) is None {
            lemma_read_due_keeps_order(fed, turn.held, turn.after, turn.kept, turn.action);
        }
        assert(step.delivered() + step.after().unread() =~= fed.unread());
        assert(step.handed_over() + step.after().link.outgoing =~= fed.link.outgoing);
    } else {
        if failure(turn.event) is None && refusal(turn.event) is None && !(end_of_stream(turn.event)
            && !turn.before.peer_closed) {
            lemma_read_due_keeps_order(turn.before, turn.held, turn.after, turn.kept, turn.action);
        }
        assert(step.delivered() + step.after().unread() =~= turn.before.unread());
        assert(step.handed_over() + step.after().link.outgoing =~= turn.before.link.outgoing);
        assert(turn.before.unread() =~= turn.before.unread() + step.decrypted());
        assert(turn.before.link.outgoing =~= turn.before.link.outgoing + step.queued());
    }
    assert(step.after().link.accepted =~= step.before().link.accepted + step.accepted());
}

/// A turn of a write keeps bytes in order.
proof fn lemma_write_keeps_order(turn: Turn<(), Parcel>)
    requires
        Step::Write(turn).happens(),
    ensures
        keeps_order(Step::Write(turn)),
{
    reveal(Step::happens);
    let step = Step::Write(turn);
    let bytes = brought_in(turn.event);
    let buffer = turn.held.buffer;
    let upload = turn.held.upload;
    let next = turn.kept.upload;
    if brings_bytes(turn.event) {
        let fed = choose|fed: SessionView| #[trigger]
            absorbs(turn.before, bytes, fed) && match verdict(turn.before, bytes, fed) {
                Some(error) => next == upload && refusal_due(fed, error, turn.after, turn.action),
                None => write_due(fed, buffer, upload, turn.after, next, turn.action),
            };
        if verdict(turn.before, bytes, fed) is None {
            lemma_write_due_keeps_order(fed, buffer, upload, turn.after, next, turn.action);
        }
        lemma_added_piecewise(
            turn.before.link.decrypted,
            fed.link.decrypted,
            turn.after.link.decrypted,
        );
        lemma_added_piecewise(turn.before.link.queued, fed.link.queued, turn.after.link.queued);
        assert(step.delivered() + step.after().unread() =~= fed.unread() + added(
            fed.link.decrypted,
            turn.after.link.decrypted,
        ));
        assert(step.handed_over() + step.after().link.outgoing =~= fed.link.outgoing + added(
            fed.link.queued,
            turn.after.link.queued,
        ));
        assert(step.delivered() + step.after().unread() =~= step.before().unread()
            + step.decrypted());
        assert(step.handed_over() + step.after().link.outgoing =~= step.before().link.outgoing
            + step.queued());
    } else {
        if failure(turn.event) is None && refusal(turn.event) is None && !end_of_stream(
            turn.event,
        ) {
            lemma_write_due_keeps_order(
                turn.before,
                buffer,
                upload,
                turn.after,
                next,
                turn.action,
            );
        }
        assert(step.delivered() + step.after().unread() =~= step.before().unread()
            + step.decrypted());
        assert(step.handed_over() + step.after().link.outgoing =~= step.before().link.outgoing
            + step.queued());
    }
    assert(step.after().link.accepted =~= step.before().link.accepted + step.accepted());
}

/// A write that goes on from `fed` delivers nothing, and hands over the front
/// of what waits.
proof fn lemma_write_due_keeps_order(
    fed: SessionView,
    buffer: Seq<u8>,
    upload: Upload,
    after: SessionView,
    next: Upload,
    action: Action<()>,
)
    requires
        write_due(fed, buffer, upload, after, next, action),
    ensures
        after.link.decrypted == fed.link.decrypted,
        after.unread() == fed.unread(),
        fed.link.queued.is_prefix_of(after.link.queued),
        handed_over(action) + after.link.outgoing == fed.link.outgoing + added(
            fed.link.queued,
            after.link.queued,
        ),
        upload.written <= next.written,
        upload.written < next.written ==> next.written <= buffer.len(),
        after.link.accepted == fed.link.accepted + buffer.subrange(
            upload.written as int,
            next.written as int,
        ) || (upload.written == next.written && after.link.accepted == fed.link.accepted),
{
    assert(handed_over(action) + after.link.outgoing =~= fed.link.outgoing + added(
        fed.link.queued,
        after.link.queued,
    ));
}

/// A turn of a close keeps bytes in order.
proof fn lemma_close_keeps_order(turn: Turn<(), ()>)
    requires
        Step::Close(turn).happens(),
    ensures
        keeps_order(Step::Close(turn)),
{
    reveal(Step::happens);
    let step = Step::Close(turn);
    assert(step.delivered() + step.after().unread() =~= step.before().unread() + step.decrypted());
    assert(step.handed_over() + step.after().link.outgoing =~= step.before().link.outgoing
        + step.queued());
    assert(step.after().link.accepted =~= step.before().link.accepted + step.accepted());
}

/// What one step takes from the stream: the bytes that it brought, all of them
/// unless rustls refuses them or the peer has closed the session.
pub proof fn law_step_takes_in(step: Step)
    requires
        step.happens(),
    ensures
        step.before().link.consumed.is_prefix_of(step.after().link.consumed),
        step.after().link.consumed.is_prefix_of(step.before().link.consumed + step.brought_in()),
        step.error() is Some || step.after().link.closed || step.after().link.consumed
            == step.before().link.consumed + step.brought_in(),
{
    match step {
        Step::Write(turn) => lemma_write_takes_in(turn),
        _ => {
            reveal(Step::happens);
            assert(step.before().link.consumed + step.brought_in() =~= step.before().link.consumed
                || step.brought_in().len() > 0);
        },
    }
}

/// What a turn of a write takes from the stream.
proof fn lemma_write_takes_in(turn: Turn<(), Parcel>)
    requires
        Step::Write(turn).happens(),
    ensures
        ({
            let all = turn.before.link.consumed + brought_in(turn.event);
            &&& turn.before.link.consumed.is_prefix_of(turn.after.link.consumed)
            &&& turn.after.link.consumed.is_prefix_of(all)
            &&& error_of(turn.action) is Some || turn.after.link.closed || turn.after.link.consumed
                == all
        }),
        turn.after.link.consumed == turn.before.link.consumed ==> turn.after.link.processed
            == turn.before.link.processed,
        turn.after.link.consumed != turn.before.link.consumed && !turn.after.link.failed ==> {
            &&& turn.after.link.processed == turn.after.link.consumed
            &&& turn.after.link.plaintext.len() == 0
        },
{
    reveal(Step::happens);
    let bytes = brought_in(turn.event);
    if brings_bytes(turn.event) {
        let fed = choose|fed: SessionView| #[trigger]
            absorbs(turn.before, bytes, fed) && match verdict(turn.before, bytes, fed) {
                Some(error) => turn.kept.upload == turn.held.upload && refusal_due(
                    fed,
                    error,
                    turn.after,
                    turn.action,
                ),
                None => write_due(
                    fed,
                    turn.held.buffer,
                    turn.held.upload,
                    turn.after,
                    turn.kept.upload,
                    turn.action,
                ),
            };
        assert(turn.after.link.consumed == fed.link.consumed);
        assert(turn.after.link.processed == fed.link.processed);
        assert(turn.after.link.plaintext == fed.link.plaintext);
        assert(turn.after.link.failed == fed.link.failed);
        assert(turn.after.link.closed == fed.link.closed);
        if !fed.link.closed && verdict(turn.before, bytes, fed) is None {
            assert(bytes.take(bytes.len() as int) =~= bytes);
        }
    } else {
        assert(bytes =~= Seq::<u8>::empty());
        assert(turn.before.link.consumed + bytes =~= turn.before.link.consumed);
        assert(turn.after.link.consumed == turn.before.link.consumed);
    }
}

/// What one step takes in is processed, all of it, unless the peer is at fault:
/// nothing that arrived is left lying for a later step.
pub proof fn law_step_processes_what_it_takes_in(step: Step)
    requires
        step.happens(),
        !step.after().link.failed,
    ensures
        if step.after().link.consumed == step.before().link.consumed {
            step.after().link.processed == step.before().link.processed
        } else {
            &&& step.after().link.processed == step.after().link.consumed
            &&& step.after().link.plaintext.len() == 0
        },
{
    match step {
        Step::Write(turn) => lemma_write_takes_in(turn),
        _ => {
            reveal(Step::happens);
        },
    }
}

/// A finished handshake stays finished, a session that the peer closed stays
/// closed, a last alert stays the last, and a connection that has failed stays
/// failed: of what the stream brings it decrypts nothing more, and nothing more
/// comes to wait for the caller.
pub proof fn law_step_undoes_nothing(step: Step)
    requires
        step.happens(),
    ensures
        !step.before().link.handshaking ==> !step.after().link.handshaking,
        step.before().link.encrypting ==> step.after().link.encrypting,
        step.before().link.closed ==> step.after().link.closed,
        step.before().link.finished ==> step.after().link.finished,
        step.before().link.failed ==> {
            &&& step.after().link.failed
            &&& step.after().link.decrypted == step.before().link.decrypted
            &&& step.after().link.plaintext == step.before().link.plaintext
        },
        step.before().peer_closed ==> step.after().peer_closed,
        step.after().peer_closed ==> step.before().peer_closed || step.after().link.closed,
{
    reveal(Step::happens);
}

/// No operation waits for the peer while it has something to send or something
/// to deliver to a reader: a session whose next move is its own never stalls.
/// A handshake waits, and a write waits, only while rustls is at the handshake.
pub proof fn law_never_waits_with_work_to_do(step: Step)
    requires
        step.happens(),
        step.waits(),
    ensures
        step.after().link.outgoing.len() == 0,
        step is Read ==> step.after().pending.len() == 0 && !step.after().peer_closed,
        step is Handshake || step is Write ==> step.after().link.handshaking,
        step is Write ==> step->Write_0.kept.upload.written >= step->Write_0.held.buffer.len(),
        !(step is Close),
{
    reveal(Step::happens);
}

/// The first part of what happened is itself what happened up to then.
pub proof fn lemma_history_before_last(steps: Seq<Step>)
    requires
        history(steps),
        steps.len() > 1,
    ensures
        history(steps.drop_last()),
        steps.drop_last().last().after() == steps.last().before(),
        steps.drop_last()[0] == steps[0],
{
    let earlier = steps.drop_last();
    assert forall|i: int| 0 <= i < earlier.len() implies (#[trigger] earlier[i]).happens() by {
        assert(earlier[i] == steps[i]);
    }
    assert forall|i: int|
        #![trigger earlier[i]]
        0 < i < earlier.len() implies earlier[i].before() == earlier[i - 1].after() by {
        assert(earlier[i] == steps[i]);
    }
}

/// Whatever a session goes through, its readers get the decrypted bytes in the
/// order in which they came, each once and none left out: what was delivered
/// since the beginning and is unread in the end is what was unread in the
/// beginning and was decrypted since.
pub proof fn law_plaintext_is_read_in_order(steps: Seq<Step>)
    requires
        history(steps),
    ensures
        steps[0].before().link.decrypted.is_prefix_of(steps.last().after().link.decrypted),
        all_delivered(steps) + steps.last().after().unread() == steps[0].before().unread() + added(
            steps[0].before().link.decrypted,
            steps.last().after().link.decrypted,
        ),
    decreases steps.len(),
{
    let first = steps[0].before();
    let last = steps.last();
    let earlier = steps.drop_last();
    law_step_keeps_order(last);
    if steps.len() == 1 {
        assert(all_delivered(earlier) =~= Seq::<u8>::empty());
        assert(all_delivered(steps) =~= last.delivered());
    } else {
        lemma_history_before_last(steps);
        law_plaintext_is_read_in_order(earlier);
        lemma_added_piecewise(
            first.link.decrypted,
            last.before().link.decrypted,
            last.after().link.decrypted,
        );
        let so_far = all_delivered(earlier);
        assert(all_delivered(steps) + last.after().unread() =~= so_far + (last.delivered()
            + last.after().unread()));
        assert(so_far + (last.before().unread() + last.decrypted()) =~= (so_far
            + last.before().unread()) + last.decrypted());
        assert(all_delivered(steps) + last.after().unread() =~= first.unread() + added(
            first.link.decrypted,
            last.after().link.decrypted,
        ));
    }
}

/// Where reads are cut makes no difference: two sessions that began alike and
/// decrypted the same have delivered the same, once both are read to the end,
/// whatever buffers their readers brought.
pub proof fn law_reads_can_be_cut_anywhere(one: Seq<Step>, other: Seq<Step>)
    requires
        history(one),
        history(other),
        one[0].before().unread() == other[0].before().unread(),
        one[0].before().link.decrypted == other[0].before().link.decrypted,
        one.last().after().link.decrypted == other.last().after().link.decrypted,
        one.last().after().unread().len() == 0,
        other.last().after().unread().len() == 0,
    ensures
        all_delivered(one) == all_delivered(other),
{
    law_plaintext_is_read_in_order(one);
    law_plaintext_is_read_in_order(other);
    assert(all_delivered(one) + one.last().after().unread() =~= all_delivered(one));
    assert(all_delivered(other) + other.last().after().unread() =~= all_delivered(other));
}

/// What is written at one end is read at the other, as far as rustls carries
/// it: where the connection of the reader has decrypted a front part of what
/// that of the writer has accepted, readers get a front part of what writers
/// wrote. They get all of it where all of it was decrypted and all that was
/// decrypted is read.
pub proof fn law_what_is_written_is_read(writer: Seq<Step>, reader: Seq<Step>)
    requires
        history(writer),
        history(reader),
        writer[0].before().link.accepted.len() == 0,
        reader[0].before().link.decrypted.len() == 0,
        reader[0].before().unread().len() == 0,
        reader.last().after().link.decrypted.is_prefix_of(writer.last().after().link.accepted),
    ensures
        all_delivered(reader).is_prefix_of(all_accepted(writer)),
        reader.last().after().link.decrypted == writer.last().after().link.accepted
            && reader.last().after().unread().len() == 0 ==> all_delivered(reader) == all_accepted(
            writer,
        ),
{
    law_plaintext_is_accepted_in_order(writer);
    law_plaintext_is_read_in_order(reader);
    let read = all_delivered(reader) + reader.last().after().unread();
    assert(writer.last().after().link.accepted =~= all_accepted(writer));
    assert(read =~= reader.last().after().link.decrypted);
    if reader.last().after().unread().len() == 0 {
        assert(read =~= all_delivered(reader));
    }
    assert forall|i: int| 0 <= i < all_delivered(reader).len() implies all_delivered(reader)[i]
        == all_accepted(writer)[i] by {
        assert(read[i] == all_delivered(reader)[i]);
    }
    assert(all_delivered(reader).is_prefix_of(all_accepted(writer)));
}

/// Whatever a session goes through, what rustls has accepted is what its
/// writers wrote, in the order in which they wrote it.
pub proof fn law_plaintext_is_accepted_in_order(steps: Seq<Step>)
    requires
        history(steps),
    ensures
        steps.last().after().link.accepted == steps[0].before().link.accepted + all_accepted(
            steps,
        ),
    decreases steps.len(),
{
    let last = steps.last();
    let earlier = steps.drop_last();
    law_step_keeps_order(last);
    if steps.len() == 1 {
        assert(all_accepted(earlier) =~= Seq::<u8>::empty());
        assert(all_accepted(steps) =~= last.accepted());
    } else {
        lemma_history_before_last(steps);
        law_plaintext_is_accepted_in_order(earlier);
        assert(last.after().link.accepted =~= steps[0].before().link.accepted + all_accepted(
            steps,
        ));
    }
}

/// Whatever a session goes through, the stream gets the bytes of rustls in the
/// order in which they were queued, each once and none left out: what was
/// handed over since the beginning and waits to be sent in the end is what
/// waited in the beginning and was queued since.
pub proof fn law_ciphertext_is_sent_in_order(steps: Seq<Step>)
    requires
        history(steps),
    ensures
        steps[0].before().link.queued.is_prefix_of(steps.last().after().link.queued),
        all_handed_over(steps) + steps.last().after().link.outgoing
            == steps[0].before().link.outgoing + added(
            steps[0].before().link.queued,
            steps.last().after().link.queued,
        ),
    decreases steps.len(),
{
    let first = steps[0].before();
    let last = steps.last();
    let earlier = steps.drop_last();
    law_step_keeps_order(last);
    if steps.len() == 1 {
        assert(all_handed_over(earlier) =~= Seq::<u8>::empty());
        assert(all_handed_over(steps) =~= last.handed_over());
    } else {
        lemma_history_before_last(steps);
        law_ciphertext_is_sent_in_order(earlier);
        lemma_added_piecewise(
            first.link.queued,
            last.before().link.queued,
            last.after().link.queued,
        );
        let so_far = all_handed_over(earlier);
        assert(all_handed_over(steps) + last.after().link.outgoing =~= so_far + (last.handed_over()
            + last.after().link.outgoing));
        assert(so_far + (last.before().link.outgoing + last.queued()) =~= (so_far
            + last.before().link.outgoing) + last.queued());
        assert(all_handed_over(steps) + last.after().link.outgoing =~= first.link.outgoing + added(
            first.link.queued,
            last.after().link.queued,
        ));
    }
}

/// Whatever a session goes through, rustls is given the bytes of the stream in
/// the order in which they came, each once: all of them, unless an operation
/// failed or the peer closed the session.
pub proof fn law_ciphertext_is_taken_in_order(steps: Seq<Step>)
    requires
        history(steps),
        forall|i: int| 0 <= i < steps.len() ==> (#[trigger] steps[i]).error() is None,
    ensures
        steps.last().after().link.closed || steps.last().after().link.consumed
            == steps[0].before().link.consumed + all_brought_in(steps),
    decreases steps.len(),
{
    let last = steps.last();
    let earlier = steps.drop_last();
    assert(steps[steps.len() - 1].error() is None);
    law_step_takes_in(last);
    law_step_undoes_nothing(last);
    if steps.len() == 1 {
        assert(all_brought_in(earlier) =~= Seq::<u8>::empty());
        assert(all_brought_in(steps) =~= last.brought_in());
    } else {
        lemma_history_before_last(steps);
        assert forall|i: int| 0 <= i < earlier.len() implies (#[trigger] earlier[i]).error()
            is None by {
            assert(earlier[i] == steps[i]);
        }
        law_ciphertext_is_taken_in_order(earlier);
        assert(all_brought_in(steps) == all_brought_in(earlier) + last.brought_in());
        assert((steps[0].before().link.consumed + all_brought_in(earlier)) + last.brought_in()
            =~= steps[0].before().link.consumed + all_brought_in(steps));
    }
}

/// Whatever a session goes through, all that was taken in is processed, unless
/// the peer is at fault: rustls has gone through everything that arrived.
pub proof fn law_all_that_came_is_processed(steps: Seq<Step>)
    requires
        history(steps),
        steps[0].before().link.processed == steps[0].before().link.consumed,
        !steps.last().after().link.failed,
    ensures
        steps.last().after().link.processed == steps.last().after().link.consumed,
    decreases steps.len(),
{
    let last = steps.last();
    law_step_processes_what_it_takes_in(last);
    if steps.len() > 1 {
        lemma_history_before_last(steps);
        law_step_undoes_nothing(last);
        law_all_that_came_is_processed(steps.drop_last());
    }
}

/// Where the stream cuts what it brings makes no difference to what rustls gets:
/// two sessions that began alike, and to which the same bytes came in all, have
/// taken in the same and have processed all of it. What they have delivered and
/// have unread is then the same too, where rustls makes the same of the same.
pub proof fn law_the_stream_can_be_cut_anywhere(one: Seq<Step>, other: Seq<Step>)
    requires
        history(one),
        history(other),
        one[0].before().link.consumed == other[0].before().link.consumed,
        one[0].before().link.processed == one[0].before().link.consumed,
        other[0].before().link.processed == other[0].before().link.consumed,
        one[0].before().link.decrypted == other[0].before().link.decrypted,
        one[0].before().unread() == other[0].before().unread(),
        all_brought_in(one) == all_brought_in(other),
        forall|i: int| 0 <= i < one.len() ==> (#[trigger] one[i]).error() is None,
        forall|i: int| 0 <= i < other.len() ==> (#[trigger] other[i]).error() is None,
        !one.last().after().link.closed && !one.last().after().link.failed,
        !other.last().after().link.closed && !other.last().after().link.failed,
    ensures
        one.last().after().link.consumed == other.last().after().link.consumed,
        one.last().after().link.processed == one.last().after().link.consumed,
        other.last().after().link.processed == other.last().after().link.consumed,
        one.last().after().link.decrypted == other.last().after().link.decrypted
            ==> all_delivered(one) + one.last().after().unread() == all_delivered(other)
            + other.last().after().unread(),
{
    law_ciphertext_is_taken_in_order(one);
    law_ciphertext_is_taken_in_order(other);
    law_all_that_came_is_processed(one);
    law_all_that_came_is_processed(other);
    law_plaintext_is_read_in_order(one);
    law_plaintext_is_read_in_order(other);
}

/// Whatever a session goes through, a finished handshake stays finished, a
/// connection that may encrypt may go on to, a closed session stays closed, and
/// a last alert stays the last.
pub proof fn law_nothing_is_undone(steps: Seq<Step>)
    requires
        history(steps),
    ensures
        !steps[0].before().link.handshaking ==> !steps.last().after().link.handshaking,
        steps[0].before().link.encrypting ==> steps.last().after().link.encrypting,
        steps[0].before().link.closed ==> steps.last().after().link.closed,
        steps[0].before().link.finished ==> steps.last().after().link.finished,
        steps[0].before().peer_closed ==> steps.last().after().peer_closed,
    decreases steps.len(),
{
    law_step_undoes_nothing(steps.last());
    if steps.len() > 1 {
        lemma_history_before_last(steps);
        law_nothing_is_undone(steps.drop_last());
    }
}

/// A connection that has failed is finished: whatever the stream brings from
/// then on, nothing more is decrypted, and readers get what waited for them
/// then and no byte else.
pub proof fn law_failed_connection_yields_nothing(steps: Seq<Step>)
    requires
        history(steps),
        steps[0].before().link.failed,
    ensures
        steps.last().after().link.failed,
        steps.last().after().link.decrypted == steps[0].before().link.decrypted,
        steps.last().after().link.plaintext == steps[0].before().link.plaintext,
        all_delivered(steps) + steps.last().after().pending == steps[0].before().pending,
    decreases steps.len(),
{
    law_step_undoes_nothing(steps.last());
    if steps.len() > 1 {
        lemma_history_before_last(steps);
        law_failed_connection_yields_nothing(steps.drop_last());
    }
    law_plaintext_is_read_in_order(steps);
    let first = steps[0].before();
    let last = steps.last().after();
    let got = all_delivered(steps) + last.pending;
    assert(all_delivered(steps) + last.unread() =~= got + last.link.plaintext);
    assert((got + last.link.plaintext).take(got.len() as int) =~= got);
    assert(first.unread().take(got.len() as int) =~= first.pending);
}

/// Whether `event` is what a stream comes back with after `action`.
pub open spec fn answers<T>(action: Action<T>, event: Event) -> bool {
    match action {
        Action::Send(_) => event is Sent,
        Action::Receive => event is Received,
        Action::Refuse(_, error) => event matches Event::Refused(reason, _) && reason == error,
        Action::Done(_) => false,
    }
}

/// Whether the turns of `run` are an operation from its start on, the stream
/// coming back after each action and nothing else touching the session.
pub open spec fn takes_turns<T, X>(run: Seq<Turn<T, X>>) -> bool {
    &&& run.len() > 0
    &&& run[0].event is Start
    &&& forall|i: int|
        #![trigger run[i]]
        0 < i < run.len() ==> {
            &&& run[i].before == run[i - 1].after
            &&& run[i].held == run[i - 1].kept
            &&& answers(run[i - 1].action, run[i].event)
        }
}

/// The turns of a handshake, as steps of the session.
pub open spec fn handshake_steps(run: Seq<Turn<(), ()>>) -> Seq<Step> {
    run.map_values(|turn: Turn<(), ()>| Step::Handshake(turn))
}

/// The turns of a read, as steps of the session.
pub open spec fn read_steps(run: Seq<Turn<usize, Seq<u8>>>) -> Seq<Step> {
    run.map_values(|turn: Turn<usize, Seq<u8>>| Step::Read(turn))
}

/// The turns of a write, as steps of the session.
pub open spec fn write_steps(run: Seq<Turn<(), Parcel>>) -> Seq<Step> {
    run.map_values(|turn: Turn<(), Parcel>| Step::Write(turn))
}

/// The turns of a close, as steps of the session.
pub open spec fn close_steps(run: Seq<Turn<(), ()>>) -> Seq<Step> {
    run.map_values(|turn: Turn<(), ()>| Step::Close(turn))
}

/// No turn of an operation before the last one fails.
proof fn lemma_goes_on<T, X>(run: Seq<Turn<T, X>>, i: int)
    requires
        takes_turns(run),
        0 <= i < run.len() - 1,
    ensures
        !(run[i].action is Done),
{
    assert(answers(run[i].action, run[i + 1].event));
}

/// What a handshake has handed over by its end, if nothing is left to send: all
/// that waited to be sent and all that rustls queued meanwhile.
proof fn lemma_handshake_hands_over_all(run: Seq<Turn<(), ()>>)
    requires
        takes_turns(run),
        history(handshake_steps(run)),
        run.last().after.link.outgoing.len() == 0,
    ensures
        all_handed_over(handshake_steps(run)) == run[0].before.link.outgoing + added(
            run[0].before.link.queued,
            run.last().after.link.queued,
        ),
{
    let steps = handshake_steps(run);
    law_ciphertext_is_sent_in_order(steps);
    assert(all_handed_over(steps) + run.last().after.link.outgoing =~= all_handed_over(steps));
}

/// A handshake that succeeds has run to completion: rustls is through with it,
/// and all that waited to be sent and was queued meanwhile has gone to the
/// stream in its order, the last flight too. So has what was written before
/// the handshake was over: nothing of it is held back.
pub proof fn law_handshake_completes(run: Seq<Turn<(), ()>>)
    requires
        takes_turns(run),
        history(handshake_steps(run)),
        run.last().action == Action::<()>::Done(Ok(())),
    ensures
        !run.last().after.link.handshaking,
        run.last().after.link.outgoing.len() == 0,
        run.last().after.link.encrypting,
        run.last().after.link.held_back.len() == 0,
        all_handed_over(handshake_steps(run)) == run[0].before.link.outgoing + added(
            run[0].before.link.queued,
            run.last().after.link.queued,
        ),
{
    reveal(Step::happens);
    assert(handshake_steps(run).last().happens());
    lemma_handshake_hands_over_all(run);
}

/// A handshake that rustls refuses tells the peer so first: it ends with the
/// refusal when all that rustls queued, the alert too, has gone to the stream,
/// unless the stream fails.
pub proof fn law_refusal_is_sent_before_it_is_told(run: Seq<Turn<(), ()>>, error: Errno)
    requires
        takes_turns(run),
        history(handshake_steps(run)),
        run.last().action == Action::<()>::Done(Err(error)),
        failure(run.last().event) is None,
        !end_of_stream(run.last().event),
    ensures
        run.last().after.link.outgoing.len() == 0,
        all_handed_over(handshake_steps(run)) == run[0].before.link.outgoing + added(
            run[0].before.link.queued,
            run.last().after.link.queued,
        ),
{
    reveal(Step::happens);
    assert(handshake_steps(run).last().happens());
    lemma_handshake_hands_over_all(run);
}

/// A connection that fails on what the stream brings is a protocol error,
/// whatever operation met it: the operation ends with that, at once or when the
/// peer is told.
pub proof fn law_protocol_errors_surface(step: Step)
    requires
        step.happens(),
        !step.before().link.failed,
        step.after().link.failed,
    ensures
        step.error() == Some(errno(codes::PROTOCOL)),
{
    reveal(Step::happens);
}

/// An operation that is about to end with an error ends with that error and no
/// other, whether or not the stream lets it tell the peer, and does nothing
/// else before.
pub proof fn law_refusal_is_told(step: Step, error: Errno)
    requires
        step.happens(),
        step.event() matches Event::Refused(reason, _) && reason == error,
    ensures
        step.error() == Some(error),
        step.ends() || step.before().link.outgoing.len() > 0 && (step.event() matches Event::Refused(
            _,
            Ok(_),
        )),
        step.after() == step.before().with_outgoing(step.after().link.outgoing),
{
    reveal(Step::happens);
}

/// The error that an operation is about to end with is that of rustls: a
/// protocol error, or [`codes::IO`].
pub proof fn law_refusals_are_of_rustls(step: Step)
    requires
        step.happens(),
        !(step.event() is Refused),
        step.error() is Some,
        !step.ends(),
    ensures
        step.error() == Some(errno(codes::PROTOCOL)) || step.error() == Some(errno(codes::IO)),
{
    reveal(Step::happens);
}

/// The peer hung up in the middle of the handshake where, and only where, the
/// stream comes to its end and does not itself report that code. At that time
/// everything was sent and rustls was still waiting for the peer.
pub proof fn law_handshake_is_reset_by_the_end_of_the_stream(run: Seq<Turn<(), ()>>)
    requires
        takes_turns(run),
        history(handshake_steps(run)),
        failure(run.last().event) is None,
    ensures
        run.last().action == Action::<()>::Done(Err(errno(codes::CONNECTION_RESET)))
            <==> end_of_stream(run.last().event),
        end_of_stream(run.last().event) ==> {
            &&& run.last().before.link.outgoing.len() == 0
            &&& run.last().before.link.handshaking
        },
{
    reveal(Step::happens);
    let steps = handshake_steps(run);
    assert(steps.last().happens());
    let i = run.len() - 1;
    lemma_handshake_errors(run, i);
    if i > 0 {
        assert(answers(run[i - 1].action, run[i].event));
        assert(steps[i - 1].happens());
        lemma_handshake_errors(run, i - 1);
        if end_of_stream(run.last().event) {
            law_never_waits_with_work_to_do(steps[i - 1]);
        }
    }
}

/// The errors that a handshake is about to end with are those of rustls.
proof fn lemma_handshake_errors(run: Seq<Turn<(), ()>>, k: int)
    requires
        takes_turns(run),
        history(handshake_steps(run)),
        0 <= k < run.len(),
    ensures
        run[k].action matches Action::Refuse(_, error) ==> error == errno(codes::IO) || error
            == errno(codes::PROTOCOL),
    decreases k,
{
    reveal(Step::happens);
    assert(handshake_steps(run)[k].happens());
    if k > 0 {
        lemma_handshake_errors(run, k - 1);
        assert(answers(run[k - 1].action, run[k].event));
    }
}

/// A handshake of a session that has had it, and has nothing to send, is over
/// at once.
pub proof fn law_handshake_is_done_once(turn: Turn<(), ()>)
    requires
        Step::Handshake(turn).happens(),
        turn.event is Start,
        !turn.before.link.handshaking,
        turn.before.link.outgoing.len() == 0,
    ensures
        turn.action == Action::<()>::Done(Ok(())),
        turn.after == turn.before,
{
    reveal(Step::happens);
}

/// A write that succeeds has written all of its buffer, as a write to any byte
/// stream does: rustls has accepted those bytes, in order and each once, and
/// nothing else. None of them is held back, and all that waited to be sent and
/// all that rustls queued meanwhile has gone to the stream in its order. What
/// came meanwhile, while the handshake was still on, is kept for readers. A
/// write of nothing does nothing.
pub proof fn law_write_sends_all(run: Seq<Turn<(), Parcel>>)
    requires
        takes_turns(run),
        history(write_steps(run)),
        run[0].held.upload == (Upload { written: 0, took: 0, draining: false }),
        run.last().action == Action::<()>::Done(Ok(())),
    ensures
        run.last().after.link.accepted == run[0].before.link.accepted + run[0].held.buffer,
        run.last().after.unread() == run[0].before.unread() + added(
            run[0].before.link.decrypted,
            run.last().after.link.decrypted,
        ),
        run[0].held.buffer.len() > 0 ==> {
            &&& !run.last().after.link.handshaking
            &&& run.last().after.link.held_back.len() == 0
            &&& run.last().after.link.outgoing.len() == 0
            &&& all_handed_over(write_steps(run)) == run[0].before.link.outgoing + added(
                run[0].before.link.queued,
                run.last().after.link.queued,
            )
        },
        run[0].held.buffer.len() == 0 ==> run.len() == 1 && run[0].after == run[0].before,
{
    reveal(Step::happens);
    let steps = write_steps(run);
    let last = run.len() - 1;
    lemma_write_so_far(run, last);
    assert(steps[last].happens());
    assert(run[last].held.buffer == run[0].held.buffer);
    let buffer = run[0].held.buffer;
    assert(buffer.subrange(0, buffer.len() as int) =~= buffer);
    law_ciphertext_is_sent_in_order(steps);
    law_plaintext_is_read_in_order(steps);
    lemma_writes_deliver_nothing(run, run.len() as int);
    assert(steps.take(run.len() as int) =~= steps);
    assert(all_delivered(steps) + run.last().after.unread() =~= run.last().after.unread());
    if buffer.len() == 0 {
        assert(steps[0].happens());
        if last > 0 {
            assert(answers(run[0].action, run[1].event));
        }
    } else {
        assert(all_handed_over(steps) + run.last().after.link.outgoing =~= all_handed_over(steps));
    }
}

/// A write of a session whose handshake is over asks nothing of the stream but
/// to send.
pub proof fn law_write_waits_only_for_the_handshake(turn: Turn<(), Parcel>)
    requires
        Step::Write(turn).happens(),
        !turn.before.link.handshaking,
    ensures
        !(turn.action is Receive),
{
    reveal(Step::happens);
}

/// A write with bytes left, on a connection that has failed, is [`codes::IO`]
/// and changes nothing.
pub proof fn law_failed_connection_takes_no_writes(turn: Turn<(), Parcel>)
    requires
        Step::Write(turn).happens(),
        turn.event is Start,
        turn.before.link.failed,
        !turn.held.upload.draining,
        turn.held.upload.written < turn.held.buffer.len(),
    ensures
        turn.action == Action::<()>::Done(Err(errno(codes::IO))),
        turn.after == turn.before,
{
    reveal(Step::happens);
}

/// A write has nothing for a reader.
proof fn lemma_writes_deliver_nothing(run: Seq<Turn<(), Parcel>>, k: int)
    requires
        0 <= k <= run.len(),
    ensures
        all_delivered(write_steps(run).take(k)) == Seq::<u8>::empty(),
    decreases k,
{
    if k > 0 {
        lemma_writes_deliver_nothing(run, k - 1);
        assert(write_steps(run).take(k).drop_last() =~= write_steps(run).take(k - 1));
    }
}

/// Two writes are as good as one: what rustls has accepted after a write of
/// one buffer and a write of another is what it has accepted after one write
/// of both.
pub proof fn law_two_writes_are_one(
    first: Seq<Turn<(), Parcel>>,
    second: Seq<Turn<(), Parcel>>,
    joined: Seq<Turn<(), Parcel>>,
)
    requires
        takes_turns(first),
        takes_turns(second),
        takes_turns(joined),
        history(write_steps(first)),
        history(write_steps(second)),
        history(write_steps(joined)),
        first[0].held.upload == (Upload { written: 0, took: 0, draining: false }),
        second[0].held.upload == (Upload { written: 0, took: 0, draining: false }),
        joined[0].held.upload == (Upload { written: 0, took: 0, draining: false }),
        first.last().action == Action::<()>::Done(Ok(())),
        second.last().action == Action::<()>::Done(Ok(())),
        joined.last().action == Action::<()>::Done(Ok(())),
        second[0].before == first.last().after,
        joined[0].before == first[0].before,
        joined[0].held.buffer == first[0].held.buffer + second[0].held.buffer,
    ensures
        second.last().after.link.accepted == joined.last().after.link.accepted,
{
    law_write_sends_all(first);
    law_write_sends_all(second);
    law_write_sends_all(joined);
    assert(second.last().after.link.accepted =~= joined.last().after.link.accepted);
}

/// What holds after turn `k` of a write that has not failed.
proof fn lemma_write_so_far(run: Seq<Turn<(), Parcel>>, k: int)
    requires
        takes_turns(run),
        history(write_steps(run)),
        run[0].held.upload == (Upload { written: 0, took: 0, draining: false }),
        0 <= k < run.len(),
        error_of(run[k].action) is None,
    ensures
        run[k].held.buffer == run[0].held.buffer,
        run[k].kept.buffer == run[0].held.buffer,
        run[k].kept.upload.written <= run[0].held.buffer.len(),
        run[k].after.link.accepted == run[0].before.link.accepted + run[0].held.buffer.subrange(
            0,
            run[k].kept.upload.written as int,
        ),
    decreases k,
{
    reveal(Step::happens);
    let steps = write_steps(run);
    let buffer = run[0].held.buffer;
    let upload = run[k].held.upload;
    let next = run[k].kept.upload;
    assert(steps[k].happens());
    if k > 0 {
        assert(answers(run[k - 1].action, run[k].event));
        lemma_write_so_far(run, k - 1);
    } else {
        assert(run[0].before.link.accepted + buffer.subrange(0, 0)
            =~= run[0].before.link.accepted);
    }
    assert(upload.written <= next.written);
    assert(buffer.subrange(0, upload.written as int) + buffer.subrange(
        upload.written as int,
        next.written as int,
    ) =~= buffer.subrange(0, next.written as int));
    assert(run[k].after.link.accepted =~= run[0].before.link.accepted + buffer.subrange(
        0,
        next.written as int,
    ));
}

/// A read that succeeds has put into the front of its buffer what was next to
/// be read, no more than fits, as a read of any byte stream does, and left the
/// rest of the buffer alone: what it put there and what is unread after it are
/// what was unread before it and what was decrypted in it. It writes nothing of
/// its own.
pub proof fn law_read_gives_what_is_next(run: Seq<Turn<usize, Seq<u8>>>, count: usize)
    requires
        takes_turns(run),
        history(read_steps(run)),
        run.last().action == Action::<usize>::Done(Ok(count)),
    ensures
        count <= run[0].held.len(),
        run.last().kept.len() == run[0].held.len(),
        run.last().kept.skip(count as int) == run[0].held.skip(count as int),
        run.last().kept.take(count as int) + run.last().after.unread() == run[0].before.unread()
            + added(run[0].before.link.decrypted, run.last().after.link.decrypted),
        run.last().after.link.accepted == run[0].before.link.accepted,
{
    let steps = read_steps(run);
    let last = run.len() - 1;
    assert(steps[last].happens());
    lemma_read_so_far(run, last);
    lemma_read_fills_the_front(run[last], count);
    law_plaintext_is_read_in_order(steps);
    lemma_reads_deliver_at_the_end(run, run.len() as int);
    law_plaintext_is_accepted_in_order(steps);
    lemma_reads_accept_nothing(run, run.len() as int);
    assert(steps.take(run.len() as int) =~= steps);
    assert(run.last().after.link.accepted =~= run[0].before.link.accepted);
}

/// A turn in which a read succeeds fills the front of the buffer and leaves the
/// rest alone.
proof fn lemma_read_fills_the_front(turn: Turn<usize, Seq<u8>>, count: usize)
    requires
        Step::Read(turn).happens(),
        turn.action == Action::<usize>::Done(Ok(count)),
    ensures
        count <= turn.held.len(),
        turn.kept.len() == turn.held.len(),
        turn.kept.skip(count as int) == turn.held.skip(count as int),
{
    reveal(Step::happens);
    assert(turn.kept.skip(count as int) =~= turn.held.skip(count as int));
}

/// Before its last turn a read leaves its buffer alone.
proof fn lemma_read_so_far(run: Seq<Turn<usize, Seq<u8>>>, k: int)
    requires
        takes_turns(run),
        history(read_steps(run)),
        0 <= k < run.len(),
    ensures
        run[k].held == run[0].held,
    decreases k,
{
    reveal(Step::happens);
    let steps = read_steps(run);
    if k > 0 {
        lemma_read_so_far(run, k - 1);
        assert(steps[k - 1].happens());
        assert(answers(run[k - 1].action, run[k].event));
    }
}

/// A read delivers nothing before its last turn.
proof fn lemma_reads_deliver_at_the_end(run: Seq<Turn<usize, Seq<u8>>>, k: int)
    requires
        takes_turns(run),
        0 <= k <= run.len(),
    ensures
        all_delivered(read_steps(run).take(k)) == if k == run.len() {
            read_steps(run).last().delivered()
        } else {
            Seq::empty()
        },
    decreases k,
{
    let steps = read_steps(run);
    if k > 0 {
        lemma_reads_deliver_at_the_end(run, k - 1);
        assert(steps.take(k).drop_last() =~= steps.take(k - 1));
        assert(steps.take(k).last() == steps[k - 1]);
        if k < run.len() {
            lemma_goes_on(run, k - 1);
        }
        assert(all_delivered(steps.take(k)) =~= steps[k - 1].delivered());
    }
}

/// A read has nothing for rustls to accept.
proof fn lemma_reads_accept_nothing(run: Seq<Turn<usize, Seq<u8>>>, k: int)
    requires
        0 <= k <= run.len(),
    ensures
        all_accepted(read_steps(run).take(k)) == Seq::<u8>::empty(),
    decreases k,
{
    if k > 0 {
        lemma_reads_accept_nothing(run, k - 1);
        assert(read_steps(run).take(k).drop_last() =~= read_steps(run).take(k - 1));
    }
}

/// What has already been decrypted is served at once: a read that finds it
/// asks nothing of the stream and nothing of rustls.
pub proof fn law_decrypted_bytes_are_served_first(turn: Turn<usize, Seq<u8>>)
    requires
        Step::Read(turn).happens(),
        turn.event is Start,
        turn.before.pending.len() > 0,
    ensures
        turn.action matches Action::Done(Ok(count)) && count == served(
            turn.before.pending.len(),
            turn.held.len(),
        ),
        turn.after.link == turn.before.link,
{
    reveal(Step::happens);
}

/// Zero bytes for a reader with room for some mean that the peer has closed the
/// session: a stream that was cut short is never taken for that.
pub proof fn law_zero_means_a_clean_close(turn: Turn<usize, Seq<u8>>)
    requires
        Step::Read(turn).happens(),
        turn.held.len() > 0,
        turn.action == Action::<usize>::Done(Ok(0)),
    ensures
        turn.after.peer_closed,
        turn.after.pending.len() == 0,
{
    reveal(Step::happens);
}

/// The end of a stream without the peer's close is an error for a reader.
pub proof fn law_truncation_is_an_error(turn: Turn<usize, Seq<u8>>)
    requires
        Step::Read(turn).happens(),
        end_of_stream(turn.event),
        !turn.before.peer_closed,
    ensures
        turn.action == Action::<usize>::Done(Err(errno(codes::CONNECTION_RESET))),
        turn.after == turn.before,
        turn.kept == turn.held,
{
    reveal(Step::happens);
}

/// Once the peer has closed the session and all is read, a read gives zero,
/// and asks the stream for nothing but to send what is left.
pub proof fn law_closed_session_reads_zero(run: Seq<Turn<usize, Seq<u8>>>)
    requires
        takes_turns(run),
        history(read_steps(run)),
        run[0].before.peer_closed,
        run[0].before.pending.len() == 0,
    ensures
        forall|i: int| 0 <= i < run.len() ==> !((#[trigger] run[i]).action is Receive),
        run.last().action matches Action::Done(Ok(count)) ==> count == 0,
{
    let last = run.len() - 1;
    assert forall|i: int| 0 <= i < run.len() implies !((#[trigger] run[i]).action is Receive) by {
        lemma_closed_session_so_far(run, i);
    }
    lemma_closed_session_so_far(run, last);
}

/// What holds in turn `k` of a read of a session that the peer has closed.
proof fn lemma_closed_session_so_far(run: Seq<Turn<usize, Seq<u8>>>, k: int)
    requires
        takes_turns(run),
        history(read_steps(run)),
        run[0].before.peer_closed,
        run[0].before.pending.len() == 0,
        0 <= k < run.len(),
    ensures
        run[k].after.peer_closed,
        run[k].after.pending.len() == 0,
        !(run[k].action is Receive),
        run[k].action matches Action::Done(Ok(count)) ==> count == 0,
    decreases k,
{
    reveal(Step::happens);
    assert(read_steps(run)[k].happens());
    if k > 0 {
        lemma_closed_session_so_far(run, k - 1);
        assert(answers(run[k - 1].action, run[k].event));
    }
}

/// A close that succeeds has sent all that waited to be sent, and behind it, as
/// the last thing, what rustls queued to say goodbye: a `close_notify`, unless
/// that alert or a fatal one went before. It queues that once and nothing else.
pub proof fn law_close_sends_close_notify(run: Seq<Turn<(), ()>>)
    requires
        takes_turns(run),
        history(close_steps(run)),
        run.last().action == Action::<()>::Done(Ok(())),
    ensures
        run.last().after.link.outgoing.len() == 0,
        run.last().after.link.finished,
        run.last().after.link.queued == run[0].after.link.queued,
        all_handed_over(close_steps(run)) == run[0].before.link.outgoing + added(
            run[0].before.link.queued,
            run[0].after.link.queued,
        ),
        run[0].before.link.finished <==> run[0].after.link.queued == run[0].before.link.queued,
{
    reveal(Step::happens);
    let steps = close_steps(run);
    let last = run.len() - 1;
    assert(steps[last].happens());
    assert(steps[0].happens());
    law_ciphertext_is_sent_in_order(steps);
    lemma_close_queues_at_once(run, last);
    assert(all_handed_over(steps) + run.last().after.link.outgoing =~= all_handed_over(steps));
}

/// A close queues what it has to queue in its first turn.
proof fn lemma_close_queues_at_once(run: Seq<Turn<(), ()>>, k: int)
    requires
        takes_turns(run),
        history(close_steps(run)),
        0 <= k < run.len(),
    ensures
        run[k].after.link.queued == run[0].after.link.queued,
        run[k].after.link.finished,
    decreases k,
{
    reveal(Step::happens);
    assert(close_steps(run)[k].happens());
    if k > 0 {
        assert(answers(run[k - 1].action, run[k].event));
        lemma_close_queues_at_once(run, k - 1);
    }
}

/// A session that was closed, and has nothing to send, is closed again without
/// a word.
pub proof fn law_close_is_said_once(turn: Turn<(), ()>)
    requires
        Step::Close(turn).happens(),
        turn.event is Start,
        turn.before.link.finished,
        turn.before.link.outgoing.len() == 0,
    ensures
        turn.action == Action::<()>::Done(Ok(())),
        turn.after == turn.before,
{
    reveal(Step::happens);
}

/// Whether rustls refuses what `event` brings with `error`: a protocol error
/// where it has failed, and [`codes::IO`] where it is full.
pub open spec fn refuses(
    before: SessionView,
    event: Event,
    after: SessionView,
    error: Errno,
) -> bool {
    &&& brings_bytes(event)
    &&& {
        ||| error == errno(codes::PROTOCOL) && after.link.failed
        ||| error == errno(codes::IO) && after.link.full && after.link.consumed.len()
            - before.link.consumed.len() < brought_in(event).len()
    }
}

/// Every error has a cause. It is the failure of the stream, or the stream's
/// end before that of the handshake or of the session. Or it is rustls, which
/// refused what the stream brought, or does not go on with a writer's bytes:
/// it has failed, or it was offered all that was left and accepted nothing. A
/// close fails with its stream alone.
pub proof fn law_errors_have_a_cause(step: Step, error: Errno)
    requires
        step.happens(),
        step.error() == Some(error),
        !(step.event() is Refused),
    ensures
        ({
            ||| failure(step.event()) == Some(error)
            ||| end_of_stream(step.event()) && error == errno(codes::CONNECTION_RESET) && !(
            step is Close) && !(step is Read && step.before().peer_closed)
            ||| !(step is Close) && refuses(step.before(), step.event(), step.after(), error)
            ||| step matches Step::Write(turn) && error == errno(codes::IO) && {
                ||| turn.after.link.failed
                ||| turn.kept.upload.draining && turn.kept.upload.took == 0
                    && turn.after.link.outgoing.len() == 0 && (turn.kept.upload
                    == turn.held.upload || turn.after.link.refused
                    == turn.before.link.refused.push(
                    turn.held.buffer.skip(turn.kept.upload.written as int),
                ))
            }
        }),
{
    reveal(Step::happens);
}

/// A failure of the stream ends every operation with that failure, and leaves
/// the session as it was.
pub proof fn law_failures_of_the_stream_pass_through(step: Step, error: Errno)
    requires
        step.happens(),
        failure(step.event()) == Some(error),
    ensures
        step.after() == step.before(),
        step.error() == Some(error),
        step.ends(),
{
    reveal(Step::happens);
}

/// Whether two steps are turns of the same operation on sessions that look the
/// same, and were told the same.
pub open spec fn alike(one: Step, other: Step) -> bool {
    &&& one.before() == other.before()
    &&& one.event() == other.event()
    &&& match (one, other) {
        (Step::Handshake(_), Step::Handshake(_)) => true,
        (Step::Read(here), Step::Read(there)) => here.held == there.held,
        (Step::Write(here), Step::Write(there)) => here.held == there.held,
        (Step::Close(_), Step::Close(_)) => true,
        _ => false,
    }
}

/// Every operation is the same for both ends: of a turn, rustls decides what
/// becomes of its connection, and nothing else is left open. Two sessions that
/// look the same and are told the same, of which rustls makes the same, ask for
/// the same, deliver the same and look the same again.
pub proof fn law_both_ends_are_alike(one: Step, other: Step)
    requires
        one.happens(),
        other.happens(),
        alike(one, other),
        one.after().link == other.after().link,
    ensures
        one.after() == other.after(),
        one.handed_over() == other.handed_over(),
        one.delivered() == other.delivered(),
        one.accepted() == other.accepted(),
        one.waits() == other.waits(),
        one.ends() == other.ends(),
        one.error() == other.error(),
{
    law_step_keeps_order(one);
    law_step_keeps_order(other);
    match (one, other) {
        (Step::Handshake(here), Step::Handshake(there)) => lemma_handshakes_alike(here, there),
        (Step::Read(here), Step::Read(there)) => lemma_reads_alike(here, there),
        (Step::Write(here), Step::Write(there)) => lemma_writes_alike(here, there),
        (Step::Close(here), Step::Close(there)) => lemma_closes_alike(here, there),
        _ => {},
    }
    lemma_same_front(one.handed_over(), other.handed_over(), one.after().link.outgoing);
    lemma_same_front(one.delivered(), other.delivered(), one.after().unread());
    lemma_same_back(one.before().link.accepted, one.accepted(), other.accepted());
}

/// What is the same with the same behind it is the same.
proof fn lemma_same_front(one: Seq<u8>, other: Seq<u8>, back: Seq<u8>)
    requires
        one + back == other + back,
    ensures
        one == other,
{
    assert(one.len() + back.len() == (one + back).len());
    assert(other.len() + back.len() == (other + back).len());
    assert(one =~= (one + back).take(one.len() as int));
    assert(other =~= (other + back).take(other.len() as int));
}

/// What is the same with the same before it is the same.
proof fn lemma_same_back(front: Seq<u8>, one: Seq<u8>, other: Seq<u8>)
    requires
        front + one == front + other,
    ensures
        one == other,
{
    assert(one =~= (front + one).skip(front.len() as int));
    assert(other =~= (front + other).skip(front.len() as int));
}

/// Turns of handshakes that are alike end alike.
proof fn lemma_handshakes_alike(here: Turn<(), ()>, there: Turn<(), ()>)
    requires
        Step::Handshake(here).happens(),
        Step::Handshake(there).happens(),
        here.before == there.before,
        here.event == there.event,
        here.after.link == there.after.link,
    ensures
        here.after == there.after,
        here.action is Receive == there.action is Receive,
        here.action is Done == there.action is Done,
        error_of(here.action) == error_of(there.action),
{
    reveal(Step::happens);
}

/// Turns of reads that are alike end alike.
proof fn lemma_reads_alike(here: Turn<usize, Seq<u8>>, there: Turn<usize, Seq<u8>>)
    requires
        Step::Read(here).happens(),
        Step::Read(there).happens(),
        here.before == there.before,
        here.event == there.event,
        here.held == there.held,
        here.after.link == there.after.link,
    ensures
        here.after == there.after,
        here.action is Receive == there.action is Receive,
        here.action is Done == there.action is Done,
        error_of(here.action) == error_of(there.action),
{
    reveal(Step::happens);
}

/// What a write that goes on from `fed` and hands nothing over asks for.
proof fn lemma_write_due_answer(
    fed: SessionView,
    buffer: Seq<u8>,
    upload: Upload,
    after: SessionView,
    next: Upload,
    action: Action<()>,
)
    requires
        write_due(fed, buffer, upload, after, next, action),
    ensures
        after.pending == fed.pending,
        after.peer_closed == fed.peer_closed,
        after.link.consumed == fed.link.consumed,
        after.link.processed == fed.link.processed,
        after.link.vouched == fed.link.vouched,
        after.link.decrypted == fed.link.decrypted,
        after.link.full == fed.link.full,
        after.link.failed == fed.link.failed,
        after.link.closed == fed.link.closed,
        action is Send <==> handed_over(action).len() > 0,
        !(action is Send) ==> if upload.draining && upload.took == 0 || upload.written
            < buffer.len() && (after.link.failed || after.link.refused.len()
            > fed.link.refused.len()) {
            action == Action::<()>::Done(Err(errno(codes::IO)))
        } else if buffer.len() > 0 && after.link.handshaking {
            action is Receive
        } else {
            action matches Action::Done(Ok(_))
        },
{
}

/// What a turn of a write makes of a session and asks for, beside what it hands
/// over.
proof fn lemma_write_answer(turn: Turn<(), Parcel>)
    requires
        Step::Write(turn).happens(),
    ensures
        ({
            let event = turn.event;
            let before = turn.before;
            let after = turn.after;
            let bytes = brought_in(event);
            let count = after.link.consumed.len() - before.link.consumed.len();
            let silent = handed_over(turn.action).len() == 0;
            let refused = if brings_bytes(event) {
                verdict(before, bytes, after)
            } else {
                refusal(event)
            };
            &&& after.pending == if after.link.processed == before.link.processed {
                before.pending
            } else {
                before.unread() + added(before.link.decrypted, after.link.vouched)
            }
            &&& after.peer_closed == (before.peer_closed || brings_bytes(event)
                && after.link.closed && (count > 0 || !before.link.full))
            &&& if let Some(error) = failure(event) {
                turn.action == Action::<()>::Done(Err(error))
            } else if let Some(error) = refused {
                error_of(turn.action) == Some(error) && turn.action is Done == silent
            } else if end_of_stream(event) {
                turn.action == Action::<()>::Done(Err(errno(codes::CONNECTION_RESET)))
            } else if !silent {
                turn.action is Send
            } else {
                if turn.held.upload.draining && turn.held.upload.took == 0
                    || turn.held.upload.written < turn.held.buffer.len() && (after.link.failed
                    || after.link.refused.len() > before.link.refused.len()) {
                    turn.action == Action::<()>::Done(Err(errno(codes::IO)))
                } else if turn.held.buffer.len() > 0 && after.link.handshaking {
                    turn.action is Receive
                } else {
                    turn.action matches Action::Done(Ok(_))
                }
            }
        }),
{
    reveal(Step::happens);
    let bytes = brought_in(turn.event);
    let buffer = turn.held.buffer;
    let upload = turn.held.upload;
    let next = turn.kept.upload;
    if brings_bytes(turn.event) {
        let fed = choose|fed: SessionView| #[trigger]
            absorbs(turn.before, bytes, fed) && match verdict(turn.before, bytes, fed) {
                Some(error) => next == upload && refusal_due(fed, error, turn.after, turn.action),
                None => write_due(fed, buffer, upload, turn.after, next, turn.action),
            };
        if verdict(turn.before, bytes, fed) is None {
            lemma_write_due_answer(fed, buffer, upload, turn.after, next, turn.action);
        }
        assert(verdict(turn.before, bytes, turn.after) == verdict(turn.before, bytes, fed));
    } else if failure(turn.event) is None && refusal(turn.event) is None && !end_of_stream(
        turn.event,
    ) {
        lemma_write_due_answer(turn.before, buffer, upload, turn.after, next, turn.action);
    }
}

/// Turns of writes that are alike end alike.
proof fn lemma_writes_alike(here: Turn<(), Parcel>, there: Turn<(), Parcel>)
    requires
        Step::Write(here).happens(),
        Step::Write(there).happens(),
        here.before == there.before,
        here.event == there.event,
        here.held == there.held,
        here.after.link == there.after.link,
    ensures
        here.after == there.after,
        here.action is Receive == there.action is Receive,
        here.action is Done == there.action is Done,
        error_of(here.action) == error_of(there.action),
{
    lemma_write_keeps_order(here);
    lemma_write_keeps_order(there);
    lemma_same_front(
        handed_over(here.action),
        handed_over(there.action),
        here.after.link.outgoing,
    );
    lemma_write_answer(here);
    lemma_write_answer(there);
}

/// Turns of closes that are alike end alike.
proof fn lemma_closes_alike(here: Turn<(), ()>, there: Turn<(), ()>)
    requires
        Step::Close(here).happens(),
        Step::Close(there).happens(),
        here.before == there.before,
        here.event == there.event,
        here.after.link == there.after.link,
    ensures
        here.after == there.after,
        here.action is Receive == there.action is Receive,
        here.action is Done == there.action is Done,
        error_of(here.action) == error_of(there.action),
{
    reveal(Step::happens);
}

} // verus!
