//! What every single turn of an operation is held to, whatever the session
//! looks like and whatever the stream did: what it has to take in, what it has
//! to say to it, when it goes on, when it is over and with what.
//!
//! The laws here speak of the session before and after a turn, of the event
//! and of the action alone. Those of whole operations follow at the end.

use vstd::prelude::*;

use crate::connection::{added, LinkView};
use crate::error::{codes, Errno};
use crate::laws::{
    answers, close_steps, handshake_steps, history, law_never_waits_with_work_to_do,
    law_step_keeps_order, lemma_history_before_last, read_steps, takes_turns, write_steps, Parcel, Step, Turn,
};
use crate::turn::{
    absorbs, bids_farewell, brings_bytes, brought_in, close_due, read_due, refusal_due, verdict,
    write_due, Action, Event, SessionView, Upload,
};

verus! {

/// How many bytes rustls took in between two looks at a session.
pub open spec fn taken_in(before: SessionView, after: SessionView) -> int {
    after.link.consumed.len() - before.link.consumed.len()
}

/// What rustls has against `bytes` that the stream brought: the peer is at
/// fault where it took some of them in and has failed, and there is no room
/// where it is full and has not taken all.
pub open spec fn objection(before: SessionView, bytes: Seq<u8>, after: SessionView) -> Option<
    Errno,
> {
    if taken_in(before, after) > 0 && after.link.failed {
        Some(Errno(codes::PROTOCOL))
    } else if taken_in(before, after) < bytes.len() && after.link.full {
        Some(Errno(codes::IO))
    } else {
        None
    }
}

/// Whether `link` and `other` differ, if at all, in what waits to be sent.
pub open spec fn same_but_outgoing(link: LinkView, other: LinkView) -> bool {
    other == LinkView { outgoing: other.outgoing, ..link }
}

/// A step that has the stream write something has it write at least a byte: no
/// operation goes round without getting on.
pub proof fn law_every_send_moves_a_byte(step: Step)
    requires
        step.happens(),
    ensures
        match step {
            Step::Handshake(turn) => {
                &&& turn.action matches Action::Send(bytes) ==> bytes@.len() > 0
                &&& turn.action matches Action::Refuse(bytes, _) ==> bytes@.len() > 0
            },
            Step::Read(turn) => {
                &&& turn.action matches Action::Send(bytes) ==> bytes@.len() > 0
                &&& turn.action matches Action::Refuse(bytes, _) ==> bytes@.len() > 0
            },
            Step::Write(turn) => {
                &&& turn.action matches Action::Send(bytes) ==> bytes@.len() > 0
                &&& turn.action matches Action::Refuse(bytes, _) ==> bytes@.len() > 0
            },
            Step::Close(turn) => {
                &&& turn.action matches Action::Send(bytes) ==> bytes@.len() > 0
                &&& turn.action matches Action::Refuse(bytes, _) ==> bytes@.len() > 0
            },
        },
{
    reveal(Step::happens);
}

/// What an operation holds beside the session is left alone by the step.
pub open spec fn holds_on(step: Step) -> bool {
    match step {
        Step::Read(turn) => turn.kept == turn.held,
        Step::Write(turn) => turn.kept == turn.held,
        _ => true,
    }
}

/// An operation that is told a failure of the stream ends with that failure in
/// the same turn, and one that could not pass a refusal on ends with the
/// refusal. Nothing else changes.
pub proof fn law_failures_end_the_operation(step: Step, error: Errno)
    requires
        step.happens(),
        match step.event() {
            Event::Sent(Err(e)) => e == error,
            Event::Received(Err(e)) => e == error,
            Event::Refused(e, Err(_)) => e == error,
            _ => false,
        },
    ensures
        step.ends(),
        step.error() == Some(error),
        step.after() == step.before(),
        holds_on(step),
{
    reveal(Step::happens);
    if let Step::Write(turn) = step {
        assert(turn.kept == turn.held);
    }
}

/// The end of the stream resets a handshake and a write, and a read unless the
/// peer has closed the session. Nothing else changes.
pub proof fn law_end_of_stream_resets(step: Step)
    requires
        step.happens(),
        step.event() matches Event::Received(Ok(bytes)) && bytes@.len() == 0,
        step is Handshake || step is Write || (step is Read && !step.before().peer_closed),
    ensures
        step.ends(),
        step.error() == Some(Errno(codes::CONNECTION_RESET)),
        step.after() == step.before(),
        holds_on(step),
{
    reveal(Step::happens);
    if let Step::Write(turn) = step {
        assert(turn.kept == turn.held);
    }
}

/// An operation that has told the peer of a refusal goes on to tell it as long
/// as there is something to send, and ends with that refusal then. It does
/// nothing else.
pub proof fn law_refusals_are_passed_on(step: Step, error: Errno)
    requires
        step.happens(),
        step.event() matches Event::Refused(e, Ok(_)) && e == error,
    ensures
        step.error() == Some(error),
        step.ends() <==> step.before().link.outgoing.len() == 0,
        same_but_outgoing(step.before().link, step.after().link),
        step.before().link.outgoing == step.handed_over() + step.after().link.outgoing,
        step.after().pending == step.before().pending,
        step.after().peer_closed == step.before().peer_closed,
        holds_on(step),
{
    reveal(Step::happens);
    if let Step::Write(turn) = step {
        assert(turn.kept == turn.held);
    }
    assert(step.before().link.outgoing =~= step.handed_over() + step.after().link.outgoing);
}

/// What the stream brings is objected to exactly where rustls objects. Then the
/// operation ends with that objection, at once if there is nothing to send and
/// else when the peer is told, and holds on to what it has. Else a handshake and
/// a read do not fail on it.
pub proof fn law_objections_are_those_of_rustls(step: Step)
    requires
        step.happens(),
        !(step is Close),
        step.event() matches Event::Received(Ok(bytes)) && bytes@.len() > 0,
    ensures
        ({
            let bytes = step.event()->Received_0->Ok_0@;
            match objection(step.before(), bytes, step.after()) {
                Some(error) => {
                    &&& step.error() == Some(error)
                    &&& step.ends() ==> step.after().link.outgoing.len() == 0
                    &&& holds_on(step)
                },
                None => step is Write || step.error() is None,
            }
        }),
{
    match step {
        Step::Handshake(turn) => lemma_handshake_objects(turn),
        Step::Read(turn) => lemma_read_objects(turn),
        Step::Write(turn) => lemma_write_objects(turn),
        Step::Close(_) => {},
    }
}

/// The objections of a handshake.
proof fn lemma_handshake_objects(turn: Turn<(), ()>)
    requires
        Step::Handshake(turn).happens(),
        turn.event matches Event::Received(Ok(bytes)) && bytes@.len() > 0,
    ensures
        ({
            let step = Step::Handshake(turn);
            match objection(turn.before, turn.event->Received_0->Ok_0@, turn.after) {
                Some(error) => {
                    &&& step.error() == Some(error)
                    &&& step.ends() ==> turn.after.link.outgoing.len() == 0
                },
                None => step.error() is None,
            }
        }),
{
    reveal(Step::happens);
}

/// The objections of a read.
proof fn lemma_read_objects(turn: Turn<usize, Seq<u8>>)
    requires
        Step::Read(turn).happens(),
        turn.event matches Event::Received(Ok(bytes)) && bytes@.len() > 0,
    ensures
        ({
            let step = Step::Read(turn);
            match objection(turn.before, turn.event->Received_0->Ok_0@, turn.after) {
                Some(error) => {
                    &&& step.error() == Some(error)
                    &&& step.ends() ==> turn.after.link.outgoing.len() == 0
                    &&& turn.kept == turn.held
                },
                None => step.error() is None,
            }
        }),
{
    reveal(Step::happens);
}

/// How a write goes on from what the stream brought.
proof fn lemma_write_feeds(turn: Turn<(), Parcel>) -> (fed: SessionView)
    requires
        Step::Write(turn).happens(),
        turn.event matches Event::Received(Ok(bytes)) && bytes@.len() > 0,
    ensures
        turn.kept.buffer == turn.held.buffer,
        absorbs(turn.before, turn.event->Received_0->Ok_0@, fed),
        match verdict(turn.before, turn.event->Received_0->Ok_0@, fed) {
            Some(error) => turn.kept.upload == turn.held.upload && refusal_due(
                fed,
                error,
                turn.after,
                turn.action,
            ),
            None => write_due(
                fed,
                turn.held.buffer,
                turn.held.upload,
                turn.after,
                turn.kept.upload,
                turn.action,
            ),
        },
{
    reveal(Step::happens);
    let bytes = brought_in(turn.event);
    choose|fed: SessionView| #[trigger]
        absorbs(turn.before, bytes, fed) && match verdict(turn.before, bytes, fed) {
            Some(error) => turn.kept.upload == turn.held.upload && refusal_due(
                fed,
                error,
                turn.after,
                turn.action,
            ),
            None => write_due(
                fed,
                turn.held.buffer,
                turn.held.upload,
                turn.after,
                turn.kept.upload,
                turn.action,
            ),
        }
}

/// What of a session a write leaves alone, once it has taken in what came.
proof fn lemma_write_due_leaves(
    fed: SessionView,
    buffer: Seq<u8>,
    upload: Upload,
    after: SessionView,
    next: Upload,
    action: Action<()>,
)
    requires
        write_due(fed, buffer, upload, after, next, action),
    ensures
        after.pending == fed.pending,
        after.peer_closed == fed.peer_closed,
        after.link == (LinkView {
            outgoing: after.link.outgoing,
            queued: after.link.queued,
            accepted: after.link.accepted,
            refused: after.link.refused,
            held_back: after.link.held_back,
            finished: after.link.finished,
            ..fed.link
        }),
        !(action is Refuse),
{
}

/// The objections of a write.
proof fn lemma_write_objects(turn: Turn<(), Parcel>)
    requires
        Step::Write(turn).happens(),
        turn.event matches Event::Received(Ok(bytes)) && bytes@.len() > 0,
    ensures
        objection(turn.before, turn.event->Received_0->Ok_0@, turn.after) matches Some(error) ==> {
            &&& Step::Write(turn).error() == Some(error)
            &&& Step::Write(turn).ends() ==> turn.after.link.outgoing.len() == 0
            &&& turn.kept == turn.held
        },
        objection(turn.before, turn.event->Received_0->Ok_0@, turn.after) is None ==> !(
        turn.action is Refuse),
{
    let bytes = turn.event->Received_0->Ok_0@;
    let fed = lemma_write_feeds(turn);
    if verdict(turn.before, bytes, fed) is None {
        lemma_write_due_leaves(
            fed,
            turn.held.buffer,
            turn.held.upload,
            turn.after,
            turn.kept.upload,
            turn.action,
        );
    } else {
        assert(turn.kept == turn.held);
    }
}

/// What the stream brings is taken in from its front, all of it unless the peer
/// has closed the session or rustls objects, and nothing of it by a connection
/// that was closed or full. Nothing that was brought is taken in twice, and
/// nothing is taken in that was not brought.
pub proof fn law_what_comes_is_taken_in(step: Step)
    requires
        step.happens(),
        !(step is Close),
        step.event() matches Event::Received(Ok(bytes)) && bytes@.len() > 0,
    ensures
        ({
            let bytes = step.event()->Received_0->Ok_0@;
            let count = taken_in(step.before(), step.after());
            &&& 0 <= count <= bytes.len()
            &&& step.after().link.consumed == step.before().link.consumed + bytes.take(count)
            &&& step.before().link.closed || step.before().link.full ==> count == 0
            &&& count < bytes.len() ==> step.after().link.closed || objection(
                step.before(),
                bytes,
                step.after(),
            ) is Some
            &&& count > 0 && !step.after().link.failed ==> {
                &&& step.after().link.processed == step.after().link.consumed
                &&& step.after().link.plaintext.len() == 0
            }
        }),
{
    if let Step::Write(turn) = step {
        let fed = lemma_write_feeds(turn);
        if verdict(turn.before, turn.event->Received_0->Ok_0@, fed) is None {
            lemma_write_due_leaves(
                fed,
                turn.held.buffer,
                turn.held.upload,
                turn.after,
                turn.kept.upload,
                turn.action,
            );
        }
    } else {
        reveal(Step::happens);
    }
}

/// A close of the peer is noticed in the very step in which rustls learns of it,
/// or in which rustls shows that it has known.
pub proof fn law_a_close_is_noticed(step: Step)
    requires
        step.happens(),
    ensures
        !step.before().link.closed && step.after().link.closed ==> step.after().peer_closed,
        !(step is Close) && step.after().link.closed && (step.event() matches Event::Received(
            Ok(bytes),
        ) && bytes@.len() > 0) && (taken_in(step.before(), step.after()) > 0
            || !step.before().link.full) ==> step.after().peer_closed,
        step.after().peer_closed ==> step.before().peer_closed || step.after().link.closed,
        step.before().peer_closed ==> step.after().peer_closed,
{
    if let Step::Write(turn) = step {
        if turn.event matches Event::Received(Ok(bytes)) && bytes@.len() > 0 {
            let fed = lemma_write_feeds(turn);
            if verdict(turn.before, turn.event->Received_0->Ok_0@, fed) is None {
                lemma_write_due_leaves(
                    fed,
                    turn.held.buffer,
                    turn.held.upload,
                    turn.after,
                    turn.kept.upload,
                    turn.action,
                );
            }
        } else {
            lemma_quiet_write(turn);
        }
    } else {
        reveal(Step::happens);
    }
}

/// What a write that is brought nothing leaves alone.
proof fn lemma_quiet_write(turn: Turn<(), Parcel>)
    requires
        Step::Write(turn).happens(),
        !(turn.event matches Event::Received(Ok(bytes)) && bytes@.len() > 0),
    ensures
        turn.after.pending == turn.before.pending,
        turn.after.peer_closed == turn.before.peer_closed,
        turn.after.link == (LinkView {
            outgoing: turn.after.link.outgoing,
            queued: turn.after.link.queued,
            accepted: turn.after.link.accepted,
            refused: turn.after.link.refused,
            held_back: turn.after.link.held_back,
            finished: turn.after.link.finished,
            ..turn.before.link
        }),
{
    reveal(Step::happens);
    match turn.event {
        Event::Start => {
            lemma_write_due_leaves(
                turn.before,
                turn.held.buffer,
                turn.held.upload,
                turn.after,
                turn.kept.upload,
                turn.action,
            );
        },
        Event::Sent(Ok(_)) => {
            lemma_write_due_leaves(
                turn.before,
                turn.held.buffer,
                turn.held.upload,
                turn.after,
                turn.kept.upload,
                turn.action,
            );
        },
        _ => {},
    }
}

/// A step that is brought nothing takes in nothing and learns nothing. A
/// handshake and a read then queue nothing either, and leave rustls alone but
/// for what they send. A write has rustls queue and accept, and no operation but
/// a read takes from what waits for the caller.
pub proof fn law_quiet_steps_learn_nothing(step: Step)
    requires
        step.happens(),
        step is Close || !(step.event() matches Event::Received(Ok(bytes)) && bytes@.len() > 0),
    ensures
        step.after().peer_closed == step.before().peer_closed,
        step is Handshake || step is Read ==> same_but_outgoing(
            step.before().link,
            step.after().link,
        ),
        step is Write || step is Close ==> step.after().link == (LinkView {
            outgoing: step.after().link.outgoing,
            queued: step.after().link.queued,
            accepted: step.after().link.accepted,
            refused: step.after().link.refused,
            held_back: step.after().link.held_back,
            finished: step.after().link.finished,
            ..step.before().link
        }),
        step.before().pending == step.delivered() + step.after().pending,
{
    match step {
        Step::Write(turn) => {
            lemma_quiet_write(turn);
            assert(step.before().pending =~= step.delivered() + step.after().pending);
        },
        Step::Read(turn) => {
            reveal(Step::happens);
            assert(step.before().pending =~= step.delivered() + step.after().pending);
        },
        _ => {
            reveal(Step::happens);
            assert(step.before().pending =~= step.delivered() + step.after().pending);
        },
    }
}

/// What waits for the caller after a step, and was delivered in it, is what
/// waited before, what rustls held then, and what it has decrypted since while
/// all went well. What rustls decrypted when it found the peer at fault is kept
/// from the caller.
pub proof fn law_nothing_doubtful_waits(step: Step)
    requires
        step.happens(),
    ensures
        step.delivered() + step.after().pending == if step.after().link.processed
            == step.before().link.processed {
            step.before().pending
        } else {
            step.before().pending + step.before().link.plaintext + added(
                step.before().link.decrypted,
                step.after().link.vouched,
            )
        },
        step.before().link.failed ==> step.after().link.processed == step.before().link.processed,
{
    if step is Close || !(step.event() matches Event::Received(Ok(bytes)) && bytes@.len() > 0) {
        law_quiet_steps_learn_nothing(step);
    } else {
        match step {
            Step::Write(turn) => {
                let fed = lemma_write_feeds(turn);
                if verdict(turn.before, turn.event->Received_0->Ok_0@, fed) is None {
                    lemma_write_due_leaves(
                        fed,
                        turn.held.buffer,
                        turn.held.upload,
                        turn.after,
                        turn.kept.upload,
                        turn.action,
                    );
                }
                assert(step.delivered() + step.after().pending =~= fed.pending);
            },
            Step::Read(turn) => lemma_read_nothing_doubtful(turn),
            _ => {
                reveal(Step::happens);
                assert(step.delivered() + step.after().pending =~= step.after().pending);
            },
        }
    }
}

/// What waits after a read that was brought something, and was delivered in it.
proof fn lemma_read_nothing_doubtful(turn: Turn<usize, Seq<u8>>)
    requires
        Step::Read(turn).happens(),
        turn.event matches Event::Received(Ok(bytes)) && bytes@.len() > 0,
    ensures
        ({
            let step = Step::Read(turn);
            &&& step.delivered() + turn.after.pending == if turn.after.link.processed
                == turn.before.link.processed {
                turn.before.pending
            } else {
                turn.before.pending + turn.before.link.plaintext + added(
                    turn.before.link.decrypted,
                    turn.after.link.vouched,
                )
            }
            &&& turn.before.link.failed ==> turn.after.link.processed
                == turn.before.link.processed
        }),
{
    reveal(Step::happens);
    let step = Step::Read(turn);
    let bytes = brought_in(turn.event);
    let fed = choose|fed: SessionView| #[trigger]
        absorbs(turn.before, bytes, fed) && match verdict(turn.before, bytes, fed) {
            Some(error) => turn.kept == turn.held && refusal_due(
                fed,
                error,
                turn.after,
                turn.action,
            ),
            None => read_due(fed, turn.held, turn.after, turn.kept, turn.action),
        };
    assert(step.delivered() + turn.after.pending =~= fed.pending);
}

/// Only a close says goodbye, and no operation but a write offers anything. A
/// handshake and a read ask nothing of rustls that is on record. A write is
/// refused nothing but all that was left to write, and is never refused
/// nothing. A close asks for the end once, and not again.
pub proof fn law_only_a_close_says_goodbye(step: Step)
    requires
        step.happens(),
    ensures
        match step {
            Step::Write(turn) => {
                ||| turn.after.link.refused == turn.before.link.refused
                ||| turn.kept.upload.written < turn.held.buffer.len() && turn.after.link.refused
                    == turn.before.link.refused.push(
                    turn.held.buffer.skip(turn.kept.upload.written as int),
                )
            },
            Step::Close(turn) => {
                &&& turn.after.link.accepted == turn.before.link.accepted
                &&& turn.after.link.refused == if turn.event is Start
                    && !turn.before.link.finished {
                    turn.before.link.refused.push(seq![])
                } else {
                    turn.before.link.refused
                }
            },
            _ => {
                &&& step.after().link.accepted == step.before().link.accepted
                &&& step.after().link.refused == step.before().link.refused
            },
        },
{
    match step {
        Step::Write(turn) => lemma_write_upload(turn),
        Step::Close(turn) => {
            reveal(Step::happens);
            if turn.event is Start {
                assert(turn.after.link.refused =~= if !turn.before.link.finished {
                    turn.before.link.refused.push(seq![])
                } else {
                    turn.before.link.refused
                });
            }
        },
        _ => {
            reveal(Step::happens);
        },
    }
}

/// A turn of a handshake that does not fail sends while there is something to
/// send. When there is nothing, it waits for the peer as long as rustls is at
/// the handshake, and is over, with success, when rustls is not: whatever it was
/// told.
pub proof fn law_handshake_knows_when_it_is_over(turn: Turn<(), ()>)
    requires
        Step::Handshake(turn).happens(),
        Step::Handshake(turn).error() is None,
    ensures
        !(turn.action is Send) ==> {
            &&& turn.after.link.outgoing.len() == 0
            &&& turn.action == if turn.after.link.handshaking {
                Action::<()>::Receive
            } else {
                Action::<()>::Done(Ok(()))
            }
        },
        !turn.after.link.handshaking ==> turn.after.link.encrypting
            && turn.after.link.held_back.len() == 0,
{
    reveal(Step::happens);
}

/// A turn of a read that does not fail delivers what waits, as much as there is
/// or as the reader has room for, whichever is less, and nothing else matters
/// then. When nothing waits, it sends while there is something to send. When
/// there is nothing, it is over with zero if the peer has closed the session,
/// and waits for the peer if not: whatever it was told.
pub proof fn law_read_serves_or_goes_on(turn: Turn<usize, Seq<u8>>)
    requires
        Step::Read(turn).happens(),
        Step::Read(turn).error() is None,
    ensures
        ({
            let waiting = Step::Read(turn).delivered() + turn.after.pending;
            if waiting.len() > 0 {
                turn.action matches Action::Done(Ok(count)) && count == if waiting.len()
                    < turn.held.len() {
                    waiting.len()
                } else {
                    turn.held.len()
                }
            } else {
                !(turn.action is Send) ==> {
                    &&& turn.after.link.outgoing.len() == 0
                    &&& turn.action == if turn.after.peer_closed {
                        Action::<usize>::Done(Ok(0))
                    } else {
                        Action::<usize>::Receive
                    }
                }
            }
        }),
{
    reveal(Step::happens);
    lemma_read_waiting(turn);
}

/// A read that has something to deliver.
proof fn lemma_read_waiting(turn: Turn<usize, Seq<u8>>)
    requires
        Step::Read(turn).happens(),
        Step::Read(turn).error() is None,
    ensures
        exists|fed: SessionView|
            fed.pending == Step::Read(turn).delivered() + turn.after.pending && #[trigger] read_due(
                fed,
                turn.held,
                turn.after,
                turn.kept,
                turn.action,
            ),
{
    reveal(Step::happens);
    let step = Step::Read(turn);
    let bytes = brought_in(turn.event);
    let fed = if brings_bytes(turn.event) {
        choose|fed: SessionView| #[trigger]
            absorbs(turn.before, bytes, fed) && match verdict(turn.before, bytes, fed) {
                Some(error) => turn.kept == turn.held && refusal_due(
                    fed,
                    error,
                    turn.after,
                    turn.action,
                ),
                None => read_due(fed, turn.held, turn.after, turn.kept, turn.action),
            }
    } else {
        turn.before
    };
    assert(read_due(fed, turn.held, turn.after, turn.kept, turn.action));
    assert(fed.pending =~= step.delivered() + turn.after.pending);
}

/// A read fills the front of its buffer with what it delivers, and leaves the
/// rest of it alone. It delivers nothing but in the turn in which it succeeds.
pub proof fn law_read_leaves_the_rest_of_the_buffer(turn: Turn<usize, Seq<u8>>)
    requires
        Step::Read(turn).happens(),
    ensures
        ({
            let count = match turn.action {
                Action::Done(Ok(count)) => count as int,
                _ => 0,
            };
            &&& 0 <= count <= turn.held.len()
            &&& turn.kept.len() == turn.held.len()
            &&& turn.kept.skip(count) == turn.held.skip(count)
        }),
{
    reveal(Step::happens);
    let count = match turn.action {
        Action::Done(Ok(count)) => count as int,
        _ => 0,
    };
    assert(turn.kept.skip(count) =~= turn.held.skip(count));
}

/// What a turn of a write makes of its upload. It gets on, from the front of
/// what is left. An upload that is stalled, of which rustls took nothing last,
/// was so before, or was refused all that is left in this turn.
proof fn lemma_write_upload(turn: Turn<(), Parcel>)
    requires
        Step::Write(turn).happens(),
    ensures
        turn.kept.buffer == turn.held.buffer,
        turn.held.upload.written <= turn.kept.upload.written,
        turn.kept.upload.written <= turn.held.buffer.len() || turn.kept.upload.written
            == turn.held.upload.written,
        turn.after.link.accepted == turn.before.link.accepted + turn.held.buffer.subrange(
            turn.held.upload.written as int,
            turn.kept.upload.written as int,
        ) || (turn.after.link.accepted == turn.before.link.accepted && turn.kept.upload.written
            == turn.held.upload.written),
        ({
            ||| turn.after.link.refused == turn.before.link.refused && (turn.kept.upload.draining
                && turn.kept.upload.took == 0 ==> turn.kept.upload == turn.held.upload)
            ||| turn.kept.upload.written < turn.held.buffer.len() && turn.after.link.refused
                == turn.before.link.refused.push(
                turn.held.buffer.skip(turn.kept.upload.written as int),
            ) && turn.kept.upload.draining && turn.kept.upload.took == 0
        }),
        turn.held.upload.draining && turn.held.upload.took == 0 ==> turn.kept.upload
            == turn.held.upload,
{
    if turn.event matches Event::Received(Ok(bytes)) && bytes@.len() > 0 {
        let fed = lemma_write_feeds(turn);
        if verdict(turn.before, turn.event->Received_0->Ok_0@, fed) is None {
            lemma_write_due_upload(
                fed,
                turn.held.buffer,
                turn.held.upload,
                turn.after,
                turn.kept.upload,
                turn.action,
            );
        }
    } else {
        reveal(Step::happens);
        if turn.event is Start || turn.event matches Event::Sent(Ok(_)) {
            lemma_write_due_upload(
                turn.before,
                turn.held.buffer,
                turn.held.upload,
                turn.after,
                turn.kept.upload,
                turn.action,
            );
        }
    }
}

/// What a write that goes on makes of its upload.
proof fn lemma_write_due_upload(
    fed: SessionView,
    buffer: Seq<u8>,
    upload: Upload,
    after: SessionView,
    next: Upload,
    action: Action<()>,
)
    requires
        write_due(fed, buffer, upload, after, next, action),
    ensures
        upload.written <= next.written,
        next.written <= buffer.len() || next.written == upload.written,
        after.link.accepted == fed.link.accepted + buffer.subrange(
            upload.written as int,
            next.written as int,
        ) || (after.link.accepted == fed.link.accepted && next.written == upload.written),
        ({
            ||| after.link.refused == fed.link.refused && (next.draining && next.took == 0
                ==> next == upload)
            ||| next.written < buffer.len() && after.link.refused == fed.link.refused.push(
                buffer.skip(next.written as int),
            ) && next.draining && next.took == 0
        }),
        upload.draining && upload.took == 0 ==> next == upload,
{
    let rest = buffer.skip(next.written as int);
    assert(fed.link.refused + seq![rest] =~= fed.link.refused.push(rest));
    assert(fed.link.refused + Seq::<Seq<u8>>::empty() =~= fed.link.refused);
}

/// A turn of a write that does not fail sends while there is something to send.
/// When there is nothing, all is written. It then goes on with the handshake as
/// long as rustls is at it, and is over, with success and nothing held back,
/// when rustls is not: whatever it was told. A write of nothing that has not
/// begun is over at once.
pub proof fn law_write_knows_when_it_is_over(turn: Turn<(), Parcel>)
    requires
        Step::Write(turn).happens(),
        Step::Write(turn).error() is None,
    ensures
        turn.held.buffer.len() > 0 && !(turn.action is Send) ==> {
            &&& turn.after.link.outgoing.len() == 0
            &&& turn.kept.upload.written >= turn.held.buffer.len()
            &&& !turn.kept.upload.draining
            &&& turn.action == if turn.after.link.handshaking {
                Action::<()>::Receive
            } else {
                Action::<()>::Done(Ok(()))
            }
            &&& !turn.after.link.handshaking ==> turn.after.link.encrypting
                && turn.after.link.held_back.len() == 0
        },
        turn.held.buffer.len() == 0 && !turn.held.upload.draining ==> turn.action == Action::<
            (),
        >::Done(Ok(())),
{
    if turn.event matches Event::Received(Ok(bytes)) && bytes@.len() > 0 {
        let fed = lemma_write_feeds(turn);
        if verdict(turn.before, turn.event->Received_0->Ok_0@, fed) is None {
            lemma_write_due_ends(
                fed,
                turn.held.buffer,
                turn.held.upload,
                turn.after,
                turn.kept.upload,
                turn.action,
            );
        }
    } else {
        reveal(Step::happens);
        if turn.event is Start || turn.event matches Event::Sent(Ok(_)) {
            lemma_write_due_ends(
                turn.before,
                turn.held.buffer,
                turn.held.upload,
                turn.after,
                turn.kept.upload,
                turn.action,
            );
        }
    }
}

/// How a write that goes on and does not fail ends, or waits.
proof fn lemma_write_due_ends(
    fed: SessionView,
    buffer: Seq<u8>,
    upload: Upload,
    after: SessionView,
    next: Upload,
    action: Action<()>,
)
    requires
        write_due(fed, buffer, upload, after, next, action),
        !(action matches Action::Done(Err(_))),
    ensures
        buffer.len() > 0 && !(action is Send) ==> {
            &&& after.link.outgoing.len() == 0
            &&& next.written >= buffer.len()
            &&& !next.draining
            &&& action == if after.link.handshaking {
                Action::<()>::Receive
            } else {
                Action::<()>::Done(Ok(()))
            }
            &&& !after.link.handshaking ==> after.link.encrypting && after.link.held_back.len()
                == 0
        },
        buffer.len() == 0 && !upload.draining ==> action == Action::<()>::Done(Ok(())),
{
}

/// A turn of a close that does not fail sends while there is something to send,
/// and is over, with success, when there is nothing: whatever it was told. It
/// never waits. The first turn has rustls queue its goodbye, unless it had, and
/// the others have it queue nothing.
pub proof fn law_close_knows_when_it_is_over(turn: Turn<(), ()>)
    requires
        Step::Close(turn).happens(),
        Step::Close(turn).error() is None,
    ensures
        !(turn.action is Send) ==> {
            &&& turn.after.link.outgoing.len() == 0
            &&& turn.action == Action::<()>::Done(Ok(()))
        },
        turn.event is Start ==> {
            &&& turn.after.link.finished
            &&& turn.before.link.finished <==> turn.after.link.queued == turn.before.link.queued
        },
        !(turn.event is Start) ==> {
            &&& turn.after.link.finished == turn.before.link.finished
            &&& turn.after.link.queued == turn.before.link.queued
        },
        turn.after.link.held_back == turn.before.link.held_back,
{
    reveal(Step::happens);
    if turn.event is Start {
        let parting = choose|parting: SessionView| #[trigger]
            bids_farewell(turn.before, parting) && close_due(parting, turn.after, turn.action);
        assert(parting.link.held_back =~= turn.before.link.held_back);
    }
}

/// No operation fails but for what it is told, for what rustls has against what
/// the stream brought, or, if it is a write, because rustls does not take what is
/// left: it has failed, or it refused all of it and has nothing to send.
pub proof fn law_nothing_fails_without_a_reason(step: Step, error: Errno)
    requires
        step.happens(),
        step.error() == Some(error),
    ensures
        match step.event() {
            Event::Sent(Err(e)) => e == error,
            Event::Received(Err(e)) => e == error,
            Event::Refused(e, _) => e == error,
            Event::Received(Ok(bytes)) if bytes@.len() == 0 && !(step is Close) => error == Errno(
                codes::CONNECTION_RESET,
            ) && !(step is Read && step.before().peer_closed),
            Event::Received(Ok(bytes)) if !(step is Close) && objection(
                step.before(),
                bytes@,
                step.after(),
            ) is Some => objection(step.before(), bytes@, step.after()) == Some(error),
            _ => step matches Step::Write(turn) && {
                &&& error == Errno(codes::IO)
                &&& turn.action is Done
                &&& {
                    ||| turn.after.link.failed && turn.kept.upload.written
                        < turn.held.buffer.len() && turn.after.link.accepted
                        == turn.before.link.accepted
                    ||| turn.kept.upload.draining && turn.kept.upload.took == 0
                        && turn.after.link.outgoing.len() == 0
                }
            },
        },
{
    match step {
        Step::Write(turn) => {
            lemma_write_reason(turn, error);
        },
        Step::Handshake(turn) => {
            if turn.event matches Event::Received(Ok(bytes)) && bytes@.len() > 0 {
                lemma_handshake_objects(turn);
            } else {
                reveal(Step::happens);
            }
        },
        Step::Read(turn) => {
            if turn.event matches Event::Received(Ok(bytes)) && bytes@.len() > 0 {
                lemma_read_objects(turn);
            } else {
                reveal(Step::happens);
            }
        },
        Step::Close(_) => {
            reveal(Step::happens);
        },
    }
}

/// Why a write fails.
proof fn lemma_write_reason(turn: Turn<(), Parcel>, error: Errno)
    requires
        Step::Write(turn).happens(),
        Step::Write(turn).error() == Some(error),
    ensures
        match turn.event {
            Event::Sent(Err(e)) => e == error,
            Event::Received(Err(e)) => e == error,
            Event::Refused(e, _) => e == error,
            Event::Received(Ok(bytes)) if bytes@.len() == 0 => error == Errno(
                codes::CONNECTION_RESET,
            ),
            Event::Received(Ok(bytes)) if objection(turn.before, bytes@, turn.after) is Some =>
                objection(turn.before, bytes@, turn.after) == Some(error),
            _ => {
                &&& error == Errno(codes::IO)
                &&& turn.action is Done
                &&& {
                    ||| turn.after.link.failed && turn.kept.upload.written
                        < turn.held.buffer.len() && turn.after.link.accepted
                        == turn.before.link.accepted
                    ||| turn.kept.upload.draining && turn.kept.upload.took == 0
                        && turn.after.link.outgoing.len() == 0
                }
            },
        },
{
    if turn.event matches Event::Received(Ok(bytes)) && bytes@.len() > 0 {
        lemma_write_objects(turn);
        let fed = lemma_write_feeds(turn);
        if verdict(turn.before, turn.event->Received_0->Ok_0@, fed) is None {
            lemma_write_due_leaves(
                fed,
                turn.held.buffer,
                turn.held.upload,
                turn.after,
                turn.kept.upload,
                turn.action,
            );
            lemma_write_due_reason(
                fed,
                turn.held.buffer,
                turn.held.upload,
                turn.after,
                turn.kept.upload,
                turn.action,
                error,
            );
        }
    } else {
        reveal(Step::happens);
        if turn.event is Start || turn.event matches Event::Sent(Ok(_)) {
            lemma_write_due_reason(
                turn.before,
                turn.held.buffer,
                turn.held.upload,
                turn.after,
                turn.kept.upload,
                turn.action,
                error,
            );
        }
    }
}

/// Why a write that goes on fails.
proof fn lemma_write_due_reason(
    fed: SessionView,
    buffer: Seq<u8>,
    upload: Upload,
    after: SessionView,
    next: Upload,
    action: Action<()>,
    error: Errno,
)
    requires
        write_due(fed, buffer, upload, after, next, action),
        action == Action::<()>::Done(Err(error)) || action is Refuse,
    ensures
        action is Done,
        error == Errno(codes::IO),
        after.link.failed && next.written < buffer.len() && after.link.accepted
            == fed.link.accepted || (next.draining && next.took == 0 && after.link.outgoing.len()
            == 0),
{
}

/// A write with something left to write fails on a connection that has failed,
/// once what came of it before is sent, and offers nothing.
pub proof fn law_failed_connections_refuse_writes(turn: Turn<(), Parcel>)
    requires
        Step::Write(turn).happens(),
        turn.event is Start || turn.event == Event::Sent(Ok(())),
        turn.before.link.failed,
        turn.held.upload.written < turn.held.buffer.len(),
    ensures
        turn.action is Send || turn.action == Action::<()>::Done(Err(Errno(codes::IO))),
        turn.kept.upload.written == turn.held.upload.written,
        same_but_outgoing(turn.before.link, turn.after.link),
{
    reveal(Step::happens);
}

/// The upload of a write that began afresh is stalled only where rustls was
/// offered all that was left and took nothing of it, in this very write. Where
/// it is not stalled, rustls has refused nothing in this write.
proof fn lemma_stalls_are_of_rustls(run: Seq<Turn<(), Parcel>>, k: int)
    requires
        takes_turns(run),
        history(write_steps(run)),
        run[0].held.upload == (Upload { written: 0, took: 0, draining: false }),
        0 <= k < run.len(),
    ensures
        run[k].kept.buffer == run[0].held.buffer,
        ({
            let upload = run[k].kept.upload;
            let refused = run[k].after.link.refused;
            if upload.draining && upload.took == 0 {
                &&& upload.written < run[0].held.buffer.len()
                &&& refused == run[0].before.link.refused.push(
                    run[0].held.buffer.skip(upload.written as int),
                )
            } else {
                refused == run[0].before.link.refused
            }
        }),
    decreases k,
{
    let steps = write_steps(run);
    assert(steps[k].happens());
    lemma_write_upload(run[k]);
    if k > 0 {
        lemma_stalls_are_of_rustls(run, k - 1);
        assert(run[k].before == run[k - 1].after);
        assert(run[k].held == run[k - 1].kept);
        lemma_stalled_write_refuses_no_more(run[k]);
    }
}

/// A stalled write asks for nothing more.
proof fn lemma_stalled_write_refuses_no_more(turn: Turn<(), Parcel>)
    requires
        Step::Write(turn).happens(),
    ensures
        turn.held.upload.draining && turn.held.upload.took == 0 ==> turn.after.link.refused
            == turn.before.link.refused,
{
    if turn.event matches Event::Received(Ok(bytes)) && bytes@.len() > 0 {
        let fed = lemma_write_feeds(turn);
    } else {
        reveal(Step::happens);
    }
}

/// A write from its beginning, whatever the size of its buffer: it fails for
/// nothing but what it is told, what rustls has against what the stream brought,
/// or because rustls does not take what is left. Then its connection has
/// failed, or in this very write rustls was offered all that is left, took
/// nothing of it, and has sent all it had. A short accept is none of these.
pub proof fn law_writes_fail_for_rustls_alone(run: Seq<Turn<(), Parcel>>, error: Errno)
    requires
        takes_turns(run),
        history(write_steps(run)),
        run[0].held.upload == (Upload { written: 0, took: 0, draining: false }),
        run.last().action == Action::<()>::Done(Err(error)),
    ensures
        match run.last().event {
            Event::Sent(Err(e)) => e == error,
            Event::Received(Err(e)) => e == error,
            Event::Refused(e, _) => e == error,
            Event::Received(Ok(bytes)) if bytes@.len() == 0 => error == Errno(
                codes::CONNECTION_RESET,
            ),
            Event::Received(Ok(bytes)) if objection(
                run.last().before,
                bytes@,
                run.last().after,
            ) is Some => objection(run.last().before, bytes@, run.last().after) == Some(error),
            _ => {
                &&& error == Errno(codes::IO)
                &&& run.last().kept.upload.written < run[0].held.buffer.len()
                &&& {
                    ||| run.last().after.link.failed
                    ||| run.last().after.link.outgoing.len() == 0 && run.last().after.link.refused
                        == run[0].before.link.refused.push(
                        run[0].held.buffer.skip(run.last().kept.upload.written as int),
                    )
                }
            },
        },
{
    let last = run.len() - 1;
    assert(write_steps(run)[last].happens());
    lemma_write_reason(run[last], error);
    lemma_stalls_are_of_rustls(run, last);
    lemma_write_within(run, last);
}

/// A write from its beginning that succeeds was refused nothing on the way: one
/// that was refused does not go on.
pub proof fn law_writes_that_succeed_were_not_refused(run: Seq<Turn<(), Parcel>>)
    requires
        takes_turns(run),
        history(write_steps(run)),
        run[0].held.upload == (Upload { written: 0, took: 0, draining: false }),
        run[0].held.buffer.len() > 0,
        run.last().action == Action::<()>::Done(Ok(())),
    ensures
        run.last().after.link.refused == run[0].before.link.refused,
        run.last().kept.upload.written == run[0].held.buffer.len(),
{
    let last = run.len() - 1;
    assert(write_steps(run)[last].happens());
    lemma_stalls_are_of_rustls(run, last);
    if last > 0 {
        lemma_stalls_are_of_rustls(run, last - 1);
    }
    law_write_knows_when_it_is_over(run[last]);
    lemma_write_within(run, last);
}

/// A write from its beginning never gets past the end of its buffer.
proof fn lemma_write_within(run: Seq<Turn<(), Parcel>>, k: int)
    requires
        takes_turns(run),
        history(write_steps(run)),
        run[0].held.upload == (Upload { written: 0, took: 0, draining: false }),
        0 <= k < run.len(),
    ensures
        run[k].held.buffer == run[0].held.buffer,
        run[k].kept.buffer == run[0].held.buffer,
        run[k].kept.upload.written <= run[0].held.buffer.len(),
    decreases k,
{
    assert(write_steps(run)[k].happens());
    lemma_write_upload(run[k]);
    if k > 0 {
        lemma_write_within(run, k - 1);
        assert(run[k].held == run[k - 1].kept);
    }
}

/// Whatever a session goes through, a close of the peer is never missed: a
/// session that did not know of one in the beginning without having noticed it
/// never does.
pub proof fn law_a_close_is_never_missed(steps: Seq<Step>)
    requires
        history(steps),
        steps[0].before().link.closed ==> steps[0].before().peer_closed,
    ensures
        steps.last().after().link.closed ==> steps.last().after().peer_closed,
    decreases steps.len(),
{
    let last = steps.last();
    law_a_close_is_noticed(last);
    if steps.len() > 1 {
        lemma_history_before_last(steps);
        law_a_close_is_never_missed(steps.drop_last());
    }
}

/// How many bytes the stream has written and brought in the turns of `run`.
pub open spec fn moved<T, X>(run: Seq<Turn<T, X>>) -> nat
    decreases run.len(),
{
    if run.len() == 0 {
        0
    } else {
        let sent: nat = match run.last().action {
            Action::Send(bytes) => bytes@.len(),
            Action::Refuse(bytes, _) => bytes@.len(),
            _ => 0,
        };
        let brought: nat = match run.last().event {
            Event::Received(Ok(bytes)) => bytes@.len(),
            _ => 0,
        };
        moved(run.drop_last()) + sent + brought
    }
}

/// Whether a turn has the stream write at least a byte, if it has it write, and
/// is over, if it waited and the stream brought nothing.
spec fn gets_on<T, X>(turn: Turn<T, X>) -> bool {
    &&& turn.action matches Action::Send(bytes) ==> bytes@.len() > 0
    &&& turn.action matches Action::Refuse(bytes, _) ==> bytes@.len() > 0
    &&& turn.event is Received && !(turn.event matches Event::Received(Ok(bytes)) && bytes@.len()
        > 0) ==> turn.action is Done
}

/// As long as an operation is not over, every turn has moved a byte, or waits
/// for one.
proof fn lemma_turns_move_bytes<T, X>(run: Seq<Turn<T, X>>, k: int)
    requires
        takes_turns(run),
        forall|i: int| 0 <= i < run.len() ==> gets_on(#[trigger] run[i]),
        0 <= k < run.len(),
    ensures
        k <= moved(run.take(k)) + 1,
        k > 0 && !(run[k - 1].action is Receive) ==> k <= moved(run.take(k)),
    decreases k,
{
    if k > 0 {
        lemma_turns_move_bytes(run, k - 1);
        assert(run.take(k).drop_last() =~= run.take(k - 1));
        assert(run.take(k).last() == run[k - 1]);
        assert(gets_on(run[k - 1]));
        assert(run[k].before == run[k - 1].after);
        if k > 1 {
            assert(run[k - 1].before == run[k - 2].after);
        }
    }
}

/// An operation whose turns all get on takes no more turns than bytes were
/// moved, and two.
proof fn lemma_runs_are_bounded<T, X>(run: Seq<Turn<T, X>>)
    requires
        takes_turns(run),
        forall|i: int| 0 <= i < run.len() ==> gets_on(#[trigger] run[i]),
    ensures
        run.len() <= moved(run) + 2,
{
    let last = run.len() - 1;
    lemma_turns_move_bytes(run, last);
    assert(run.drop_last() =~= run.take(last));
}

/// A handshake gets on: it takes no more turns than bytes were sent and brought
/// in it, and two. None of its turns goes round for nothing.
pub proof fn law_handshakes_get_on(run: Seq<Turn<(), ()>>)
    requires
        takes_turns(run),
        history(handshake_steps(run)),
    ensures
        run.len() <= moved(run) + 2,
{
    assert forall|i: int| 0 <= i < run.len() implies gets_on(#[trigger] run[i]) by {
        let step = handshake_steps(run)[i];
        assert(step.happens());
        law_every_send_moves_a_byte(step);
        lemma_waiting_for_nothing(step);
    }
    lemma_runs_are_bounded(run);
}

/// A read gets on: it takes no more turns than bytes were sent and brought in it,
/// and two.
pub proof fn law_reads_get_on(run: Seq<Turn<usize, Seq<u8>>>)
    requires
        takes_turns(run),
        history(read_steps(run)),
    ensures
        run.len() <= moved(run) + 2,
{
    assert forall|i: int| 0 <= i < run.len() implies gets_on(#[trigger] run[i]) by {
        lemma_read_gets_on(run, i);
    }
    lemma_runs_are_bounded(run);
}

/// A turn of a read gets on.
proof fn lemma_read_gets_on(run: Seq<Turn<usize, Seq<u8>>>, i: int)
    requires
        takes_turns(run),
        history(read_steps(run)),
        0 <= i < run.len(),
    ensures
        gets_on(run[i]),
{
    let step = read_steps(run)[i];
    assert(step.happens());
    law_every_send_moves_a_byte(step);
    if run[i].event is Received {
        assert(i > 0);
        assert(read_steps(run)[i - 1].happens());
        assert(run[i].before == run[i - 1].after);
        assert(run[i - 1].action is Receive);
        law_never_waits_with_work_to_do(read_steps(run)[i - 1]);
        lemma_waiting_for_nothing(step);
    }
}

/// A write gets on: it takes no more turns than bytes were sent and brought in
/// it, and two.
pub proof fn law_writes_get_on(run: Seq<Turn<(), Parcel>>)
    requires
        takes_turns(run),
        history(write_steps(run)),
    ensures
        run.len() <= moved(run) + 2,
{
    assert forall|i: int| 0 <= i < run.len() implies gets_on(#[trigger] run[i]) by {
        let step = write_steps(run)[i];
        assert(step.happens());
        law_every_send_moves_a_byte(step);
        lemma_waiting_for_nothing(step);
    }
    lemma_runs_are_bounded(run);
}

/// A write that is stalled does not get out of it: it sends what there is to
/// send, and fails with [`codes::IO`] when there is nothing, unless the stream
/// fails first.
pub proof fn law_stalled_writes_fail(turn: Turn<(), Parcel>)
    requires
        Step::Write(turn).happens(),
        turn.event is Start || turn.event == Event::Sent(Ok(())),
        turn.held.upload.draining,
        turn.held.upload.took == 0,
    ensures
        turn.kept == turn.held,
        same_but_outgoing(turn.before.link, turn.after.link),
        turn.action is Send <==> turn.before.link.outgoing.len() > 0,
        !(turn.action is Send) ==> turn.action == Action::<()>::Done(Err(Errno(codes::IO))),
{
    reveal(Step::happens);
    assert(turn.kept == turn.held);
}

/// An operation that waited, and was brought nothing, is over.
proof fn lemma_waiting_for_nothing(step: Step)
    requires
        step.happens(),
        !(step is Close),
        !(step is Read && step.before().peer_closed),
    ensures
        step.event() is Received && !(step.event() matches Event::Received(Ok(bytes))
            && bytes@.len() > 0) ==> step.ends(),
{
    match step.event() {
        Event::Received(Err(error)) => law_failures_end_the_operation(step, error),
        Event::Received(Ok(bytes)) => {
            if bytes@.len() == 0 {
                law_end_of_stream_resets(step);
            }
        },
        _ => {},
    }
}

/// A close on a stream that does not fail ends, and with success, after as many
/// turns as there are bytes to send, at the most, and one more: those that
/// waited to be sent, and those of the goodbye.
pub proof fn law_close_ends(run: Seq<Turn<(), ()>>)
    requires
        takes_turns(run),
        history(close_steps(run)),
        forall|i: int| 0 < i < run.len() ==> #[trigger] run[i].event == Event::Sent(Ok(())),
    ensures
        ({
            let total = run[0].before.link.outgoing.len() + added(
                run[0].before.link.queued,
                run[0].after.link.queued,
            ).len();
            &&& run.len() <= total + 1
            &&& run.len() > total ==> run.last().action == Action::<()>::Done(Ok(()))
            &&& run.last().action is Done ==> run.last().action == Action::<()>::Done(Ok(()))
        }),
{
    let last = run.len() - 1;
    lemma_close_of_a_good_stream(run, last);
    lemma_close_sends_so_far(run, last);
    if last > 0 {
        lemma_close_sends_so_far(run, last - 1);
        assert(answers(run[last - 1].action, run[last].event));
    }
}

/// As long as a close sends, it has sent a byte in every turn, and no more than
/// there was to send.
proof fn lemma_close_sends_so_far(run: Seq<Turn<(), ()>>, k: int)
    requires
        takes_turns(run),
        history(close_steps(run)),
        forall|i: int| 0 < i < run.len() ==> #[trigger] run[i].event == Event::Sent(Ok(())),
        0 <= k < run.len(),
    ensures
        run[k].action is Send ==> k + 1 + run[k].after.link.outgoing.len()
            <= run[0].before.link.outgoing.len() + added(
            run[0].before.link.queued,
            run[0].after.link.queued,
        ).len(),
    decreases k,
{
    let step = close_steps(run)[k];
    assert(step.happens());
    law_every_send_moves_a_byte(step);
    law_step_keeps_order(step);
    lemma_close_of_a_good_stream(run, k);
    assert((step.handed_over() + step.after().link.outgoing).len() == step.handed_over().len()
        + step.after().link.outgoing.len());
    assert((step.before().link.outgoing + step.queued()).len() == step.before().link.outgoing.len()
        + step.queued().len());
    if k > 0 {
        lemma_close_sends_so_far(run, k - 1);
        lemma_close_of_a_good_stream(run, k - 1);
        assert(run[k].before == run[k - 1].after);
        assert(answers(run[k - 1].action, run[k].event));
        assert(step.queued().len() == 0);
    }
}

/// What a close does in turn `k` on a stream that does not fail.
proof fn lemma_close_of_a_good_stream(run: Seq<Turn<(), ()>>, k: int)
    requires
        takes_turns(run),
        history(close_steps(run)),
        forall|i: int| 0 < i < run.len() ==> #[trigger] run[i].event == Event::Sent(Ok(())),
        0 <= k < run.len(),
    ensures
        run[k].action is Send || run[k].action == Action::<()>::Done(Ok(())),
        run[k].after.link.queued == run[0].after.link.queued,
    decreases k,
{
    let step = close_steps(run)[k];
    assert(step.happens());
    if step.error() is Some {
        law_nothing_fails_without_a_reason(step, step.error()->Some_0);
    }
    law_close_knows_when_it_is_over(run[k]);
    if k > 0 {
        lemma_close_of_a_good_stream(run, k - 1);
        assert(run[k].before == run[k - 1].after);
    }
}

} // verus!
