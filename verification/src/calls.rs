//! What calls of the functions of a session come to.
//!
//! A call is spoken of as it is made: by what the session was before it, what
//! it was told, what the session is after it and what it answered. The laws
//! here hold of every call, and carry the laws of steps over to calls: each
//! call of an operation is a step of that operation.

use vstd::prelude::*;

use crate::conduct::{
    law_a_close_is_noticed, law_close_knows_when_it_is_over, law_every_send_moves_a_byte,
    law_failures_end_the_operation, law_handshake_knows_when_it_is_over,
    law_nothing_fails_without_a_reason, law_quiet_steps_learn_nothing, law_read_serves_or_goes_on,
    law_what_comes_is_taken_in, objection, taken_in,
};
use crate::connection::{added, link, LinkView, Progress};
use crate::error::{codes, Errno, Result};
use crate::laws::{Parcel, Step, Turn};
use crate::session::{Outcome, TlsSession, CHUNK};
use crate::stream::ByteStream;
use crate::turn::{Action, Event, Upload};

verus! {

/// A call of a handshake is a step of a handshake, and leaves the stream alone.
pub proof fn law_handshakes_are_steps<S>(
    before: TlsSession<S>,
    event: Event,
    after: TlsSession<S>,
    action: Action<()>,
)
    requires
        exists|tls: &mut TlsSession<S>|
            {
                &&& *tls == before
                &&& *final(tls) == after
                &&& #[trigger] call_ensures(TlsSession::<S>::handshake, (tls, event), action)
            },
    ensures
        Step::Handshake(
            Turn { before: before@, held: (), event, after: after@, kept: (), action },
        ).happens(),
        after.stream() == before.stream(),
        (before@.pending.len() == 0 ==> before.stored() == 0) ==> (after@.pending.len() == 0
            ==> after.stored() == 0),
{
    reveal(Step::happens);
}

/// A call of a read is a step of a read, and leaves the stream alone.
pub proof fn law_reads_are_steps<S>(
    before: TlsSession<S>,
    held: Seq<u8>,
    event: Event,
    after: TlsSession<S>,
    kept: Seq<u8>,
    action: Action<usize>,
)
    requires
        exists|tls: &mut TlsSession<S>, buffer: &mut [u8]|
            {
                &&& *tls == before
                &&& *final(tls) == after
                &&& buffer@ == held
                &&& final(buffer)@ == kept
                &&& #[trigger] call_ensures(TlsSession::<S>::read, (tls, event, buffer), action)
            },
    ensures
        Step::Read(Turn { before: before@, held, event, after: after@, kept, action }).happens(),
        after.stream() == before.stream(),
        (before@.pending.len() == 0 ==> before.stored() == 0) ==> (after@.pending.len() == 0
            ==> after.stored() == 0),
{
    reveal(Step::happens);
}

/// A call of a write is a step of a write, and leaves the stream alone.
pub proof fn law_writes_are_steps<S>(
    before: TlsSession<S>,
    bytes: Seq<u8>,
    upload: Upload,
    event: Event,
    after: TlsSession<S>,
    next: Upload,
    action: Action<()>,
)
    requires
        exists|tls: &mut TlsSession<S>, progress: &mut Upload, buffer: &[u8]|
            {
                &&& *tls == before
                &&& *final(tls) == after
                &&& *progress == upload
                &&& *final(progress) == next
                &&& buffer@ == bytes
                &&& #[trigger] call_ensures(
                    TlsSession::<S>::write_all,
                    (tls, progress, event, buffer),
                    action,
                )
            },
    ensures
        Step::Write(
            Turn {
                before: before@,
                held: Parcel { buffer: bytes, upload },
                event,
                after: after@,
                kept: Parcel { buffer: bytes, upload: next },
                action,
            },
        ).happens(),
        after.stream() == before.stream(),
        (before@.pending.len() == 0 ==> before.stored() == 0) ==> (after@.pending.len() == 0
            ==> after.stored() == 0),
{
    reveal(Step::happens);
}

/// A call of a close is a step of a close, and leaves the stream alone.
pub proof fn law_closes_are_steps<S>(
    before: TlsSession<S>,
    event: Event,
    after: TlsSession<S>,
    action: Action<()>,
)
    requires
        exists|tls: &mut TlsSession<S>|
            {
                &&& *tls == before
                &&& *final(tls) == after
                &&& #[trigger] call_ensures(TlsSession::<S>::close, (tls, event), action)
            },
    ensures
        Step::Close(
            Turn { before: before@, held: (), event, after: after@, kept: (), action },
        ).happens(),
        after.stream() == before.stream(),
        (before@.pending.len() == 0 ==> before.stored() == 0) ==> (after@.pending.len() == 0
            ==> after.stored() == 0),
{
    reveal(Step::happens);
}

/// A driver hands on what the stream came back with, and nothing else: one call
/// of the stream is made for an action, with the bytes of the action, and what
/// it answered is the event, failures as failures, bytes as those bytes. An
/// operation that is over asks nothing of the stream. The session itself is left
/// alone.
pub proof fn law_perform_hands_on_what_came<S: ByteStream, T>(
    before: TlsSession<S>,
    action: Action<T>,
    after: TlsSession<S>,
    outcome: Outcome<T>,
)
    requires
        exists|tls: &mut TlsSession<S>|
            {
                &&& *tls == before
                &&& *final(tls) == after
                &&& #[trigger] call_ensures(
                    TlsSession::<S>::perform::<T>,
                    (tls, action),
                    outcome,
                )
            },
    ensures
        after@ == before@,
        match action {
            Action::Send(bytes) => outcome matches Outcome::Again(Event::Sent(result))
                && (exists|stream: &mut S, buffer: &[u8]|
                {
                    &&& *stream == before.stream()
                    &&& *final(stream) == after.stream()
                    &&& buffer@ == bytes@
                    &&& #[trigger] call_ensures(S::write_all, (stream, buffer), result)
                }),
            Action::Refuse(bytes, error) => outcome matches Outcome::Again(
                Event::Refused(reason, result),
            ) && reason == error && (exists|stream: &mut S, buffer: &[u8]|
                {
                    &&& *stream == before.stream()
                    &&& *final(stream) == after.stream()
                    &&& buffer@ == bytes@
                    &&& #[trigger] call_ensures(S::write_all, (stream, buffer), result)
                }),
            Action::Receive => outcome matches Outcome::Again(Event::Received(result)) && (exists|
                stream: &mut S,
                buffer: &mut [u8],
                count: Result<usize>,
            |
                {
                    &&& *stream == before.stream()
                    &&& *final(stream) == after.stream()
                    &&& buffer@.len() == CHUNK
                    &&& #[trigger] call_ensures(S::read, (stream, buffer), count)
                    &&& match count {
                        Ok(n) => result matches Ok(chunk) && chunk@ == final(buffer)@.take(
                            n as int,
                        ),
                        Err(error) => result == Err::<Vec<u8>, Errno>(error),
                    }
                }),
            Action::Done(result) => outcome == Outcome::<T>::Over(result) && after.stream()
                == before.stream(),
        },
{
}

/// What the stream reads for a reader reaches rustls, every byte of it and in
/// its order: all that its one call brought is taken in, unless the peer has
/// closed the session or rustls objects. A read fails with what the stream
/// failed with, and with nothing the stream did not report or rustls did not
/// object to.
pub proof fn law_what_the_stream_reads_reaches_rustls<S: ByteStream>(
    first: TlsSession<S>,
    second: TlsSession<S>,
    third: TlsSession<S>,
    event: Event,
    held: Seq<u8>,
    kept: Seq<u8>,
    action: Action<usize>,
)
    requires
        exists|tls: &mut TlsSession<S>|
            {
                &&& *tls == first
                &&& *final(tls) == second
                &&& #[trigger] call_ensures(
                    TlsSession::<S>::perform::<usize>,
                    (tls, Action::<usize>::Receive),
                    Outcome::<usize>::Again(event),
                )
            },
        exists|tls: &mut TlsSession<S>, buffer: &mut [u8]|
            {
                &&& *tls == second
                &&& *final(tls) == third
                &&& buffer@ == held
                &&& final(buffer)@ == kept
                &&& #[trigger] call_ensures(TlsSession::<S>::read, (tls, event, buffer), action)
            },
    ensures
        exists|stream: &mut S, room: &mut [u8], count: Result<usize>|
            {
                &&& *stream == first.stream()
                &&& *final(stream) == second.stream()
                &&& room@.len() == CHUNK
                &&& #[trigger] call_ensures(S::read, (stream, room), count)
                &&& match count {
                    Err(error) => action == Action::<usize>::Done(Err(error)),
                    Ok(n) => n > 0 ==> {
                        ||| third@.link.consumed == first@.link.consumed + final(room)@.take(
                            n as int,
                        )
                        ||| third@.link.closed
                        ||| objection(first@, final(room)@.take(n as int), third@) is Some
                    },
                }
            },
{
    law_perform_hands_on_what_came(
        first,
        Action::<usize>::Receive,
        second,
        Outcome::<usize>::Again(event),
    );
    law_reads_are_steps(second, held, event, third, kept, action);
    let turn = Turn { before: second@, held, event, after: third@, kept, action };
    let step = Step::Read(turn);
    match event->Received_0 {
        Err(error) => {
            law_failures_end_the_operation(step, error);
        },
        Ok(chunk) => {
            if chunk@.len() > 0 {
                law_what_comes_is_taken_in(step);
                assert(chunk@.take(chunk@.len() as int) =~= chunk@);
            }
        },
    }
}

/// What a call that feeds a chunk to rustls comes to. Its bytes are taken in
/// from the front, all of them unless the peer has closed the session or rustls
/// objects, and all that was taken in is processed unless the peer is at fault.
/// What rustls decrypted is unread behind what was unread, what it queued waits
/// behind what waited, a close is noticed, and nothing is asked of rustls beside.
/// The answer is the objection, or how many bytes arrived.
pub proof fn law_chunks_are_fed<S>(
    before: TlsSession<S>,
    bytes: Seq<u8>,
    after: TlsSession<S>,
    arrived: Result<usize>,
)
    requires
        exists|tls: &mut TlsSession<S>, chunk: &[u8]|
            {
                &&& *tls == before
                &&& *final(tls) == after
                &&& chunk@ == bytes
                &&& #[trigger] call_ensures(TlsSession::<S>::fill_incoming, (tls, chunk), arrived)
            },
    ensures
        ({
            let count = taken_in(before@, after@);
            let old_link = before@.link;
            let new_link = after@.link;
            &&& 0 <= count <= bytes.len()
            &&& new_link.consumed == old_link.consumed + bytes.take(count)
            &&& count < bytes.len() ==> new_link.closed || objection(before@, bytes, after@) is Some
            &&& match arrived {
                Ok(n) => n == bytes.len() && objection(before@, bytes, after@) is None,
                Err(error) => objection(before@, bytes, after@) == Some(error),
            }
            &&& count > 0 && !new_link.failed ==> {
                &&& new_link.processed == new_link.consumed
                &&& new_link.plaintext.len() == 0
            }
            &&& old_link.decrypted.is_prefix_of(new_link.decrypted)
            &&& after@.pending + new_link.plaintext == before@.pending + old_link.plaintext + added(
                old_link.decrypted,
                new_link.decrypted,
            )
            &&& old_link.queued.is_prefix_of(new_link.queued)
            &&& new_link.outgoing == old_link.outgoing + added(old_link.queued, new_link.queued)
            &&& new_link.accepted == old_link.accepted
            &&& new_link.refused == old_link.refused
            &&& old_link.failed ==> after@.pending == before@.pending
            &&& after@.peer_closed == (before@.peer_closed || new_link.closed && (count > 0 || (
            bytes.len() > 0 && !old_link.full)))
            &&& count == 0 ==> new_link == old_link && after@.pending == before@.pending
        }),
        after.stream() == before.stream(),
{
}

/// What a call that collects what rustls has decrypted comes to: as much as was
/// reported moves from rustls to the caller's side, in its order. What was
/// reported beyond what is there is zeroes. An error is a protocol error, and
/// changes nothing.
pub proof fn law_plaintext_is_collected<S>(
    before: TlsSession<S>,
    report: core::result::Result<Progress, rustls::Error>,
    after: TlsSession<S>,
    result: Result<()>,
)
    requires
        exists|tls: &mut TlsSession<S>|
            {
                &&& *tls == before
                &&& *final(tls) == after
                &&& #[trigger] call_ensures(TlsSession::<S>::collect_plaintext, (tls, report), result)
            },
    ensures
        match report {
            Err(_) => result == Err::<(), Errno>(Errno(codes::PROTOCOL)) && after@ == before@,
            Ok(progress) => {
                let room = progress.plaintext_bytes_to_read as nat;
                let waiting = before@.link.plaintext;
                let count = if waiting.len() < room {
                    waiting.len()
                } else {
                    room
                };
                &&& result == Ok::<(), Errno>(())
                &&& after@.link.plaintext == waiting.skip(count as int)
                &&& after@.link == LinkView {
                    plaintext: after@.link.plaintext,
                    full: after@.link.full,
                    ..before@.link
                }
                &&& after@.pending.len() == before@.pending.len() + room
                &&& after@.pending.take((before@.pending.len() + count) as int) == before@.pending
                    + waiting.take(count as int)
                &&& forall|i: int|
                    before@.pending.len() + count <= i < after@.pending.len() ==> #[trigger]
                    after@.pending[i] == 0
                &&& after@.peer_closed == (before@.peer_closed || progress.peer_has_closed)
            },
        },
        after.stream() == before.stream(),
{
    if let Ok(progress) = report {
        let room = progress.plaintext_bytes_to_read as nat;
        let waiting = before@.link.plaintext;
        let count = if waiting.len() < room {
            waiting.len()
        } else {
            room
        };
        assert(after@.pending.take((before@.pending.len() + count) as int) =~= before@.pending
            + waiting.take(count as int));
    }
}

/// What a call that asks for the next bytes to send comes to: a front part of
/// what waits, and not an empty one, as long as something waits, and nothing
/// when nothing does. It never fails, and the rest stays as it is.
pub proof fn law_what_waits_is_flushed<S>(
    before: TlsSession<S>,
    after: TlsSession<S>,
    bytes: Result<Option<Vec<u8>>>,
)
    requires
        exists|tls: &mut TlsSession<S>|
            {
                &&& *tls == before
                &&& *final(tls) == after
                &&& #[trigger] call_ensures(TlsSession::<S>::flush_outgoing, (tls,), bytes)
            },
    ensures
        bytes is Ok,
        bytes->Ok_0 is None <==> before@.link.outgoing.len() == 0,
        bytes matches Ok(Some(front)) ==> front@.len() > 0 && before@.link.outgoing == front@
            + after@.link.outgoing,
        bytes matches Ok(None) ==> after@ == before@,
        after@.link == (LinkView { outgoing: after@.link.outgoing, ..before@.link }),
        after@.pending == before@.pending,
        after@.peer_closed == before@.peer_closed,
        after.stream() == before.stream(),
{
}

/// A call of a handshake, told that the stream has written or that the operation
/// begins, never fails. It sends at least a byte, or has nothing left to send:
/// then it is over if rustls is through with the handshake, and waits if not.
pub proof fn law_handshake_calls_end<S>(
    before: TlsSession<S>,
    event: Event,
    after: TlsSession<S>,
    action: Action<()>,
)
    requires
        exists|tls: &mut TlsSession<S>|
            {
                &&& *tls == before
                &&& *final(tls) == after
                &&& #[trigger] call_ensures(TlsSession::<S>::handshake, (tls, event), action)
            },
        event is Start || event == Event::Sent(Ok(())),
    ensures
        match action {
            Action::Send(bytes) => bytes@.len() > 0,
            Action::Receive => after@.link.handshaking && after@.link.outgoing.len() == 0,
            Action::Refuse(_, _) => false,
            Action::Done(result) => {
                &&& result == Ok::<(), Errno>(())
                &&& !after@.link.handshaking
                &&& after@.link.outgoing.len() == 0
            },
        },
{
    law_handshakes_are_steps(before, event, after, action);
    let turn = Turn { before: before@, held: (), event, after: after@, kept: (), action };
    let step = Step::Handshake(turn);
    law_every_send_moves_a_byte(step);
    if step.error() is Some {
        law_nothing_fails_without_a_reason(step, step.error()->Some_0);
    }
    law_handshake_knows_when_it_is_over(turn);
}

/// A call of a close, told that the stream has written or that the operation
/// begins, never fails and never waits. It sends at least a byte, or has nothing
/// left to send and is over.
pub proof fn law_close_calls_end<S>(
    before: TlsSession<S>,
    event: Event,
    after: TlsSession<S>,
    action: Action<()>,
)
    requires
        exists|tls: &mut TlsSession<S>|
            {
                &&& *tls == before
                &&& *final(tls) == after
                &&& #[trigger] call_ensures(TlsSession::<S>::close, (tls, event), action)
            },
        event is Start || event == Event::Sent(Ok(())),
    ensures
        match action {
            Action::Send(bytes) => bytes@.len() > 0,
            Action::Done(result) => result == Ok::<(), Errno>(()) && after@.link.outgoing.len()
                == 0,
            _ => false,
        },
        event is Start ==> after@.link.finished,
{
    law_closes_are_steps(before, event, after, action);
    let turn = Turn { before: before@, held: (), event, after: after@, kept: (), action };
    let step = Step::Close(turn);
    law_every_send_moves_a_byte(step);
    if step.error() is Some {
        law_nothing_fails_without_a_reason(step, step.error()->Some_0);
    }
    law_close_knows_when_it_is_over(turn);
}

/// A read that is told what the peer's close came in gives what came before it,
/// and the next read, with all that taken, gives zero: it asks the stream for
/// nothing but to send.
pub proof fn law_reads_behind_a_close_give_zero<S>(
    first: TlsSession<S>,
    event: Event,
    held: Seq<u8>,
    kept: Seq<u8>,
    answer: Action<usize>,
    second: TlsSession<S>,
    room: Seq<u8>,
    filled: Seq<u8>,
    action: Action<usize>,
    third: TlsSession<S>,
)
    requires
        exists|tls: &mut TlsSession<S>, buffer: &mut [u8]|
            {
                &&& *tls == first
                &&& *final(tls) == second
                &&& buffer@ == held
                &&& final(buffer)@ == kept
                &&& #[trigger] call_ensures(TlsSession::<S>::read, (tls, event, buffer), answer)
            },
        !first@.link.closed,
        second@.link.closed,
        second@.pending.len() == 0,
        exists|tls: &mut TlsSession<S>, buffer: &mut [u8]|
            {
                &&& *tls == second
                &&& *final(tls) == third
                &&& buffer@ == room
                &&& final(buffer)@ == filled
                &&& #[trigger] call_ensures(TlsSession::<S>::read, (tls, Event::Start, buffer), action)
            },
    ensures
        action is Send || action == Action::<usize>::Done(Ok(0)),
        third@.peer_closed,
{
    law_reads_are_steps(first, held, event, second, kept, answer);
    law_reads_are_steps(second, room, Event::Start, third, filled, action);
    let here = Turn { before: first@, held, event, after: second@, kept, action: answer };
    let there = Turn {
        before: second@,
        held: room,
        event: Event::Start,
        after: third@,
        kept: filled,
        action,
    };
    law_a_close_is_noticed(Step::Read(here));
    law_a_close_is_noticed(Step::Read(there));
    if Step::Read(there).error() is Some {
        law_nothing_fails_without_a_reason(
            Step::Read(there),
            Step::Read(there).error()->Some_0,
        );
    }
    law_quiet_steps_learn_nothing(Step::Read(there));
    law_read_serves_or_goes_on(there);
}

/// A session begins with what rustls has in it, nothing waiting for the caller
/// and no close noticed, whichever end it is.
pub proof fn law_sessions_begin_with_rustls_alone<S>(
    stream: S,
    client: rustls::ClientConnection,
    server: rustls::ServerConnection,
    here: TlsSession<S>,
    there: TlsSession<S>,
)
    requires
        call_ensures(TlsSession::<S>::client, (stream, client), here),
        call_ensures(TlsSession::<S>::server, (stream, server), there),
    ensures
        here.stream() == stream && there.stream() == stream,
        here@.link == link(rustls::Connection::Client(client)),
        there@.link == link(rustls::Connection::Server(server)),
        here@.pending.len() == 0 && there@.pending.len() == 0,
        !here@.peer_closed && !there@.peer_closed,
        here.stored() == 0 && there.stored() == 0,
{
}

} // verus!
