//! How an operation takes turns with the transport.
//!
//! Every operation of a session is the same three steps in a ring: give rustls
//! whatever the stream produced, let it work, and send whatever it produced.
//! Sending and receiving belong to the stream, and whoever drives the session
//! awaits them or blocks on them. So an operation is a function from what the
//! stream did last, an [`Event`], to what it has to do next, an [`Action`].
//! This module holds those two types and says which action answers which
//! event.

use vstd::prelude::*;

use crate::connection::{added, lemma_added_piecewise, LinkView, Progress};
use crate::error::{codes, Errno, Result};

verus! {

/// What the stream did last.
#[derive(Debug)]
pub enum Event {
    /// Nothing yet: the operation begins.
    Start,
    /// It was told to write bytes, and this came of it.
    Sent(Result<()>),
    /// It was told to read bytes, and this came of it. No bytes at all means
    /// the end of the stream.
    Received(Result<Vec<u8>>),
    /// It was told to write the last bytes of an operation that fails with
    /// this error, and this came of it.
    Refused(Errno, Result<()>),
}

/// What the stream has to do next.
#[derive(Debug)]
pub enum Action<T> {
    /// Write all of these bytes, and come back with [`Event::Sent`].
    Send(Vec<u8>),
    /// Read some bytes, and come back with [`Event::Received`].
    Receive,
    /// Write all of these bytes, with which the peer learns that the operation
    /// fails with this error, and come back with [`Event::Refused`].
    Refuse(Vec<u8>, Errno),
    /// Nothing: the operation is over.
    Done(Result<T>),
}

/// How far a [`write_all`](crate::TlsSession::write_all) has come.
#[derive(Debug)]
pub struct Upload {
    /// How many bytes rustls has accepted.
    pub written: usize,
    /// How many of them it accepted last.
    pub took: usize,
    /// Whether what came of them is still being sent.
    pub draining: bool,
}

impl Upload {
    /// An upload of which nothing has been done.
    pub fn new() -> (upload: Upload)
        ensures
            upload == (Upload { written: 0, took: 0, draining: false }),
    {
        Upload { written: 0, took: 0, draining: false }
    }

    /// Note what rustls said to the bytes it was offered: how many of them it
    /// accepted, or an error, which is [`codes::IO`] here.
    pub fn accept(&mut self, outcome: core::result::Result<usize, std::io::Error>) -> (result:
        Result<()>)
        requires
            outcome matches Ok(count) ==> old(self).written + count <= usize::MAX,
        ensures
            match outcome {
                Ok(count) => result == Ok::<(), Errno>(()) && *final(self) == (Upload {
                    written: (old(self).written + count) as usize,
                    took: count,
                    draining: true,
                }),
                Err(_) => result == Err::<(), Errno>(errno(codes::IO)) && *final(self) == *old(
                    self,
                ),
            },
    {
        let count: usize = io_result(outcome)?;
        self.written = self.written + count;
        self.took = count;
        self.draining = true;
        Ok(())
    }

    /// Note that nothing is left to send. An upload of which rustls accepted
    /// nothing although its buffers were drained cannot go on.
    pub fn drained(&mut self) -> (result: Result<()>)
        ensures
            if old(self).took == 0 {
                result == Err::<(), Errno>(errno(codes::IO)) && *final(self) == *old(self)
            } else {
                result == Ok::<(), Errno>(()) && *final(self) == (Upload {
                    draining: false,
                    ..*old(self)
                })
            },
    {
        if self.took == 0 {
            return Err(Errno(codes::IO));
        }
        self.draining = false;
        Ok(())
    }
}

/// An outcome of rustls' own input and output, which is never about a socket:
/// an error is a state that this crate cannot continue from.
pub fn io_result(outcome: core::result::Result<usize, std::io::Error>) -> (result: Result<usize>)
    ensures
        match outcome {
            Ok(count) => result == Ok::<usize, Errno>(count),
            Err(_) => result == Err::<usize, Errno>(errno(codes::IO)),
        },
{
    match outcome {
        Ok(count) => Ok(count),
        Err(_) => Err(Errno(codes::IO)),
    }
}

/// An outcome of the protocol: an error is an attack or a broken peer, and
/// either way the connection is finished.
pub fn protocol_result(outcome: core::result::Result<Progress, rustls::Error>) -> (result: Result<
    Progress,
>)
    ensures
        match outcome {
            Ok(progress) => result == Ok::<Progress, Errno>(progress),
            Err(_) => result == Err::<Progress, Errno>(errno(codes::PROTOCOL)),
        },
{
    match outcome {
        Ok(progress) => Ok(progress),
        Err(_) => Err(Errno(codes::PROTOCOL)),
    }
}

/// What rustls gave to be sent, given what it said to `write_tls` and the
/// vector that it wrote into.
pub fn outgoing_bytes(
    outcome: core::result::Result<usize, std::io::Error>,
    buffer: Vec<u8>,
) -> (bytes: Result<Option<Vec<u8>>>)
    ensures
        match outcome {
            Ok(_) => bytes == Ok::<Option<Vec<u8>>, Errno>(
                if buffer@.len() == 0 {
                    None
                } else {
                    Some(buffer)
                },
            ),
            Err(_) => bytes == Err::<Option<Vec<u8>>, Errno>(errno(codes::IO)),
        },
{
    io_result(outcome)?;
    if buffer.is_empty() {
        return Ok(None);
    }
    Ok(Some(buffer))
}

/// What an operation asks for when rustls has refused what the peer sent with
/// `error`, given what there is to send: an alert may be among it, and the
/// peer is told before the operation ends.
pub fn refusal_action<T>(outgoing: Result<Option<Vec<u8>>>, error: Errno) -> (action: Action<T>)
    ensures
        action == match outgoing {
            Ok(Some(bytes)) => Action::<T>::Refuse(bytes, error),
            _ => Action::<T>::Done(Err(error)),
        },
{
    match outgoing {
        Ok(Some(bytes)) => Action::Refuse(bytes, error),
        _ => Action::Done(Err(error)),
    }
}

/// What a handshake asks for, given what there is to send and whether rustls
/// is still at it.
///
/// Only waits for the peer when there is nothing left to send: reading first
/// would deadlock a handshake whose next move is ours. And the last flight of
/// the handshake may still be in the buffer when it is over.
///
/// A write that has nothing left to write asks for the same: what rustls holds
/// back of it follows the handshake.
pub fn handshake_action(outgoing: Result<Option<Vec<u8>>>, handshaking: bool) -> (action: Action<
    (),
>)
    ensures
        action == match outgoing {
            Err(error) => Action::<()>::Done(Err(error)),
            Ok(Some(bytes)) => Action::Send(bytes),
            Ok(None) => if handshaking {
                Action::Receive
            } else {
                Action::Done(Ok(()))
            },
        },
{
    match outgoing {
        Err(error) => Action::Done(Err(error)),
        Ok(Some(bytes)) => Action::Send(bytes),
        Ok(None) => if handshaking {
            Action::Receive
        } else {
            Action::Done(Ok(()))
        },
    }
}

/// What a read that finds nothing decrypted asks for, given what there is to
/// send and whether the peer has closed the session.
///
/// rustls may owe the peer a message even on a read: a key update or an alert.
/// Not sending it stalls the session.
pub fn read_action(outgoing: Result<Option<Vec<u8>>>, peer_closed: bool) -> (action: Action<usize>)
    ensures
        action == match outgoing {
            Err(error) => Action::<usize>::Done(Err(error)),
            Ok(Some(bytes)) => Action::Send(bytes),
            Ok(None) => if peer_closed {
                Action::Done(Ok(0))
            } else {
                Action::Receive
            },
        },
{
    match outgoing {
        Err(error) => Action::Done(Err(error)),
        Ok(Some(bytes)) => Action::Send(bytes),
        Ok(None) => if peer_closed {
            Action::Done(Ok(0))
        } else {
            Action::Receive
        },
    }
}

/// What a close asks for, given what there is to send.
pub fn close_action(outgoing: Result<Option<Vec<u8>>>) -> (action: Action<()>)
    ensures
        action == match outgoing {
            Err(error) => Action::<()>::Done(Err(error)),
            Ok(Some(bytes)) => Action::Send(bytes),
            Ok(None) => Action::Done(Ok(())),
        },
{
    match outgoing {
        Err(error) => Action::Done(Err(error)),
        Ok(Some(bytes)) => Action::Send(bytes),
        Ok(None) => Action::Done(Ok(())),
    }
}

/// What is observable of a session, its stream aside.
#[verifier::ext_equal]
pub struct SessionView {
    /// The connection inside.
    pub link: LinkView,
    /// Decrypted bytes that have left the connection and wait for the caller.
    pub pending: Seq<u8>,
    /// Whether rustls has shown that the peer closed the session.
    pub peer_closed: bool,
}

impl SessionView {
    /// Everything that has been decrypted and not been read, oldest first.
    pub open spec fn unread(self) -> Seq<u8> {
        self.pending + self.link.plaintext
    }

    /// This session with other bytes waiting to be sent.
    pub open spec fn with_outgoing(self, outgoing: Seq<u8>) -> SessionView {
        SessionView { link: self.link.with_outgoing(outgoing), ..self }
    }

    /// This session with other bytes waiting for the caller.
    pub open spec fn with_pending(self, pending: Seq<u8>) -> SessionView {
        SessionView { pending, ..self }
    }
}

/// The error with this code.
pub open spec fn errno(code: i32) -> Errno {
    Errno(code)
}

/// The bytes that `action` hands to the stream.
pub open spec fn handed_over<T>(action: Action<T>) -> Seq<u8> {
    match action {
        Action::Send(bytes) => bytes@,
        Action::Refuse(bytes, _) => bytes@,
        _ => Seq::empty(),
    }
}

/// The bytes that the stream came back with in `event`.
pub open spec fn brought_in(event: Event) -> Seq<u8> {
    match event {
        Event::Received(Ok(bytes)) => bytes@,
        _ => Seq::empty(),
    }
}

/// The error that an operation ends with because of `event` alone, if it does:
/// the failure of the stream, or the refusal that it could not pass on.
pub open spec fn failure(event: Event) -> Option<Errno> {
    match event {
        Event::Sent(Err(error)) => Some(error),
        Event::Received(Err(error)) => Some(error),
        Event::Refused(error, Err(_)) => Some(error),
        _ => None,
    }
}

/// The error that an operation is about to end with by `event`, when it has told
/// the peer.
pub open spec fn refusal(event: Event) -> Option<Errno> {
    match event {
        Event::Refused(error, Ok(_)) => Some(error),
        _ => None,
    }
}

/// Whether `event` reports the end of the stream.
pub open spec fn end_of_stream(event: Event) -> bool {
    event matches Event::Received(Ok(bytes)) && bytes@.len() == 0
}

/// Whether `event` brings bytes.
pub open spec fn brings_bytes(event: Event) -> bool {
    event matches Event::Received(Ok(bytes)) && bytes@.len() > 0
}

/// A session with bytes to send hands a front part of them to the stream, and
/// not an empty one. Nothing else of the session changes.
pub open spec fn sends<T>(before: SessionView, after: SessionView, action: Action<T>) -> bool {
    &&& after == before.with_outgoing(after.link.outgoing)
    &&& action matches Action::Send(bytes)
    &&& bytes@.len() > 0
    &&& before.link.outgoing == bytes@ + after.link.outgoing
}

/// A session that ends an operation with `error` tells the peer first: it hands
/// a front part of what there is to send to the stream, and ends when there is
/// nothing left.
pub open spec fn refusal_due<T>(
    before: SessionView,
    error: Errno,
    after: SessionView,
    action: Action<T>,
) -> bool {
    if before.link.outgoing.len() > 0 {
        &&& after == before.with_outgoing(after.link.outgoing)
        &&& action matches Action::Refuse(bytes, reason)
        &&& reason == error
        &&& bytes@.len() > 0
        &&& before.link.outgoing == bytes@ + after.link.outgoing
    } else {
        after == before && action == Action::<T>::Done(Err(error))
    }
}

/// A session takes in a front part of `bytes`, well or badly. What was decrypted
/// of it is unread behind what was unread before, and what was queued because
/// of it waits behind what waited to be sent before. Of what is unread, all
/// that was decrypted while all went well waits for the caller, and nothing
/// that was decrypted when the peer was at fault. Nothing is taken in by a link
/// that is closed or full, and nothing comes of one that has failed.
pub open spec fn takes_in(before: SessionView, bytes: Seq<u8>, after: SessionView) -> bool {
    let count = after.link.consumed.len() - before.link.consumed.len();
    &&& 0 <= count <= bytes.len()
    &&& before.link.closed || before.link.full ==> count == 0
    &&& after.link.consumed == before.link.consumed + bytes.take(count)
    &&& after.link.accepted == before.link.accepted
    &&& after.link.refused == before.link.refused
    &&& before.link.queues(after.link)
    &&& before.link.decrypted.is_prefix_of(after.link.decrypted)
    &&& after.unread() == before.unread() + added(before.link.decrypted, after.link.decrypted)
    &&& before.link.processed.is_prefix_of(after.link.processed)
    &&& if after.link.processed == before.link.processed {
        &&& after.link.vouched == before.link.vouched
        &&& after.pending == before.pending
    } else {
        &&& before.link.decrypted.is_prefix_of(after.link.vouched)
        &&& after.pending == before.unread() + added(before.link.decrypted, after.link.vouched)
    }
    &&& count > 0 && !after.link.failed ==> {
        &&& after.link.processed == after.link.consumed
        &&& after.link.plaintext.len() == 0
    }
    &&& if count > 0 && after.link.encrypting {
        after.link.held_back.len() == 0
    } else {
        after.link.held_back == before.link.held_back
    }
    &&& !before.link.handshaking ==> !after.link.handshaking
    &&& before.link.encrypting ==> after.link.encrypting
    &&& before.link.closed ==> after.link.closed
    &&& before.link.finished ==> after.link.finished
    &&& before.link.failed ==> {
        &&& after.link.failed
        &&& after.link.queued == before.link.queued
        &&& after.link.decrypted == before.link.decrypted
        &&& after.link.plaintext == before.link.plaintext
        &&& after.link.processed == before.link.processed
        &&& after.pending == before.pending
    }
    &&& count > 0 ==> after.peer_closed == (before.peer_closed || after.link.closed)
    &&& count == 0 ==> {
        &&& after.link == before.link
        &&& after.pending == before.pending
        &&& after.peer_closed ==> before.peer_closed || before.link.closed
        &&& before.peer_closed ==> after.peer_closed
    }
}

/// What is taken in at once can be taken in piece by piece.
pub proof fn lemma_takes_in_piecewise(
    before: SessionView,
    bytes: Seq<u8>,
    between: SessionView,
    after: SessionView,
)
    requires
        takes_in(before, bytes, between),
        takes_in(
            between,
            bytes.skip(between.link.consumed.len() - before.link.consumed.len()),
            after,
        ),
    ensures
        takes_in(before, bytes, after),
{
    let first = between.link.consumed.len() - before.link.consumed.len();
    let second = after.link.consumed.len() - between.link.consumed.len();
    assert(bytes.take(first + second) =~= bytes.take(first) + bytes.skip(first).take(second));
    assert(after.link.consumed =~= before.link.consumed + bytes.take(first + second));
    lemma_added_piecewise(before.link.queued, between.link.queued, after.link.queued);
    lemma_added_piecewise(before.link.decrypted, between.link.decrypted, after.link.decrypted);
    assert(after.link.outgoing =~= before.link.outgoing + added(
        before.link.queued,
        after.link.queued,
    ));
    assert(after.unread() =~= before.unread() + added(before.link.decrypted, after.link.decrypted));
    if after.link.processed == before.link.processed {
        assert(between.link.processed =~= before.link.processed);
    } else if after.link.processed != between.link.processed {
        lemma_added_piecewise(before.link.decrypted, between.link.decrypted, after.link.vouched);
        assert(after.pending =~= before.unread() + added(
            before.link.decrypted,
            after.link.vouched,
        ));
    }
}

/// What a session that has taken in what it did of `bytes` says to them:
/// [`codes::PROTOCOL`] exactly where rustls took some and has failed,
/// [`codes::IO`] exactly where it has no room for the rest, and else nothing.
pub open spec fn verdict(before: SessionView, bytes: Seq<u8>, after: SessionView) -> Option<Errno> {
    let count = after.link.consumed.len() - before.link.consumed.len();
    if count > 0 && after.link.failed {
        Some(errno(codes::PROTOCOL))
    } else if count < bytes.len() && after.link.full {
        Some(errno(codes::IO))
    } else {
        None
    }
}

/// A session takes in `bytes`: all of them, unless the peer has closed the
/// session, behind which nothing is taken, or rustls refuses them. All that it
/// took in is processed, unless the peer is at fault. Whether the peer closed
/// the session is known, unless rustls had no room at all.
pub open spec fn absorbs(before: SessionView, bytes: Seq<u8>, after: SessionView) -> bool {
    let count = after.link.consumed.len() - before.link.consumed.len();
    &&& takes_in(before, bytes, after)
    &&& verdict(before, bytes, after) is None && count < bytes.len() ==> after.link.closed
    &&& after.peer_closed == (before.peer_closed || after.link.closed && (count > 0 || (bytes.len()
        > 0 && !before.link.full)))
}

/// What a handshake does next: it sends what there is to send, waits for the
/// peer only when there is nothing left to send, and is over when rustls says
/// so and all is sent. From then on application bytes are encrypted as they
/// are accepted, and none are held back.
pub open spec fn handshake_due(
    before: SessionView,
    after: SessionView,
    action: Action<()>,
) -> bool {
    &&& !before.link.handshaking ==> before.link.encrypting && before.link.held_back.len() == 0
    &&& if before.link.outgoing.len() > 0 {
        sends(before, after, action)
    } else {
        &&& after == before
        &&& action == if before.link.handshaking {
            Action::<()>::Receive
        } else {
            Action::<()>::Done(Ok(()))
        }
    }
}

/// One turn of a handshake. A failure of the stream ends it with that failure,
/// and the end of the stream with [`codes::CONNECTION_RESET`]. What rustls
/// refuses ends it with the verdict, once the peer is told.
pub open spec fn handshake_turn(
    before: SessionView,
    event: Event,
    after: SessionView,
    action: Action<()>,
) -> bool {
    if let Some(error) = failure(event) {
        after == before && action == Action::<()>::Done(Err(error))
    } else if let Some(error) = refusal(event) {
        refusal_due(before, error, after, action)
    } else if end_of_stream(event) {
        after == before && action == Action::<()>::Done(Err(errno(codes::CONNECTION_RESET)))
    } else if brings_bytes(event) {
        exists|fed: SessionView| #[trigger]
            absorbs(before, brought_in(event), fed) && match verdict(
                before,
                brought_in(event),
                fed,
            ) {
                Some(error) => refusal_due(fed, error, after, action),
                None => handshake_due(fed, after, action),
            }
    } else {
        handshake_due(before, after, action)
    }
}

/// How many of the waiting bytes a reader with room for `room` bytes gets.
pub open spec fn served(waiting: nat, room: nat) -> nat {
    if waiting < room {
        waiting
    } else {
        room
    }
}

/// What a read does next, with a buffer that holds `buffer` before and
/// `filled` after: it serves what has already been decrypted before it goes to
/// the stream. Where there is nothing, it sends what there is to send, since
/// rustls may owe the peer a message even on a read. Then it is over if the
/// peer has closed the session, and waits for the peer if not.
pub open spec fn read_due(
    before: SessionView,
    buffer: Seq<u8>,
    after: SessionView,
    filled: Seq<u8>,
    action: Action<usize>,
) -> bool {
    if before.pending.len() > 0 {
        let count = served(before.pending.len(), buffer.len());
        &&& after == before.with_pending(before.pending.skip(count as int))
        &&& filled == before.pending.take(count as int) + buffer.skip(count as int)
        &&& action matches Action::Done(Ok(n))
        &&& n == count
    } else {
        &&& filled == buffer
        &&& if before.link.outgoing.len() > 0 {
            sends(before, after, action)
        } else {
            &&& after == before
            &&& action == if before.peer_closed {
                Action::<usize>::Done(Ok(0))
            } else {
                Action::<usize>::Receive
            }
        }
    }
}

/// One turn of a read. A failure of the stream ends it with that failure. So
/// does the end of the stream, with [`codes::CONNECTION_RESET`], unless the
/// peer has closed the session: zero is kept for a clean close, so that a
/// stream that was cut short can be told from one. What rustls refuses ends it
/// with the verdict, once the peer is told.
pub open spec fn read_turn(
    before: SessionView,
    buffer: Seq<u8>,
    event: Event,
    after: SessionView,
    filled: Seq<u8>,
    action: Action<usize>,
) -> bool {
    if let Some(error) = failure(event) {
        after == before && filled == buffer && action == Action::<usize>::Done(Err(error))
    } else if let Some(error) = refusal(event) {
        filled == buffer && refusal_due(before, error, after, action)
    } else if end_of_stream(event) && !before.peer_closed {
        &&& after == before
        &&& filled == buffer
        &&& action == Action::<usize>::Done(Err(errno(codes::CONNECTION_RESET)))
    } else if brings_bytes(event) {
        exists|fed: SessionView| #[trigger]
            absorbs(before, brought_in(event), fed) && match verdict(
                before,
                brought_in(event),
                fed,
            ) {
                Some(error) => filled == buffer && refusal_due(fed, error, after, action),
                None => read_due(fed, buffer, after, filled, action),
            }
    } else {
        read_due(before, buffer, after, filled, action)
    }
}

/// The offers that were refused on the way to `upload`: one of all that was
/// left to write, if nothing of it was accepted last.
pub open spec fn turned_down(buffer: Seq<u8>, upload: Upload) -> Seq<Seq<u8>> {
    if upload.draining && upload.took == 0 {
        seq![buffer.skip(upload.written as int)]
    } else {
        seq![]
    }
}

/// A session offers rustls some more of `buffer`, from `upload.written` on,
/// until something is to be sent, all is accepted, or rustls does not go on.
/// What it accepted is what was next in `buffer`, each byte once, and what
/// came of it waits behind what waited to be sent. rustls does not go on where
/// it has failed, or where it was offered all that is left, accepted nothing
/// of it, and has nothing to send that would make room.
pub open spec fn uploads(
    before: SessionView,
    buffer: Seq<u8>,
    upload: Upload,
    after: SessionView,
    next: Upload,
    action: Action<()>,
) -> bool {
    let bytes = buffer.subrange(upload.written as int, next.written as int);
    let refused = turned_down(buffer, next);
    &&& upload.written <= next.written <= buffer.len()
    &&& after == SessionView { link: after.link, ..before }
    &&& before.link.failed ==> {
        &&& action == Action::<()>::Done(Err(errno(codes::IO)))
        &&& after == before
        &&& next == (Upload { draining: false, ..upload })
    }
    &&& match action {
        Action::Send(front) => {
            &&& front@.len() > 0
            &&& next.draining
            &&& next.took <= next.written - upload.written
            &&& next.took == 0 ==> next.written < buffer.len()
            &&& before.link.offered(
                bytes,
                refused,
                after.link.with_outgoing(front@ + after.link.outgoing),
            )
        },
        Action::Receive => {
            &&& next.written == buffer.len()
            &&& !next.draining
            &&& before.link.offered(bytes, seq![], after.link)
            &&& after.link.outgoing.len() == 0
            &&& after.link.handshaking
        },
        Action::Refuse(_, _) => false,
        Action::Done(Ok(_)) => {
            &&& action == Action::<()>::Done(Ok(()))
            &&& next.written == buffer.len()
            &&& !next.draining
            &&& before.link.offered(bytes, seq![], after.link)
            &&& after.link.outgoing.len() == 0
            &&& !after.link.handshaking
            &&& after.link.encrypting
            &&& after.link.held_back.len() == 0
        },
        Action::Done(Err(error)) => {
            &&& error == errno(codes::IO)
            &&& next.written < buffer.len()
            &&& before.link.offered(bytes, refused, after.link)
            &&& if next.draining {
                next.took == 0 && after.link.outgoing.len() == 0
            } else {
                before.link.failed
            }
        },
    }
}

/// What a write of `buffer` does next. It first sends what came of the bytes
/// accepted last. If there were none, a full buffer was not what held rustls
/// up, and the write fails with [`codes::IO`]. When all is accepted, rustls may
/// still hold some back until the handshake is over, so the write goes on with
/// the handshake, and is over when all is sent. A write of nothing is over at
/// once.
pub open spec fn write_due(
    before: SessionView,
    buffer: Seq<u8>,
    upload: Upload,
    after: SessionView,
    next: Upload,
    action: Action<()>,
) -> bool {
    if upload.draining && before.link.outgoing.len() > 0 {
        next == upload && sends(before, after, action)
    } else if upload.draining && upload.took == 0 {
        &&& next == upload
        &&& after == before
        &&& action == Action::<()>::Done(Err(errno(codes::IO)))
    } else if upload.written < buffer.len() {
        uploads(before, buffer, upload, after, next, action)
    } else {
        &&& next == (Upload { draining: false, ..upload })
        &&& if buffer.len() == 0 {
            after == before && action == Action::<()>::Done(Ok(()))
        } else {
            handshake_due(before, after, action)
        }
    }
}

/// One turn of a write. A failure of the stream ends it with that failure, and
/// the end of the stream with [`codes::CONNECTION_RESET`]. What rustls refuses
/// ends it with the verdict, once the peer is told.
pub open spec fn write_turn(
    before: SessionView,
    buffer: Seq<u8>,
    upload: Upload,
    event: Event,
    after: SessionView,
    next: Upload,
    action: Action<()>,
) -> bool {
    if let Some(error) = failure(event) {
        after == before && next == upload && action == Action::<()>::Done(Err(error))
    } else if let Some(error) = refusal(event) {
        next == upload && refusal_due(before, error, after, action)
    } else if end_of_stream(event) {
        &&& after == before
        &&& next == upload
        &&& action == Action::<()>::Done(Err(errno(codes::CONNECTION_RESET)))
    } else if brings_bytes(event) {
        exists|fed: SessionView| #[trigger]
            absorbs(before, brought_in(event), fed) && match verdict(
                before,
                brought_in(event),
                fed,
            ) {
                Some(error) => next == upload && refusal_due(fed, error, after, action),
                None => write_due(fed, buffer, upload, after, next, action),
            }
    } else {
        write_due(before, buffer, upload, after, next, action)
    }
}

/// A session says goodbye: what it queues, a `close_notify` at its end, waits
/// behind what waited to be sent. It queues nothing if that alert or a fatal
/// one went before.
pub open spec fn bids_farewell(before: SessionView, after: SessionView) -> bool {
    &&& after == SessionView { link: after.link, ..before }
    &&& before.link.offered(
        seq![],
        if before.link.finished {
            seq![]
        } else {
            seq![seq![]]
        },
        after.link,
    )
    &&& after.link.finished
    &&& if before.link.finished {
        after == before
    } else {
        before.link.queued.len() < after.link.queued.len()
    }
}

/// What a close does next: it sends what there is to send, and is then over.
pub open spec fn close_due(before: SessionView, after: SessionView, action: Action<()>) -> bool {
    if before.link.outgoing.len() > 0 {
        sends(before, after, action)
    } else {
        after == before && action == Action::<()>::Done(Ok(()))
    }
}

/// One turn of a close, which begins with a goodbye. A failure of the stream
/// ends it with that failure.
pub open spec fn close_turn(
    before: SessionView,
    event: Event,
    after: SessionView,
    action: Action<()>,
) -> bool {
    if let Some(error) = failure(event) {
        after == before && action == Action::<()>::Done(Err(error))
    } else if let Some(error) = refusal(event) {
        refusal_due(before, error, after, action)
    } else if event is Start {
        exists|parting: SessionView| #[trigger]
            bids_farewell(before, parting) && close_due(parting, after, action)
    } else {
        close_due(before, after, action)
    }
}

} // verus!
