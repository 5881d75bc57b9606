//! The TLS loop: rustls driven over a byte stream, a turn at a time.
//!
//! # Why there is no fork of rustls here
//!
//! rustls is already sans-io. None of it knows what a runtime is, so what is
//! needed on top is a loop rather than a rewrite, and this module is what goes
//! round in that loop.
//!
//! # Why it is generic over the stream
//!
//! Nothing here is specific to a socket. The loop needs somewhere to put
//! ciphertext and somewhere to get it from, and it does not even touch them
//! itself: it says what is to be done with them. A driver that awaits does so
//! on any runtime, and one that blocks has [`TlsSession::perform`].
//!
//! # The shape of the loop
//!
//! Either direction can block, and a handshake stalls if the side that wants
//! to write is not drained, so both are serviced on every pass rather than
//! only the one the caller asked about.

use vstd::prelude::*;

use rustls::{ClientConnection, Connection, ServerConnection};

use crate::connection;
use crate::connection::{added, lemma_offered_twice, link, LinkView, Progress};
use crate::error::{codes, Errno, Result};
use crate::inbox::Inbox;
use crate::stream::ByteStream;
use crate::turn::{
    absorbs, bids_farewell, brings_bytes, brought_in, close_action, close_due, close_turn, errno,
    handshake_action, handshake_due, handshake_turn, io_result, lemma_takes_in_piecewise,
    outgoing_bytes, protocol_result, read_action, read_due, read_turn, refusal_action, refusal_due,
    served, takes_in, turned_down, verdict, write_due, write_turn, Action, Event, SessionView,
    Upload,
};

verus! {

/// How many bytes are read from the stream at once.
pub const CHUNK: usize = 16 * 1024;

/// A TLS session over a byte stream.
///
/// Either end of the connection: the difference is only which rustls type is
/// inside, and every operation below is identical for both.
#[derive(Debug)]
pub struct TlsSession<S> {
    stream: S,
    connection: Connection,
    /// Plaintext rustls has decrypted but the caller has not taken yet.
    incoming: Inbox,
    /// Whether rustls has shown that it has the peer's `close_notify`.
    peer_closed: bool,
}

/// What came of an action.
#[derive(Debug)]
pub enum Outcome<T> {
    /// The stream did something, and the operation goes on with it.
    Again(Event),
    /// The operation is over.
    Over(Result<T>),
}

impl<S> View for TlsSession<S> {
    type V = SessionView;

    closed spec fn view(&self) -> SessionView {
        SessionView {
            link: link(self.connection),
            pending: self.incoming@,
            peer_closed: self.peer_closed,
        }
    }
}

impl<S> TlsSession<S> {
    /// The stream underneath.
    pub closed spec fn stream(&self) -> S {
        self.stream
    }

    /// How many decrypted bytes are stored, taken by the caller or not.
    pub closed spec fn stored(&self) -> nat {
        self.incoming.stored()
    }

    /// Whether nothing is stored once nothing waits for the caller: what was
    /// taken does not pile up.
    pub open spec fn tidy(&self) -> bool {
        self@.pending.len() == 0 ==> self.stored() == 0
    }

    /// Start a client session over an already connected stream.
    pub fn client(stream: S, session: ClientConnection) -> (tls: Self)
        ensures
            tls.stream() == stream,
            tls@.link == link(Connection::Client(session)),
            tls@.pending == Seq::<u8>::empty(),
            !tls@.peer_closed,
            tls.tidy(),
    {
        TlsSession {
            stream,
            connection: Connection::Client(session),
            incoming: Inbox::new(),
            peer_closed: false,
        }
    }

    /// Start a server session over an already accepted stream.
    pub fn server(stream: S, session: ServerConnection) -> (tls: Self)
        ensures
            tls.stream() == stream,
            tls@.link == link(Connection::Server(session)),
            tls@.pending == Seq::<u8>::empty(),
            !tls@.peer_closed,
            tls.tidy(),
    {
        TlsSession {
            stream,
            connection: Connection::Server(session),
            incoming: Inbox::new(),
            peer_closed: false,
        }
    }

    /// The next bytes that rustls wants to send, if there are any.
    ///
    /// Called until there are none, this sends everything rustls currently
    /// wants to send.
    pub fn flush_outgoing(&mut self) -> (bytes: Result<Option<Vec<u8>>>)
        ensures
            final(self).stream() == old(self).stream(),
            old(self).tidy() ==> final(self).tidy(),
            if old(self)@.link.outgoing.len() == 0 {
                final(self)@ == old(self)@ && bytes == Ok::<Option<Vec<u8>>, Errno>(None)
            } else {
                &&& final(self)@ == old(self)@.with_outgoing(final(self)@.link.outgoing)
                &&& bytes matches Ok(Some(front))
                &&& front@.len() > 0
                &&& old(self)@.link.outgoing == front@ + final(self)@.link.outgoing
            },
    {
        if !connection::wants_write(&self.connection) {
            return Ok(None);
        }
        let mut buffer: Vec<u8> = Vec::new();
        // Writing into a vector cannot fail, so an error is a rustls state
        // problem rather than an I/O one.
        let outcome = connection::write_tls(&mut self.connection, &mut buffer);
        proof {
            let waiting = old(self)@.link.outgoing;
            let written = outcome->Ok_0 as int;
            assert(buffer@ =~= waiting.take(written));
            assert(waiting =~= waiting.take(written) + waiting.skip(written));
        }
        outgoing_bytes(outcome, buffer)
    }

    /// Take over what rustls has decrypted, given what it reported.
    ///
    /// A protocol error is an attack or a broken peer; either way the
    /// connection is finished.
    pub fn collect_plaintext(
        &mut self,
        outcome: core::result::Result<Progress, rustls::Error>,
    ) -> (result: Result<()>)
        ensures
            final(self).stream() == old(self).stream(),
            old(self).tidy() ==> final(self).tidy(),
            match outcome {
                Ok(progress) => {
                    let room = progress.plaintext_bytes_to_read as nat;
                    let waiting = old(self)@.link.plaintext;
                    let count = served(waiting.len(), room);
                    &&& result == Ok::<(), Errno>(())
                    &&& final(self)@ == SessionView {
                        link: LinkView {
                            plaintext: waiting.skip(count as int),
                            full: final(self)@.link.full,
                            ..old(self)@.link
                        },
                        pending: old(self)@.pending + waiting.take(count as int) + Seq::new(
                            (room - count) as nat,
                            |i: int| 0u8,
                        ),
                        peer_closed: old(self)@.peer_closed || progress.peer_has_closed,
                        ..old(self)@
                    }
                },
                Err(_) => {
                    &&& result == Err::<(), Errno>(errno(codes::PROTOCOL))
                    &&& final(self)@ == old(self)@
                },
            },
    {
        let progress = protocol_result(outcome)?;
        let ghost before = self@;
        let available: usize = progress.plaintext_bytes_to_read;
        if progress.peer_has_closed {
            self.peer_closed = true;
        }
        if available > 0 {
            let mut plaintext: Vec<u8> = vec![0u8; available];
            let ghost zeroes = plaintext@;
            // Reading plaintext out of rustls cannot fail once it has reported
            // the bytes are there.
            let _ = connection::read_plaintext(&mut self.connection, plaintext.as_mut_slice());
            proof {
                let count = served(before.link.plaintext.len(), available as nat) as int;
                assert(zeroes.skip(count) =~= Seq::new((available - count) as nat, |i: int| 0u8));
                assert(before.pending + plaintext@ =~= before.pending
                    + before.link.plaintext.take(count) + zeroes.skip(count));
            }
            self.incoming.push(plaintext);
        } else {
            assert(before.link.plaintext.skip(0) =~= before.link.plaintext);
            assert(before.pending + before.link.plaintext.take(0) + Seq::new(
                0,
                |i: int| 0u8,
            ) =~= before.pending);
        }
        Ok(())
    }

    /// Let rustls decrypt what was read from the stream.
    ///
    /// Returns how many ciphertext bytes arrived; zero means the peer closed.
    pub fn fill_incoming(&mut self, chunk: &[u8]) -> (arrived: Result<usize>)
        ensures
            final(self).stream() == old(self).stream(),
            old(self).tidy() ==> final(self).tidy(),
            absorbs(old(self)@, chunk@, final(self)@),
            arrived == match verdict(old(self)@, chunk@, final(self)@) {
                Some(error) => Err::<usize, Errno>(error),
                None => Ok::<usize, Errno>(chunk.len()),
            },
    {
        let ghost before = self@;
        let mut offset: usize = 0;
        assert(self@.unread() =~= self@.unread() + Seq::<u8>::empty());
        while offset < chunk.len()
            invariant_except_break
                offset == 0 ==> self@ == before,
            invariant
                offset <= chunk@.len(),
                self.stream == old(self).stream,
                old(self).tidy() ==> self.tidy(),
                before == old(self)@,
                self@.link.consumed.len() == before.link.consumed.len() + offset,
                takes_in(before, chunk@, self@),
                offset > 0 ==> !self@.link.failed,
            ensures
                chunk@.len() == 0 ==> self@ == before,
                offset < chunk@.len() ==> {
                    &&& self@.link.closed
                    &&& self@.peer_closed
                    &&& !self@.link.full
                },
            decreases chunk@.len() - offset,
        {
            let ghost earlier = self@;
            let rest = &chunk[offset..chunk.len()];
            assert(rest@ =~= chunk@.skip(offset as int));
            // `read_tls` takes as much as its internal buffer allows, which
            // may be less than offered, so this loops rather than assuming.
            let outcome = connection::read_tls(&mut self.connection, rest);
            let taken: usize = io_result(outcome)?;
            if taken == 0 {
                // Nothing is read behind the peer's close.
                self.peer_closed = true;
                break;
            }
            offset = offset + taken;
            let outcome = connection::process_new_packets(&mut self.connection);
            let ghost processed = self@;
            let collected = self.collect_plaintext(outcome);
            proof {
                assert(self@.link.consumed.len() - earlier.link.consumed.len() == taken);
                assert(processed.unread() =~= earlier.unread() + added(
                    earlier.link.decrypted,
                    processed.link.decrypted,
                ));
                assert(self@.unread() =~= processed.unread());
                if !processed.link.failed {
                    assert(self@.pending =~= self@.unread());
                }
                assert(takes_in(earlier, rest@, self@));
                lemma_takes_in_piecewise(before, chunk@, earlier, self@);
            }
            collected?;
        }
        Ok(chunk.len())
    }

    /// Go on to end an operation with `error`, after all that there is to send.
    fn refuse<T>(&mut self, error: Errno) -> (action: Action<T>)
        ensures
            final(self).stream() == old(self).stream(),
            old(self).tidy() ==> final(self).tidy(),
            refusal_due(old(self)@, error, final(self)@, action),
    {
        let outgoing = self.flush_outgoing();
        refusal_action(outgoing, error)
    }

    /// One turn of the handshake, which runs to completion in as many turns as
    /// it takes.
    ///
    /// Worth doing explicitly rather than letting the first read drive it: a
    /// certificate failure should surface at connect time, not as a strange
    /// error in the middle of the application's first message.
    ///
    /// Where rustls refuses what the peer sent, the alert that says so is sent
    /// first, and the handshake ends with the error then.
    pub fn handshake(&mut self, event: Event) -> (action: Action<()>)
        ensures
            final(self).stream() == old(self).stream(),
            old(self).tidy() ==> final(self).tidy(),
            handshake_turn(old(self)@, event, final(self)@, action),
    {
        match event {
            Event::Start => {},
            Event::Sent(Ok(())) => {},
            Event::Sent(Err(error)) => {
                return Action::Done(Err(error));
            },
            Event::Received(Err(error)) => {
                return Action::Done(Err(error));
            },
            Event::Refused(error, Err(_)) => {
                return Action::Done(Err(error));
            },
            Event::Refused(error, Ok(())) => {
                return self.refuse(error);
            },
            Event::Received(Ok(chunk)) => {
                if chunk.len() == 0 {
                    return Action::Done(Err(Errno(codes::CONNECTION_RESET)));
                }
                assert(brings_bytes(event) && brought_in(event) == chunk@);
                let arrived = self.fill_incoming(chunk.as_slice());
                assert(absorbs(old(self)@, brought_in(event), self@));
                if let Err(error) = arrived {
                    return self.refuse(error);
                }
            },
        }
        let ghost fed = self@;
        let outgoing = self.flush_outgoing();
        let handshaking: bool = connection::is_handshaking(&self.connection);
        let action = handshake_action(outgoing, handshaking);
        assert(handshake_due(fed, self@, action));
        action
    }

    /// One turn of a read of decrypted bytes into `buffer`.
    ///
    /// Ends with zero when the peer has closed the session cleanly. A stream
    /// that ends before that was cut short, and is [`codes::CONNECTION_RESET`].
    pub fn read(&mut self, event: Event, buffer: &mut [u8]) -> (action: Action<usize>)
        ensures
            final(self).stream() == old(self).stream(),
            old(self).tidy() ==> final(self).tidy(),
            read_turn(old(self)@, old(buffer)@, event, final(self)@, final(buffer)@, action),
    {
        match event {
            Event::Start => {},
            Event::Sent(Ok(())) => {},
            Event::Sent(Err(error)) => {
                return Action::Done(Err(error));
            },
            Event::Received(Err(error)) => {
                return Action::Done(Err(error));
            },
            Event::Refused(error, Err(_)) => {
                return Action::Done(Err(error));
            },
            Event::Refused(error, Ok(())) => {
                return self.refuse(error);
            },
            Event::Received(Ok(chunk)) => {
                if chunk.len() == 0 {
                    if !self.peer_closed {
                        return Action::Done(Err(Errno(codes::CONNECTION_RESET)));
                    }
                } else {
                    assert(brings_bytes(event) && brought_in(event) == chunk@);
                    let arrived = self.fill_incoming(chunk.as_slice());
                    assert(absorbs(old(self)@, brought_in(event), self@));
                    if let Err(error) = arrived {
                        return self.refuse(error);
                    }
                }
            },
        }
        let ghost fed = self@;
        // Serve what has already been decrypted before going to the stream.
        let action = if !self.incoming.is_empty() {
            let count: usize = self.incoming.take(buffer);
            Action::Done(Ok(count))
        } else {
            let outgoing = self.flush_outgoing();
            read_action(outgoing, self.peer_closed)
        };
        assert(read_due(fed, old(buffer)@, self@, buffer@, action));
        action
    }

    /// One turn of a write of plaintext, which encrypts and sends all of it.
    ///
    /// Before the handshake is over rustls may accept bytes and hold them back.
    /// The write goes on with the handshake then, and ends when all is sent.
    ///
    /// `upload` is how far it has come, and belongs to this `buffer` alone.
    pub fn write_all(&mut self, upload: &mut Upload, event: Event, buffer: &[u8]) -> (action:
        Action<()>)
        ensures
            final(self).stream() == old(self).stream(),
            old(self).tidy() ==> final(self).tidy(),
            write_turn(
                old(self)@,
                buffer@,
                *old(upload),
                event,
                final(self)@,
                *final(upload),
                action,
            ),
    {
        match event {
            Event::Sent(Err(error)) => {
                return Action::Done(Err(error));
            },
            Event::Received(Err(error)) => {
                return Action::Done(Err(error));
            },
            Event::Refused(error, Err(_)) => {
                return Action::Done(Err(error));
            },
            Event::Refused(error, Ok(())) => {
                return self.refuse(error);
            },
            Event::Start => {},
            Event::Sent(Ok(())) => {},
            Event::Received(Ok(chunk)) => {
                if chunk.len() == 0 {
                    return Action::Done(Err(Errno(codes::CONNECTION_RESET)));
                }
                assert(brings_bytes(event) && brought_in(event) == chunk@);
                let arrived = self.fill_incoming(chunk.as_slice());
                assert(absorbs(old(self)@, brought_in(event), self@));
                if let Err(error) = arrived {
                    return self.refuse(error);
                }
            },
        }
        let ghost fed = self@;
        let action = self.go_on_writing(upload, buffer);
        assert(write_due(fed, buffer@, *old(upload), self@, *upload, action));
        action
    }

    /// What a write does next, whatever the stream did last.
    fn go_on_writing(&mut self, upload: &mut Upload, buffer: &[u8]) -> (action: Action<()>)
        ensures
            final(self).stream() == old(self).stream(),
            old(self).tidy() ==> final(self).tidy(),
            write_due(old(self)@, buffer@, *old(upload), final(self)@, *final(upload), action),
    {
        let ghost before = self@;
        let ghost first = *upload;
        loop
            invariant
                self.stream == old(self).stream,
                before == old(self)@,
                first == *old(upload),
                old(self).tidy() ==> self.tidy(),
                (self@ == before && *upload == first) || {
                    &&& !(first.draining && before.link.outgoing.len() > 0)
                    &&& !(first.draining && first.took == 0)
                    &&& first.written <= upload.written <= buffer@.len()
                    &&& first.written < buffer@.len()
                    &&& upload.draining
                    &&& !before.link.failed
                    &&& upload.took == 0 ==> upload.written < buffer@.len()
                    &&& upload.took <= upload.written - first.written
                    &&& self@ == SessionView { link: self@.link, ..before }
                    &&& before.link.offered(
                        buffer@.subrange(first.written as int, upload.written as int),
                        turned_down(buffer@, *upload),
                        self@.link,
                    )
                },
            decreases
                    buffer@.len() - upload.written,
                    (if upload.draining && upload.took == 0 {
                        0int
                    } else {
                        1int
                    }),
        {
            let ghost earlier = self@;
            let ghost start = upload.written;
            if upload.draining {
                match self.flush_outgoing() {
                    Err(error) => {
                        return Action::Done(Err(error));
                    },
                    Ok(Some(bytes)) => {
                        return Action::Send(bytes);
                    },
                    Ok(None) => {},
                }
                if let Err(error) = upload.drained() {
                    return Action::Done(Err(error));
                }
            }
            if upload.written >= buffer.len() {
                if buffer.len() == 0 {
                    return Action::Done(Ok(()));
                }
                let outgoing = self.flush_outgoing();
                let handshaking: bool = connection::is_handshaking(&self.connection);
                return handshake_action(outgoing, handshaking);
            }
            // rustls buffers the plaintext and encrypts on its own terms, so a
            // short accept here just means its buffer is full and needs
            // draining to the stream.
            let rest = &buffer[upload.written..buffer.len()];
            let outcome = connection::write_plaintext(&mut self.connection, rest);
            if let Err(error) = upload.accept(outcome) {
                return Action::Done(Err(error));
            }
            proof {
                let from = first.written as int;
                let already = buffer@.subrange(from, start as int);
                let now = rest@.take(upload.took as int);
                let refused = turned_down(buffer@, *upload);
                assert(rest@ =~= buffer@.skip(start as int));
                assert(already + now =~= buffer@.subrange(from, upload.written as int));
                assert(Seq::<Seq<u8>>::empty() + refused =~= refused);
                if earlier == before {
                    assert(already =~= Seq::<u8>::empty());
                    assert(already + now =~= now);
                } else {
                    lemma_offered_twice(
                        before.link,
                        already,
                        seq![],
                        earlier.link,
                        now,
                        refused,
                        self@.link,
                    );
                }
            }
        }
    }

    /// One turn of a close, which sends a `close_notify` and stops.
    ///
    /// Skipping this is what produces "connection reset" in a peer's logs
    /// instead of a clean end, and it is how a truncation attack is detected.
    pub fn close(&mut self, event: Event) -> (action: Action<()>)
        ensures
            final(self).stream() == old(self).stream(),
            old(self).tidy() ==> final(self).tidy(),
            close_turn(old(self)@, event, final(self)@, action),
    {
        match event {
            Event::Start => {
                connection::send_close_notify(&mut self.connection);
                assert(bids_farewell(old(self)@, self@));
            },
            Event::Sent(Err(error)) => {
                return Action::Done(Err(error));
            },
            Event::Received(Err(error)) => {
                return Action::Done(Err(error));
            },
            Event::Refused(error, Err(_)) => {
                return Action::Done(Err(error));
            },
            Event::Refused(error, Ok(())) => {
                return self.refuse(error);
            },
            _ => {},
        }
        let ghost parting = self@;
        let outgoing = self.flush_outgoing();
        let action = close_action(outgoing);
        assert(close_due(parting, self@, action));
        action
    }

    /// The negotiated ALPN protocol, if any.
    pub fn alpn_protocol(&self) -> (protocol: Option<&[u8]>)
        ensures
            match protocol {
                Some(name) => self@.link.protocol == Some(name@),
                None => self@.link.protocol is None,
            },
    {
        connection::alpn_protocol(&self.connection)
    }

    /// The stream underneath, for a caller that needs its address.
    pub fn get_ref(&self) -> (stream: &S)
        ensures
            *stream == self.stream(),
    {
        &self.stream
    }

    /// The stream underneath, for a driver that carries out actions on it.
    pub fn get_mut(&mut self) -> (stream: &mut S)
        ensures
            *stream == old(self).stream(),
            final(self).stream() == *final(stream),
            final(self)@ == old(self)@,
    {
        &mut self.stream
    }
}

impl<S: ByteStream> TlsSession<S> {
    /// Carry out `action` on a stream that blocks, and come back with what the
    /// operation goes on with or ends with: what that one call of the stream
    /// came back with, as it is.
    pub fn perform<T>(&mut self, action: Action<T>) -> (outcome: Outcome<T>)
        ensures
            final(self)@ == old(self)@,
            match action {
                Action::Send(bytes) => outcome matches Outcome::Again(Event::Sent(result)) && {
                    &&& final(self).stream().received() == old(self).stream().received()
                    &&& result is Ok ==> final(self).stream().sent() == old(self).stream().sent()
                        + bytes@
                    &&& exists|stream: &mut S, buffer: &[u8]|
                        {
                            &&& *stream == old(self).stream()
                            &&& *final(stream) == final(self).stream()
                            &&& buffer@ == bytes@
                            &&& #[trigger] call_ensures(S::write_all, (stream, buffer), result)
                        }
                },
                Action::Refuse(bytes, error) => outcome matches Outcome::Again(
                    Event::Refused(reason, result),
                ) && {
                    &&& reason == error
                    &&& final(self).stream().received() == old(self).stream().received()
                    &&& result is Ok ==> final(self).stream().sent() == old(self).stream().sent()
                        + bytes@
                    &&& exists|stream: &mut S, buffer: &[u8]|
                        {
                            &&& *stream == old(self).stream()
                            &&& *final(stream) == final(self).stream()
                            &&& buffer@ == bytes@
                            &&& #[trigger] call_ensures(S::write_all, (stream, buffer), result)
                        }
                },
                Action::Receive => outcome matches Outcome::Again(Event::Received(result)) && {
                    &&& final(self).stream().sent() == old(self).stream().sent()
                    &&& result matches Ok(chunk) ==> chunk@.len() <= CHUNK
                        && final(self).stream().received() == old(self).stream().received()
                        + chunk@
                    &&& exists|stream: &mut S, buffer: &mut [u8], count: Result<usize>|
                        {
                            &&& *stream == old(self).stream()
                            &&& *final(stream) == final(self).stream()
                            &&& buffer@.len() == CHUNK
                            &&& #[trigger] call_ensures(S::read, (stream, buffer), count)
                            &&& match count {
                                Ok(n) => result matches Ok(chunk) && chunk@ == final(buffer)@.take(
                                    n as int,
                                ),
                                Err(error) => result == Err::<Vec<u8>, Errno>(error),
                            }
                        }
                },
                Action::Done(result) => outcome == Outcome::<T>::Over(result)
                    && final(self).stream() == old(self).stream(),
            },
    {
        match action {
            Action::Send(bytes) => Outcome::Again(
                Event::Sent(self.stream.write_all(bytes.as_slice())),
            ),
            Action::Refuse(bytes, error) => Outcome::Again(
                Event::Refused(error, self.stream.write_all(bytes.as_slice())),
            ),
            Action::Receive => {
                let mut chunk: Vec<u8> = vec![0u8; CHUNK];
                match self.stream.read(chunk.as_mut_slice()) {
                    Ok(count) => {
                        chunk.truncate(count);
                        Outcome::Again(Event::Received(Ok(chunk)))
                    },
                    Err(error) => Outcome::Again(Event::Received(Err(error))),
                }
            },
            Action::Done(result) => Outcome::Over(result),
        }
    }
}

} // verus!
