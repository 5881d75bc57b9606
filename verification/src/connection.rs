//! The TLS connection itself, which is rustls'.
//!
//! rustls is sans-io: [`read_tls`] takes ciphertext that arrived,
//! [`process_new_packets`] decrypts it, and [`write_tls`] hands back
//! ciphertext to send. This module says what is known of those calls, as a set
//! of names for what a connection holds and one small function for each call.
//! Nothing here is proved: it is what the rest of the crate is proved from.
//!
//! [`read_tls`]: rustls::Connection::read_tls
//! [`write_tls`]: rustls::Connection::write_tls
//! [`process_new_packets`]: rustls::Connection::process_new_packets

use vstd::prelude::*;

use rustls::{ClientConnection, Connection, ServerConnection};
use std::io::{Read, Write};

verus! {

/// The client end of a connection.
#[verifier::external_type_specification]
#[verifier::external_body]
pub struct ExClientConnection(ClientConnection);

/// The server end of a connection.
#[verifier::external_type_specification]
#[verifier::external_body]
pub struct ExServerConnection(ServerConnection);

/// Either end of a connection. The two variants are public, so they are
/// declared along with the type.
#[verifier::external_type_specification]
pub struct ExConnection(Connection);

/// A TLS protocol error.
#[verifier::external_type_specification]
#[verifier::external_body]
pub struct ExTlsError(rustls::Error);

/// The error of the `std::io` calls through which rustls moves bytes.
#[verifier::external_type_specification]
#[verifier::external_body]
pub struct ExIoError(std::io::Error);

/// The TLS records that `connection` holds for the peer, as one sequence of
/// bytes, oldest first.
pub uninterp spec fn sendable_tls(connection: Connection) -> Seq<u8>;

/// All the TLS records that `connection` has queued for the peer since it was
/// made, as one sequence of bytes, oldest first.
pub uninterp spec fn queued_tls(connection: Connection) -> Seq<u8>;

/// The application bytes from the peer that `connection` has decrypted and
/// still holds, oldest first.
pub uninterp spec fn received_plaintext(connection: Connection) -> Seq<u8>;

/// All the application bytes from the peer that `connection` has decrypted
/// since it was made, oldest first.
pub uninterp spec fn decrypted_plaintext(connection: Connection) -> Seq<u8>;

/// All the application bytes that `connection` has accepted for sending since
/// it was made, oldest first.
pub uninterp spec fn accepted_plaintext(connection: Connection) -> Seq<u8>;

/// All that was asked of `connection` and of which it accepted no application
/// byte, oldest first: the offers that it refused and, as an offer of nothing,
/// each request to close that it followed.
pub uninterp spec fn refused_offers(connection: Connection) -> Seq<Seq<u8>>;

/// The application bytes that `connection` has accepted and not encrypted yet,
/// since the handshake is not far enough, oldest first.
pub uninterp spec fn held_back_plaintext(connection: Connection) -> Seq<u8>;

/// All the TLS bytes from the peer that `connection` has taken in since it was
/// made, oldest first.
pub uninterp spec fn consumed_tls(connection: Connection) -> Seq<u8>;

/// All the TLS bytes from the peer that `connection` had taken in when it last
/// processed what it had taken in without an error.
pub uninterp spec fn processed_tls(connection: Connection) -> Seq<u8>;

/// All the application bytes from the peer that `connection` had decrypted
/// when it last processed what it had taken in without an error.
pub uninterp spec fn vouched_plaintext(connection: Connection) -> Seq<u8>;

/// Whether `connection` refuses to take in TLS bytes, since its buffer for
/// them, or that for decrypted bytes, is full.
pub uninterp spec fn input_full(connection: Connection) -> bool;

/// Whether `connection` is still performing the handshake.
pub uninterp spec fn handshake_pending(connection: Connection) -> bool;

/// Whether `connection` may encrypt application bytes, which it may when the
/// handshake is over and perhaps a little earlier.
pub uninterp spec fn may_encrypt(connection: Connection) -> bool;

/// Whether `connection` has met a fatal error of the protocol.
pub uninterp spec fn has_failed(connection: Connection) -> bool;

/// Whether the peer's `close_notify` has been processed by `connection`.
pub uninterp spec fn close_notify_received(connection: Connection) -> bool;

/// Whether `connection` has queued a `close_notify` or a fatal alert, after
/// which it queues no other.
pub uninterp spec fn final_alert_queued(connection: Connection) -> bool;

/// The application protocol that `connection` has agreed on with the peer.
pub uninterp spec fn agreed_protocol(connection: Connection) -> Option<Seq<u8>>;

/// What was put behind `before` to get `after`.
pub open spec fn added(before: Seq<u8>, after: Seq<u8>) -> Seq<u8> {
    after.skip(before.len() as int)
}

/// What is observable of a connection.
#[verifier::ext_equal]
pub struct LinkView {
    /// TLS bytes waiting to be sent.
    pub outgoing: Seq<u8>,
    /// TLS bytes queued for sending so far.
    pub queued: Seq<u8>,
    /// Decrypted application bytes waiting to be read.
    pub plaintext: Seq<u8>,
    /// Application bytes decrypted so far.
    pub decrypted: Seq<u8>,
    /// Application bytes accepted for sending so far.
    pub accepted: Seq<u8>,
    /// Offers of application bytes so far of which nothing was accepted, and
    /// requests to close, each as an offer of nothing.
    pub refused: Seq<Seq<u8>>,
    /// Application bytes accepted but not encrypted yet.
    pub held_back: Seq<u8>,
    /// TLS bytes taken in so far.
    pub consumed: Seq<u8>,
    /// TLS bytes taken in by the time all was last processed without an error.
    pub processed: Seq<u8>,
    /// Application bytes decrypted by that time.
    pub vouched: Seq<u8>,
    /// Whether there is no room to take in more.
    pub full: bool,
    /// Whether the handshake is still running.
    pub handshaking: bool,
    /// Whether application bytes are encrypted as soon as they are accepted.
    pub encrypting: bool,
    /// Whether a fatal error of the protocol was met.
    pub failed: bool,
    /// Whether the peer has closed the session cleanly.
    pub closed: bool,
    /// Whether this end has queued its last alert.
    pub finished: bool,
    /// The protocol agreed on, if any.
    pub protocol: Option<Seq<u8>>,
}

/// What is observable of `connection`.
pub open spec fn link(connection: Connection) -> LinkView {
    LinkView {
        outgoing: sendable_tls(connection),
        queued: queued_tls(connection),
        plaintext: received_plaintext(connection),
        decrypted: decrypted_plaintext(connection),
        accepted: accepted_plaintext(connection),
        refused: refused_offers(connection),
        held_back: held_back_plaintext(connection),
        consumed: consumed_tls(connection),
        processed: processed_tls(connection),
        vouched: vouched_plaintext(connection),
        full: input_full(connection),
        handshaking: handshake_pending(connection),
        encrypting: may_encrypt(connection),
        failed: has_failed(connection),
        closed: close_notify_received(connection),
        finished: final_alert_queued(connection),
        protocol: agreed_protocol(connection),
    }
}

impl LinkView {
    /// This link with other bytes waiting to be sent.
    pub open spec fn with_outgoing(self, outgoing: Seq<u8>) -> LinkView {
        LinkView { outgoing, ..self }
    }

    /// Whether the bytes waiting to be sent in `after` are those that wait
    /// here, and behind them exactly what was queued since.
    pub open spec fn queues(self, after: LinkView) -> bool {
        &&& self.queued.is_prefix_of(after.queued)
        &&& after.outgoing == self.outgoing + added(self.queued, after.queued)
    }

    /// Whether the bytes waiting to be read in `after` are those that wait
    /// here, and behind them exactly what was decrypted since.
    pub open spec fn decrypts(self, after: LinkView) -> bool {
        &&& self.decrypted.is_prefix_of(after.decrypted)
        &&& after.plaintext == self.plaintext + added(self.decrypted, after.decrypted)
    }

    /// This link after application bytes have been offered to it: it accepted
    /// `bytes`, and it refused the offers of which nothing was accepted. The
    /// bytes are held back until it may encrypt. What it queued for the peer,
    /// an alert perhaps among it, waits behind what waited before.
    pub open spec fn offered(self, bytes: Seq<u8>, refused: Seq<Seq<u8>>, after: LinkView) -> bool {
        &&& after == LinkView {
            outgoing: after.outgoing,
            queued: after.queued,
            accepted: self.accepted + bytes,
            refused: self.refused + refused,
            held_back: if self.encrypting {
                self.held_back
            } else {
                self.held_back + bytes
            },
            finished: after.finished,
            ..self
        }
        &&& self.queues(after)
        &&& self.finished ==> after.finished
    }

    /// This link after it has processed what it had taken in, well or badly:
    /// what it decrypted waits behind what waited to be read, and what it
    /// queued behind what waited to be sent. Once it may encrypt, nothing is
    /// held back. Nothing was accepted or taken in, and what was over stays
    /// over. If all went well, all that was taken in is processed. A peer that
    /// is at fault has not closed the session, and a link that has failed does
    /// nothing any more.
    pub open spec fn works_through(self, after: LinkView) -> bool {
        &&& self.queues(after)
        &&& self.decrypts(after)
        &&& after.accepted == self.accepted
        &&& after.refused == self.refused
        &&& after.consumed == self.consumed
        &&& if after.failed {
            &&& after.processed == self.processed
            &&& after.vouched == self.vouched
            &&& after.closed == self.closed
        } else {
            &&& after.processed == self.consumed
            &&& after.vouched == after.decrypted
        }
        &&& if after.encrypting {
            after.held_back.len() == 0
        } else {
            after.held_back == self.held_back
        }
        &&& !self.handshaking ==> !after.handshaking
        &&& self.encrypting ==> after.encrypting
        &&& self.closed ==> after.closed
        &&& self.finished ==> after.finished
        &&& self.failed ==> after == self
    }
}

/// What was added at once was added piece by piece.
pub proof fn lemma_added_piecewise(before: Seq<u8>, between: Seq<u8>, after: Seq<u8>)
    requires
        before.is_prefix_of(between),
        between.is_prefix_of(after),
    ensures
        before.is_prefix_of(after),
        added(before, after) == added(before, between) + added(between, after),
{
    assert(added(before, after) =~= added(before, between) + added(between, after));
}

/// Two offers in a row are one offer of the bytes of both.
pub proof fn lemma_offered_twice(
    before: LinkView,
    first: Seq<u8>,
    refused: Seq<Seq<u8>>,
    between: LinkView,
    second: Seq<u8>,
    refused_then: Seq<Seq<u8>>,
    after: LinkView,
)
    requires
        before.offered(first, refused, between),
        between.offered(second, refused_then, after),
    ensures
        before.offered(first + second, refused + refused_then, after),
{
    lemma_added_piecewise(before.queued, between.queued, after.queued);
    assert(after.accepted =~= before.accepted + (first + second));
    assert(after.refused =~= before.refused + (refused + refused_then));
    assert(after.held_back =~= if before.encrypting {
        before.held_back
    } else {
        before.held_back + (first + second)
    });
    assert(after.outgoing =~= before.outgoing + added(before.queued, after.queued));
}

/// What rustls reports once it has processed what it took in.
pub struct Progress {
    /// How many decrypted bytes can be read without further input.
    pub plaintext_bytes_to_read: usize,
    /// Whether the peer has closed the session cleanly.
    pub peer_has_closed: bool,
}

/// `rustls::CommonState::wants_write`: whether there are TLS bytes to send.
#[verifier::external_body]
pub(crate) fn wants_write(connection: &Connection) -> (wants: bool)
    ensures
        wants == (sendable_tls(*connection).len() > 0),
{
    connection.wants_write()
}

/// `rustls::CommonState::is_handshaking`: whether the handshake is running.
/// When it is not, application bytes are encrypted as they are accepted, and
/// none are held back: rustls lets go of them all when it begins to encrypt.
#[verifier::external_body]
pub(crate) fn is_handshaking(connection: &Connection) -> (handshaking: bool)
    ensures
        handshaking == handshake_pending(*connection),
        !handshaking ==> may_encrypt(*connection) && held_back_plaintext(*connection).len() == 0,
{
    connection.is_handshaking()
}

/// `rustls::CommonState::alpn_protocol`: the protocol agreed on, if any.
#[verifier::external_body]
pub(crate) fn alpn_protocol(connection: &Connection) -> (protocol: Option<&[u8]>)
    ensures
        match protocol {
            Some(name) => agreed_protocol(*connection) == Some(name@),
            None => agreed_protocol(*connection) is None,
        },
{
    connection.alpn_protocol()
}

/// `rustls::Connection::write_tls`, into a vector: a front part of the waiting
/// TLS bytes, and not an empty one where any wait, moves to the end of
/// `buffer`, and the rest of the connection stays as it is. There is no error:
/// rustls hands on that of the writer and adds one for a writer that claims
/// more than it was given, while a vector appends and grows as needed.
///
/// Not stated: how long the front part is.
#[verifier::external_body]
pub(crate) fn write_tls(connection: &mut Connection, buffer: &mut Vec<u8>) -> (written: Result<
    usize,
    std::io::Error,
>)
    ensures
        match written {
            Ok(n) => {
                let waiting = sendable_tls(*old(connection));
                &&& n <= waiting.len()
                &&& waiting.len() > 0 ==> n > 0
                &&& final(buffer)@ == old(buffer)@ + waiting.take(n as int)
                &&& link(*final(connection)) == link(*old(connection)).with_outgoing(
                    waiting.skip(n as int),
                )
            },
            Err(_) => false,
        },
{
    connection.write_tls(buffer)
}

/// `rustls::Connection::read_tls`, from a slice: a front part of `bytes` is
/// taken in, and nothing else of the connection changes but, perhaps, that it
/// is full. Of bytes that are there, none is taken exactly where the peer has
/// closed the session. There is an error exactly where the connection is full,
/// and it leaves the connection as it was. What was processed before is a
/// front part of what was taken in before.
///
/// Not stated: how many bytes it takes to fill the connection.
#[verifier::external_body]
pub(crate) fn read_tls(connection: &mut Connection, bytes: &[u8]) -> (taken: Result<
    usize,
    std::io::Error,
>)
    ensures
        match taken {
            Ok(n) => {
                &&& !input_full(*old(connection))
                &&& n <= bytes@.len()
                &&& bytes@.len() > 0 ==> (n == 0 <==> close_notify_received(*old(connection)))
                &&& n == 0 ==> link(*final(connection)) == link(*old(connection))
                &&& processed_tls(*old(connection)).is_prefix_of(consumed_tls(*old(connection)))
                &&& link(*final(connection)) == LinkView {
                    consumed: consumed_tls(*old(connection)) + bytes@.take(n as int),
                    full: input_full(*final(connection)),
                    ..link(*old(connection))
                }
            },
            Err(_) => {
                &&& input_full(*old(connection))
                &&& link(*final(connection)) == link(*old(connection))
            },
        },
{
    let mut cursor = bytes;
    connection.read_tls(&mut cursor)
}

/// `rustls::Connection::process_new_packets`: what was taken in is decrypted
/// and acted on. Decrypted bytes and answers to the peer are put behind those
/// that wait, on an error too. Without an error, rustls has gone through all
/// that was taken in, until no complete message was left of it. An error is
/// fatal: there is one exactly where the connection has failed by then, and
/// one that had failed before does no new work. The report is that of `IoState::plaintext_bytes_to_read` and
/// `IoState::peer_has_closed`.
///
/// Not stated: what the bytes decrypt to, what the answers are and when the
/// peer is at fault. They rest on keys, random numbers and the time of day.
///
/// This rests on rustls being built without debug assertions, as it is in a
/// release build. With them it panics if the peer is at fault after a
/// `close_notify` was queued, since it has a second alert to queue then. It
/// has no way to ask whether that alert was queued.
#[verifier::external_body]
pub(crate) fn process_new_packets(connection: &mut Connection) -> (progress: Result<
    Progress,
    rustls::Error,
>)
    ensures
        link(*old(connection)).works_through(link(*final(connection))),
        received_plaintext(*final(connection)) == received_plaintext(*old(connection)) + added(
            decrypted_plaintext(*old(connection)),
            decrypted_plaintext(*final(connection)),
        ),
        progress is Err <==> has_failed(*final(connection)),
        progress is Ok ==> processed_tls(*final(connection)) == consumed_tls(*final(connection)),
        progress is Ok ==> vouched_plaintext(*final(connection)) == decrypted_plaintext(
            *final(connection),
        ),
        progress matches Ok(report) ==> {
            &&& report.plaintext_bytes_to_read == received_plaintext(*final(connection)).len()
            &&& report.peer_has_closed == close_notify_received(*final(connection))
        },
{
    match connection.process_new_packets() {
        Ok(state) => Ok(
            Progress {
                plaintext_bytes_to_read: state.plaintext_bytes_to_read(),
                peer_has_closed: state.peer_has_closed(),
            },
        ),
        Err(error) => Err(error),
    }
}

/// `rustls::Connection::reader` and its `Read::read`: as many of the decrypted
/// bytes as `buffer` holds move into its front, which may leave the connection
/// with room to take in more. Where none are there for a
/// buffer that is not empty, the answer is zero if the peer has closed the
/// session and an error if it has not.
#[verifier::external_body]
pub(crate) fn read_plaintext(connection: &mut Connection, buffer: &mut [u8]) -> (read: Result<
    usize,
    std::io::Error,
>)
    ensures
        final(buffer)@.len() == old(buffer)@.len(),
        ({
            let waiting = received_plaintext(*old(connection));
            let n = if waiting.len() < old(buffer)@.len() {
                waiting.len() as int
            } else {
                old(buffer)@.len() as int
            };
            &&& link(*final(connection)) == LinkView {
                plaintext: waiting.skip(n),
                full: input_full(*final(connection)),
                ..link(*old(connection))
            }
            &&& final(buffer)@ == waiting.take(n) + old(buffer)@.skip(n)
            &&& match read {
                Ok(count) => count == n && (n > 0 || old(buffer)@.len() == 0
                    || close_notify_received(*old(connection))),
                Err(_) => n == 0 && old(buffer)@.len() > 0 && !close_notify_received(
                    *old(connection),
                ),
            }
        }),
{
    connection.reader().read(buffer)
}

/// `rustls::Connection::writer` and its `Write::write`: a front part of
/// `bytes` is accepted, and an offer of which nothing is accepted is refused.
/// The bytes are held back until the connection may encrypt. What is encrypted
/// of them is queued behind what waits to be sent. There is an error exactly
/// where the connection has failed before, and it changes nothing.
///
/// Not stated: how much is accepted, which the room in the buffers of the
/// connection decides, and what it is encrypted to. As for
/// [`process_new_packets`], this rests on a build without debug assertions:
/// keys that are used up can make rustls queue a second alert here.
#[verifier::external_body]
pub(crate) fn write_plaintext(connection: &mut Connection, bytes: &[u8]) -> (accepted: Result<
    usize,
    std::io::Error,
>)
    ensures
        match accepted {
            Ok(n) => {
                &&& !has_failed(*old(connection))
                &&& n <= bytes@.len()
                &&& accepted_plaintext(*final(connection)) == accepted_plaintext(*old(connection))
                    + bytes@.take(n as int)
                &&& refused_offers(*final(connection)) == if n == 0 {
                    refused_offers(*old(connection)).push(bytes@)
                } else {
                    refused_offers(*old(connection))
                }
                &&& link(*old(connection)).offered(
                    bytes@.take(n as int),
                    if n == 0 {
                        seq![bytes@]
                    } else {
                        seq![]
                    },
                    link(*final(connection)),
                )
            },
            Err(_) => {
                &&& has_failed(*old(connection))
                &&& link(*final(connection)) == link(*old(connection))
            },
        },
{
    connection.writer().write(bytes)
}

/// `rustls::CommonState::send_close_notify`: a `close_notify` is queued behind
/// what waits to be sent, and the request is on record. If that alert or a
/// fatal one was queued before, nothing happens.
///
/// Not stated: how the alert is encrypted. rustls panics rather than encrypt a
/// record when the sequence numbers of its keys, two to the power of
/// sixty-four, are used up.
#[verifier::external_body]
pub(crate) fn send_close_notify(connection: &mut Connection)
    ensures
        final_alert_queued(*final(connection)),
        final_alert_queued(*old(connection)) ==> link(*final(connection)) == link(*old(connection)),
        link(*old(connection)).offered(
            seq![],
            if final_alert_queued(*old(connection)) {
                seq![]
            } else {
                seq![seq![]]
            },
            link(*final(connection)),
        ),
        !final_alert_queued(*old(connection)) ==> queued_tls(*final(connection)).len()
            > queued_tls(*old(connection)).len(),
{
    connection.send_close_notify()
}

} // verus!
