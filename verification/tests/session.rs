//! Sessions over in-memory pipes: no socket, no runtime, no thread. The two
//! ends take turns, each going on as soon as its stream is ready.

use nago_rustls::connection::Progress;
use nago_rustls::error::codes;
use nago_rustls::rustls::{
    ClientConfig, ClientConnection, RootCertStore, ServerConfig, ServerConnection,
};
use nago_rustls::rustls_pki_types::{CertificateDer, PrivateKeyDer, ServerName};
use nago_rustls::{
    default_client_config, Action, ByteStream, Errno, Event, Outcome, Result, TlsSession, Upload,
    CHUNK,
};
use nago_rustls::turn::{
    close_action, handshake_action, io_result, outgoing_bytes, protocol_result, read_action,
    refusal_action,
};
use std::cell::RefCell;
use std::collections::VecDeque;
use std::rc::Rc;
use std::sync::Arc;

/// What travels in one direction.
#[derive(Default)]
struct Wire {
    bytes: VecDeque<u8>,
    total: Vec<u8>,
    closed: bool,
}

/// Two wires crossed over: what one end writes, the other reads.
struct Pipe {
    outgoing: Rc<RefCell<Wire>>,
    incoming: Rc<RefCell<Wire>>,
}

impl Pipe {
    fn ready(&self) -> bool {
        let wire = self.incoming.borrow();
        wire.closed || !wire.bytes.is_empty()
    }
}

impl ByteStream for Pipe {
    fn read(&mut self, buffer: &mut [u8]) -> Result<usize> {
        let mut wire = self.incoming.borrow_mut();
        let mut count: usize = 0;
        while count < buffer.len() {
            match wire.bytes.pop_front() {
                Some(byte) => {
                    buffer[count] = byte;
                    count += 1;
                }
                None => break,
            }
        }
        Ok(count)
    }

    fn write_all(&mut self, buffer: &[u8]) -> Result<()> {
        let mut wire = self.outgoing.borrow_mut();
        if wire.closed {
            return Err(Errno(codes::BROKEN_PIPE));
        }
        wire.bytes.extend(buffer.iter().copied());
        wire.total.extend_from_slice(buffer);
        Ok(())
    }
}

fn pipes() -> (Pipe, Pipe) {
    let to_server = Rc::new(RefCell::new(Wire::default()));
    let to_client = Rc::new(RefCell::new(Wire::default()));
    (
        Pipe {
            outgoing: to_server.clone(),
            incoming: to_client.clone(),
        },
        Pipe {
            outgoing: to_client,
            incoming: to_server,
        },
    )
}

/// A self signed certificate for `localhost`, and a client config that trusts
/// exactly it.
fn certificate() -> (ServerConfig, ClientConfig) {
    let issued = rcgen::generate_simple_self_signed(["localhost".to_string()])
        .expect("generate certificate");
    let certificate = CertificateDer::from(issued.cert.der().to_vec());
    let key = PrivateKeyDer::try_from(issued.signing_key.serialize_der()).expect("private key");

    let server = ServerConfig::builder()
        .with_no_client_auth()
        .with_single_cert(vec![certificate.clone()], key)
        .expect("server config");

    let mut roots = RootCertStore::empty();
    roots.add(certificate).expect("trust the test certificate");
    let client = ClientConfig::builder()
        .with_root_certificates(roots)
        .with_no_client_auth();

    (server, client)
}

fn client_session(config: ClientConfig, pipe: Pipe) -> TlsSession<Pipe> {
    let name = ServerName::try_from("localhost").expect("name");
    let session = ClientConnection::new(Arc::new(config), name).expect("session");
    TlsSession::client(pipe, session)
}

fn server_session(config: ServerConfig, pipe: Pipe) -> TlsSession<Pipe> {
    let session = ServerConnection::new(Arc::new(config)).expect("session");
    TlsSession::server(pipe, session)
}

/// An operation of a session, in the middle of its turns.
enum Task {
    Handshake,
    Read(usize),
    Write(Upload, Vec<u8>),
    Close,
}

/// One end of a connection, and what it is doing.
struct End {
    tls: TlsSession<Pipe>,
    task: Task,
    event: Option<Event>,
    waiting: bool,
    filled: Vec<u8>,
    result: Option<Result<usize>>,
}

impl End {
    fn new(tls: TlsSession<Pipe>) -> End {
        End {
            tls,
            task: Task::Handshake,
            event: None,
            waiting: false,
            filled: Vec::new(),
            result: Some(Ok(0)),
        }
    }

    fn begin(&mut self, task: Task) {
        self.task = task;
        self.event = Some(Event::Start);
        self.waiting = false;
        self.result = None;
    }

    fn turn(&mut self) -> Action<usize> {
        let event = self.event.take().expect("an event");
        match &mut self.task {
            Task::Handshake => count(self.tls.handshake(event)),
            Task::Read(size) => {
                let mut buffer = vec![0u8; *size];
                let action = self.tls.read(event, &mut buffer);
                if let Action::Done(Ok(n)) = &action {
                    self.filled = buffer[..*n].to_vec();
                }
                action
            }
            Task::Write(upload, bytes) => count(self.tls.write_all(upload, event, bytes)),
            Task::Close => count(self.tls.close(event)),
        }
    }

    /// Go on as far as the stream lets it, and say whether anything happened.
    fn go(&mut self) -> bool {
        let mut moved = false;
        while self.result.is_none() {
            let action = if self.waiting {
                Action::Receive
            } else {
                self.turn()
            };
            if let Action::Receive = action {
                if !self.waiting {
                    // Nothing waits while it has something to send.
                    assert!(matches!(self.tls.flush_outgoing(), Ok(None)));
                }
                if !self.tls.get_ref().ready() {
                    self.waiting = true;
                    return moved;
                }
            }
            self.waiting = false;
            moved = true;
            match self.tls.perform(action) {
                Outcome::Again(event) => self.event = Some(event),
                Outcome::Over(result) => self.result = Some(result),
            }
        }
        moved
    }

    fn finish(&mut self, task: Task) -> Result<usize> {
        self.begin(task);
        self.go();
        self.result.expect("over")
    }

    fn hang_up(&mut self) {
        self.tls.get_mut().outgoing.borrow_mut().closed = true;
        self.tls.get_mut().incoming.borrow_mut().closed = true;
    }
}

fn count(action: Action<()>) -> Action<usize> {
    match action {
        Action::Send(bytes) => Action::Send(bytes),
        Action::Receive => Action::Receive,
        Action::Refuse(bytes, error) => Action::Refuse(bytes, error),
        Action::Done(result) => Action::Done(result.map(|()| 0)),
    }
}

/// Let both ends go on until neither moves.
fn run(one: &mut End, other: &mut End) {
    while one.go() | other.go() {}
}

/// Both ends of a connection, after a handshake that succeeded.
fn connected() -> (End, End) {
    let (server_config, client_config) = certificate();
    let (client_pipe, server_pipe) = pipes();
    let mut client = End::new(client_session(client_config, client_pipe));
    let mut server = End::new(server_session(server_config, server_pipe));
    client.begin(Task::Handshake);
    server.begin(Task::Handshake);
    run(&mut client, &mut server);
    client.result.expect("client").expect("handshake");
    server.result.expect("server").expect("handshake");
    (client, server)
}

fn upload(bytes: &[u8]) -> Task {
    Task::Write(Upload::new(), bytes.to_vec())
}

#[test]
fn a_session_carries_bytes_both_ways() {
    let (mut client, mut server) = connected();

    server.begin(Task::Read(4));
    client.begin(upload(b"ping"));
    run(&mut client, &mut server);
    client.result.expect("over").expect("write");
    let read = server.result.expect("over").expect("read");
    assert_eq!(&server.filled[..read], b"ping");

    client.begin(Task::Read(4));
    server.begin(upload(b"pong"));
    run(&mut client, &mut server);
    server.result.expect("over").expect("write");
    let read = client.result.expect("over").expect("read");
    assert_eq!(&client.filled[..read], b"pong");
}

#[test]
fn a_payload_spanning_many_records_round_trips() {
    // Just past the 16 KiB record cap, which is all it takes to span more
    // than one and exercise the loop that reassembles them.
    const SIZE: usize = 48 * 1024;
    let (mut client, mut server) = connected();

    client.begin(upload(&vec![0x5Au8; SIZE]));
    run(&mut client, &mut server);
    client.result.expect("over").expect("write");
    client.begin(Task::Close);
    run(&mut client, &mut server);
    client.result.expect("over").expect("close");

    let mut total = 0usize;
    while total < SIZE {
        let read = server.finish(Task::Read(32 * 1024)).expect("read");
        if read == 0 {
            break;
        }
        assert!(
            server.filled.iter().all(|byte| *byte == 0x5A),
            "payload corrupted through TLS"
        );
        total += read;
    }
    assert_eq!(total, SIZE, "did not receive the whole payload");

    let read = server.finish(Task::Read(32 * 1024)).expect("read after payload");
    assert_eq!(read, 0, "expected the peer's close, got more data");
}

#[test]
fn an_untrusted_certificate_is_refused() {
    // The client trusts a certificate generated separately from the one the
    // server presents, so the handshake must fail rather than warn.
    let (server_config, _) = certificate();
    let (_, other_client_config) = certificate();
    let (client_pipe, server_pipe) = pipes();
    let mut client = End::new(client_session(other_client_config, client_pipe));
    let mut server = End::new(server_session(server_config, server_pipe));
    client.begin(Task::Handshake);
    server.begin(Task::Handshake);
    run(&mut client, &mut server);
    assert!(
        client.result.expect("over").is_err(),
        "an unknown certificate was accepted"
    );
    assert_eq!(
        client.result.expect("over"),
        Err(Errno(codes::PROTOCOL))
    );
    // The server learns of it from the alert that was sent before that.
    assert_eq!(
        server.result.expect("over"),
        Err(Errno(codes::PROTOCOL))
    );
    assert!(matches!(client.tls.flush_outgoing(), Ok(None)));
}

#[test]
fn the_default_configuration_presents_and_offers_nothing() {
    let config = default_client_config();
    assert!(config.alpn_protocols.is_empty());
    assert!(!config.client_auth_cert_resolver.has_certs());
}

#[test]
fn the_default_configuration_refuses_a_private_root() {
    let (server_config, _) = certificate();
    let (client_pipe, server_pipe) = pipes();
    let name = ServerName::try_from("localhost").expect("name");
    let session = ClientConnection::new(default_client_config(), name).expect("session");
    let mut client = End::new(TlsSession::client(client_pipe, session));
    let mut server = End::new(server_session(server_config, server_pipe));
    client.begin(Task::Handshake);
    server.begin(Task::Handshake);
    run(&mut client, &mut server);
    assert_eq!(
        client.result.expect("over"),
        Err(Errno(codes::PROTOCOL))
    );
}

#[test]
fn a_client_speaks_first_and_a_server_listens() {
    let (server_config, client_config) = certificate();
    let (client_pipe, server_pipe) = pipes();
    let mut client = client_session(client_config, client_pipe);
    let mut server = server_session(server_config, server_pipe);
    match client.handshake(Event::Start) {
        // A handshake record.
        Action::Send(bytes) => assert_eq!(bytes[0], 22),
        other => panic!("{:?}", other),
    }
    assert!(matches!(client.handshake(Event::Sent(Ok(()))), Action::Receive));
    assert!(matches!(server.handshake(Event::Start), Action::Receive));
}

#[test]
fn a_peer_that_hangs_up_resets_the_handshake() {
    let (server_config, _) = certificate();
    let (_, server_pipe) = pipes();
    let mut server = server_session(server_config, server_pipe);
    assert!(matches!(server.handshake(Event::Start), Action::Receive));
    match server.handshake(Event::Received(Ok(Vec::new()))) {
        Action::Done(result) => {
            assert_eq!(result, Err(Errno(54)));
        }
        other => panic!("{:?}", other),
    }
}

#[test]
fn garbage_is_a_protocol_error_and_ends_the_session() {
    let (server_config, _) = certificate();
    let (_, server_pipe) = pipes();
    let mut server = server_session(server_config, server_pipe);
    assert!(matches!(server.handshake(Event::Start), Action::Receive));
    match server.handshake(Event::Received(Ok(vec![0xFFu8; 64]))) {
        // An alert record, so that the peer learns of it first.
        Action::Refuse(bytes, error) => {
            assert_eq!(bytes[0], 21);
            assert_eq!(error, Errno(100));
        }
        other => panic!("{:?}", other),
    }
    match server.handshake(Event::Refused(Errno(100), Ok(()))) {
        Action::Done(result) => assert_eq!(result, Err(Errno(100))),
        other => panic!("{:?}", other),
    }
    // rustls accepts nothing any more.
    let mut upload = Upload::new();
    match server.write_all(&mut upload, Event::Start, b"late") {
        Action::Done(result) => assert_eq!(result, Err(Errno(5))),
        other => panic!("{:?}", other),
    }
    assert_eq!(upload.written, 0);
    // And whatever comes is refused again.
    assert_eq!(server.fill_incoming(&[0u8; 8]), Err(Errno(100)));
    assert_eq!(server.fill_incoming(&[]), Ok(0));
}

#[test]
fn a_refusal_is_told_though_the_stream_fails() {
    let (mut client, _server) = connected();
    let mut buffer = [0u8; 4];
    assert!(matches!(client.tls.read(Event::Start, &mut buffer), Action::Receive));
    assert!(matches!(
        client.tls.read(Event::Received(Ok(vec![0xFFu8; 64])), &mut buffer),
        Action::Refuse(_, Errno(100))
    ));
    let broken = Errno(codes::BROKEN_PIPE);
    assert!(matches!(
        client.tls.read(Event::Refused(Errno(100), Err(broken)), &mut buffer),
        Action::Done(Err(Errno(100)))
    ));
    assert_eq!(buffer, [0u8; 4]);
}

#[test]
fn a_refusal_that_was_given_up_spoils_nothing() {
    let (mut client, mut server) = connected();
    client.begin(upload(b"abc"));
    run(&mut client, &mut server);
    assert_eq!(server.finish(Task::Read(1)), Ok(1));
    // A read takes in garbage, and is dropped before the alert is out.
    let mut buffer = [0u8; 4];
    assert!(matches!(
        server.tls.read(Event::Received(Ok(vec![0xFFu8; 64])), &mut buffer),
        Action::Refuse(_, Errno(100))
    ));
    // The handshake was had, and nothing is left to send.
    assert!(matches!(server.tls.handshake(Event::Start), Action::Done(Ok(()))));
    // What waits is served.
    assert!(matches!(server.tls.read(Event::Start, &mut buffer), Action::Done(Ok(2))));
    assert_eq!(&buffer[..2], b"bc");
}

#[test]
fn a_write_before_the_handshake_ends_with_the_peer() {
    let refused = |event: Event| -> Action<()> {
        let (_, client_config) = certificate();
        let (client_pipe, _server_pipe) = pipes();
        let mut client = client_session(client_config, client_pipe);
        let mut progress = Upload::new();
        assert!(matches!(
            client.write_all(&mut progress, Event::Start, b"early"),
            Action::Send(_)
        ));
        assert!(matches!(
            client.write_all(&mut progress, Event::Sent(Ok(())), b"early"),
            Action::Receive
        ));
        client.write_all(&mut progress, event, b"early")
    };
    assert!(matches!(
        refused(Event::Received(Ok(Vec::new()))),
        Action::Done(Err(Errno(54)))
    ));
    assert!(matches!(
        refused(Event::Received(Ok(vec![0xFFu8; 64]))),
        Action::Refuse(_, Errno(100))
    ));
    assert!(matches!(
        refused(Event::Received(Err(Errno(32)))),
        Action::Done(Err(Errno(32)))
    ));
}

#[test]
fn a_chunk_is_processed_to_its_end() {
    // Twelve small records in one chunk of more than rustls takes at once.
    let (client, mut server) = bare_connections();
    let mut bytes: Vec<u8> = Vec::new();
    let mut sent: Vec<u8> = Vec::new();
    for round in 0..12u8 {
        let piece = vec![round; 1000];
        std::io::Write::write_all(&mut server.writer(), &piece).expect("write");
        sent.extend_from_slice(&piece);
        while server.wants_write() {
            server.write_tls(&mut bytes).expect("write");
        }
    }
    assert!(bytes.len() > 2 * 4096 && bytes.len() <= CHUNK);
    let (client_pipe, _server_pipe) = pipes();
    let mut tls = TlsSession::client(client_pipe, client);
    assert_eq!(tls.fill_incoming(&bytes), Ok(bytes.len()));
    let mut buffer = vec![0u8; 20000];
    assert!(matches!(tls.read(Event::Start, &mut buffer), Action::Done(Ok(12000))));
    assert_eq!(&buffer[..12000], &sent[..]);

    // One byte at a time comes to the same.
    let (client, mut server) = bare_connections();
    std::io::Write::write_all(&mut server.writer(), b"drop by drop").expect("write");
    let mut bytes: Vec<u8> = Vec::new();
    server.write_tls(&mut bytes).expect("write");
    let (client_pipe, _server_pipe) = pipes();
    let mut tls = TlsSession::client(client_pipe, client);
    for byte in &bytes {
        assert_eq!(tls.fill_incoming(&[*byte]), Ok(1));
    }
    assert!(matches!(tls.read(Event::Start, &mut buffer), Action::Done(Ok(12))));
    assert_eq!(&buffer[..12], b"drop by drop");
}

#[test]
fn a_server_works_as_a_client_does() {
    let (mut client, mut server) = connected();
    for client_writes in [true, false] {
        let (from, to) = if client_writes {
            (&mut client, &mut server)
        } else {
            (&mut server, &mut client)
        };
        assert_eq!(from.finish(upload(b"same")), Ok(0));
        assert_eq!(to.finish(Task::Read(8)), Ok(4));
        assert_eq!(to.filled, b"same");
    }
    assert_eq!(client.finish(Task::Close), Ok(0));
    assert_eq!(server.finish(Task::Close), Ok(0));
    assert_eq!(client.finish(Task::Read(8)), Ok(0));
    assert_eq!(server.finish(Task::Read(8)), Ok(0));
}

#[test]
fn what_was_decrypted_before_garbage_can_still_be_read() {
    let (mut client, mut server) = connected();
    client.begin(upload(b"abc"));
    run(&mut client, &mut server);
    let mut small = [0u8; 1];
    assert_eq!(server.finish(Task::Read(1)), Ok(1));
    assert_eq!(server.filled, b"a");
    assert_eq!(server.tls.fill_incoming(&[0xFFu8; 64]), Err(Errno(100)));
    assert!(matches!(server.tls.read(Event::Start, &mut small), Action::Done(Ok(1))));
    assert_eq!(&small, b"b");
}

/// Both ends of a connection of rustls, after the handshake, with nothing to
/// send.
fn bare_connections() -> (ClientConnection, ServerConnection) {
    let (server_config, client_config) = certificate();
    let name = ServerName::try_from("localhost").expect("name");
    let mut client = ClientConnection::new(Arc::new(client_config), name).expect("client");
    let mut server = ServerConnection::new(Arc::new(server_config)).expect("server");
    while client.wants_write() || server.wants_write() {
        let mut bytes: Vec<u8> = Vec::new();
        while client.wants_write() {
            client.write_tls(&mut bytes).expect("write");
        }
        let mut rest = &bytes[..];
        while !rest.is_empty() {
            server.read_tls(&mut rest).expect("read");
            server.process_new_packets().expect("process");
        }
        let mut bytes: Vec<u8> = Vec::new();
        while server.wants_write() {
            server.write_tls(&mut bytes).expect("write");
        }
        let mut rest = &bytes[..];
        while !rest.is_empty() {
            client.read_tls(&mut rest).expect("read");
            client.process_new_packets().expect("process");
        }
    }
    (client, server)
}

#[test]
fn a_close_that_was_processed_before_is_noticed() {
    let (mut client, mut server) = bare_connections();
    server.send_close_notify();
    let mut bytes: Vec<u8> = Vec::new();
    server.write_tls(&mut bytes).expect("write");
    client.read_tls(&mut &bytes[..]).expect("read");
    client.process_new_packets().expect("process");

    let (client_pipe, _server_pipe) = pipes();
    let mut tls = TlsSession::client(client_pipe, client);
    let mut buffer = [0u8; 4];
    assert!(matches!(tls.read(Event::Start, &mut buffer), Action::Receive));
    // Nothing is read behind the close, and that is no error.
    assert!(matches!(
        tls.read(Event::Received(Ok(vec![1u8, 2, 3])), &mut buffer),
        Action::Done(Ok(0))
    ));
    assert_eq!(tls.fill_incoming(&[1u8, 2, 3]), Ok(3));
}

#[test]
fn a_chunk_of_a_connection_that_is_full_is_an_io_error() {
    // More plaintext than rustls holds before it asks to be read.
    let (mut client, mut server) = bare_connections();
    let mut bytes: Vec<u8> = Vec::new();
    for _ in 0..2 {
        std::io::Write::write_all(&mut server.writer(), &[7u8; 16 * 1024]).expect("write");
        while server.wants_write() {
            server.write_tls(&mut bytes).expect("write");
        }
    }
    let mut rest = &bytes[..];
    while !rest.is_empty() && client.read_tls(&mut rest).is_ok() {
        client.process_new_packets().expect("process");
    }
    let (client_pipe, _server_pipe) = pipes();
    let mut tls = TlsSession::client(client_pipe, client);
    assert_eq!(tls.fill_incoming(&[0u8; 4]), Err(Errno(codes::IO)));
}

#[test]
fn where_reads_are_cut_makes_no_difference() {
    let payload: Vec<u8> = (0..5000u32).map(|i| (i % 241) as u8).collect();
    for size in [1usize, 7, 4096, 9000] {
        let (mut client, mut server) = connected();
        client.begin(upload(&payload));
        run(&mut client, &mut server);
        let mut got: Vec<u8> = Vec::new();
        while got.len() < payload.len() {
            let read = server.finish(Task::Read(size)).expect("read");
            assert!(read > 0);
            got.extend_from_slice(&server.filled);
        }
        assert_eq!(got, payload);
    }
}

#[test]
fn failures_of_the_stream_pass_through() {
    let (mut client, _server) = connected();
    let broken = Errno(codes::BROKEN_PIPE);
    assert_eq!(broken.0, 32);
    assert!(matches!(
        client.tls.handshake(Event::Sent(Err(broken))),
        Action::Done(Err(error)) if error == broken
    ));
    let mut buffer = [7u8; 3];
    assert!(matches!(
        client.tls.read(Event::Received(Err(broken)), &mut buffer),
        Action::Done(Err(error)) if error == broken
    ));
    assert_eq!(buffer, [7u8; 3]);
    let mut progress = Upload::new();
    assert!(matches!(
        client.tls.write_all(&mut progress, Event::Sent(Err(broken)), b"x"),
        Action::Done(Err(error)) if error == broken
    ));
    assert!(matches!(
        client.tls.close(Event::Sent(Err(broken))),
        Action::Done(Err(error)) if error == broken
    ));
}

#[test]
fn a_write_to_a_dead_peer_reports_the_broken_pipe() {
    let (mut client, mut server) = connected();
    server.hang_up();
    assert_eq!(
        client.finish(upload(b"anyone?")),
        Err(Errno(codes::BROKEN_PIPE))
    );
}

#[test]
fn decrypted_bytes_are_served_first_and_in_order() {
    let (mut client, mut server) = connected();
    client.begin(upload(b"abcdefg"));
    run(&mut client, &mut server);
    assert_eq!(server.finish(Task::Read(3)), Ok(3));
    assert_eq!(server.filled, b"abc");
    // The rest is there: no turn goes to the stream.
    let mut buffer = [0u8; 2];
    assert!(matches!(
        server.tls.read(Event::Start, &mut buffer),
        Action::Done(Ok(2))
    ));
    assert_eq!(&buffer, b"de");
    assert!(matches!(
        server.tls.read(Event::Start, &mut []),
        Action::Done(Ok(0))
    ));
    let mut buffer = [9u8; 5];
    assert!(matches!(
        server.tls.read(Event::Start, &mut buffer),
        Action::Done(Ok(2))
    ));
    assert_eq!(&buffer, b"fg\x09\x09\x09");
    assert!(matches!(
        server.tls.read(Event::Start, &mut buffer),
        Action::Receive
    ));
}

#[test]
fn a_finished_handshake_is_done_once() {
    let (mut client, mut server) = connected();
    let before = client.tls.get_ref().outgoing.borrow().total.len();
    assert_eq!(client.finish(Task::Handshake), Ok(0));
    assert_eq!(server.finish(Task::Handshake), Ok(0));
    assert_eq!(client.tls.get_ref().outgoing.borrow().total.len(), before);
}

#[test]
fn a_close_is_said_once() {
    let (mut client, _server) = connected();
    let before = client.tls.get_ref().outgoing.borrow().total.len();
    assert_eq!(client.finish(Task::Close), Ok(0));
    let after = client.tls.get_ref().outgoing.borrow().total.len();
    assert!(after > before);
    assert_eq!(client.finish(Task::Close), Ok(0));
    assert_eq!(client.tls.get_ref().outgoing.borrow().total.len(), after);
}

#[test]
fn a_clean_close_reads_as_zero_while_the_stream_stays_open() {
    let (mut client, mut server) = connected();
    assert_eq!(client.finish(Task::Close), Ok(0));
    assert_eq!(server.finish(Task::Read(16)), Ok(0));
    // And stays that way, whatever is on the wire.
    assert_eq!(server.finish(Task::Read(16)), Ok(0));
    // This end can still answer.
    assert_eq!(server.finish(upload(b"bye")), Ok(0));
    assert_eq!(client.finish(Task::Read(16)), Ok(3));
    assert_eq!(client.filled, b"bye");
}

#[test]
fn a_stream_that_is_cut_short_is_reset() {
    let (mut client, mut server) = connected();
    client.hang_up();
    assert_eq!(server.finish(Task::Read(16)), Err(Errno(54)));
    let mut buffer = [1u8; 2];
    assert!(matches!(
        server.tls.read(Event::Received(Ok(Vec::new())), &mut buffer),
        Action::Done(Err(Errno(54)))
    ));
    assert_eq!(buffer, [1u8; 2]);
}

#[test]
fn the_end_of_the_stream_after_a_close_reads_as_zero() {
    let (mut client, mut server) = connected();
    assert_eq!(client.finish(Task::Close), Ok(0));
    client.hang_up();
    assert_eq!(server.finish(Task::Read(16)), Ok(0));
    let mut buffer = [1u8; 2];
    assert!(matches!(
        server.tls.read(Event::Received(Ok(Vec::new())), &mut buffer),
        Action::Done(Ok(0))
    ));
}

#[test]
fn an_empty_write_does_nothing() {
    let (mut client, _server) = connected();
    let mut progress = Upload::new();
    assert!(matches!(
        client.tls.write_all(&mut progress, Event::Start, b""),
        Action::Done(Ok(()))
    ));
}

#[test]
fn what_is_written_before_the_handshake_is_sent_after_it() {
    let (server_config, client_config) = certificate();
    let (client_pipe, server_pipe) = pipes();
    let mut client = End::new(client_session(client_config, client_pipe));
    let mut server = End::new(server_session(server_config, server_pipe));
    client.begin(upload(b"early"));
    client.go();
    // It is not over while the bytes are held back.
    assert_eq!(client.result, None);
    server.begin(Task::Handshake);
    run(&mut client, &mut server);
    assert_eq!(client.result, Some(Ok(0)));
    assert_eq!(server.result, Some(Ok(0)));
    assert_eq!(client.finish(Task::Handshake), Ok(0));
    assert_eq!(server.finish(Task::Read(16)), Ok(5));
    assert_eq!(server.filled, b"early");
}

#[test]
fn a_write_that_rustls_does_not_take_fails() {
    // Before the handshake rustls buffers 64 KiB of plaintext and no more,
    // and the first flight does not make room for it.
    let (_, client_config) = certificate();
    let (client_pipe, _server_pipe) = pipes();
    let mut client = End::new(client_session(client_config, client_pipe));
    assert_eq!(
        client.finish(upload(&vec![1u8; 65 * 1024])),
        Err(Errno(codes::IO))
    );
    match &client.task {
        Task::Write(progress, _) => {
            assert_eq!(progress.written, 64 * 1024);
            assert_eq!(progress.took, 0);
        }
        _ => unreachable!(),
    }
}

#[test]
fn a_stalled_upload_is_given_up() {
    let mut progress = Upload::new();
    assert_eq!(progress.drained(), Err(Errno(codes::IO)));
    assert_eq!(progress.accept(Ok(3)), Ok(()));
    assert_eq!(progress.written, 3);
    assert!(progress.draining);
    assert_eq!(progress.drained(), Ok(()));
    assert!(!progress.draining);
    let refused = std::io::Error::other("refused");
    assert_eq!(
        progress.accept(Err(refused)),
        Err(Errno(codes::IO))
    );
    assert_eq!(progress.written, 3);
}

#[test]
fn errors_of_rustls_have_codes() {
    let failed = std::io::Error::other("failed");
    assert_eq!(
        io_result(Err(failed)),
        Err(Errno(5))
    );
    assert_eq!(io_result(Ok(7)), Ok(7));
    let outcome = Err(nago_rustls::rustls::Error::DecryptError);
    assert!(matches!(
        protocol_result(outcome),
        Err(error) if error.0 == 100
    ));
    let progress = Progress {
        plaintext_bytes_to_read: 2,
        peer_has_closed: true,
    };
    assert!(matches!(
        protocol_result(Ok(progress)),
        Ok(report) if report.plaintext_bytes_to_read == 2 && report.peer_has_closed
    ));
}

#[test]
fn what_is_asked_for_follows_from_what_rustls_said() {
    let failed = || std::io::Error::other("failed");
    assert_eq!(outgoing_bytes(Err(failed()), vec![1u8]), Err(Errno(5)));
    assert_eq!(outgoing_bytes(Ok(0), Vec::new()), Ok(None));
    assert_eq!(outgoing_bytes(Ok(1), vec![1u8]), Ok(Some(vec![1u8])));

    let broken: Result<Option<Vec<u8>>> = Err(Errno(5));
    let some: Result<Option<Vec<u8>>> = Ok(Some(vec![8u8]));
    assert!(matches!(handshake_action(Ok(None), true), Action::Receive));
    assert!(matches!(handshake_action(Ok(None), false), Action::Done(Ok(()))));
    assert!(matches!(handshake_action(broken.clone(), true), Action::Done(Err(Errno(5)))));
    assert!(matches!(handshake_action(some.clone(), false), Action::Send(bytes) if bytes == [8u8]));
    assert!(matches!(read_action(Ok(None), true), Action::Done(Ok(0))));
    assert!(matches!(read_action(Ok(None), false), Action::Receive));
    assert!(matches!(read_action(broken.clone(), false), Action::Done(Err(Errno(5)))));
    assert!(matches!(read_action(some.clone(), true), Action::Send(bytes) if bytes == [8u8]));
    let refused: Action<usize> = refusal_action(some.clone(), Errno(100));
    assert!(matches!(refused, Action::Refuse(bytes, Errno(100)) if bytes == [8u8]));
    let refused: Action<usize> = refusal_action(Ok(None), Errno(100));
    assert!(matches!(refused, Action::Done(Err(Errno(100)))));
    let refused: Action<usize> = refusal_action(broken.clone(), Errno(100));
    assert!(matches!(refused, Action::Done(Err(Errno(100)))));
    assert!(matches!(close_action(Ok(None)), Action::Done(Ok(()))));
    assert!(matches!(close_action(broken), Action::Done(Err(Errno(5)))));
    assert!(matches!(close_action(some), Action::Send(bytes) if bytes == [8u8]));
}

#[test]
fn a_report_of_rustls_is_taken_at_its_word() {
    let (mut client, _server) = connected();
    // Nothing is there to read, so the room that was reported stays zero.
    let report = Progress {
        plaintext_bytes_to_read: 2,
        peer_has_closed: false,
    };
    assert_eq!(client.tls.collect_plaintext(Ok(report)), Ok(()));
    let mut buffer = [7u8; 3];
    assert!(matches!(client.tls.read(Event::Start, &mut buffer), Action::Done(Ok(2))));
    assert_eq!(buffer, [0u8, 0, 7]);
    let report = Progress {
        plaintext_bytes_to_read: 0,
        peer_has_closed: true,
    };
    assert_eq!(client.tls.collect_plaintext(Ok(report)), Ok(()));
    assert!(matches!(client.tls.read(Event::Start, &mut buffer), Action::Done(Ok(0))));
    let wrong = nago_rustls::rustls::Error::DecryptError;
    assert_eq!(client.tls.collect_plaintext(Err(wrong)), Err(Errno(100)));
}

#[test]
fn both_ends_agree_on_a_protocol() {
    let (mut server_config, mut client_config) = certificate();
    server_config.alpn_protocols = vec![b"h2".to_vec(), b"http/1.1".to_vec()];
    client_config.alpn_protocols = vec![b"http/1.1".to_vec()];
    let (client_pipe, server_pipe) = pipes();
    let mut client = End::new(client_session(client_config, client_pipe));
    let mut server = End::new(server_session(server_config, server_pipe));
    assert_eq!(client.tls.alpn_protocol(), None);
    client.begin(Task::Handshake);
    server.begin(Task::Handshake);
    run(&mut client, &mut server);
    assert_eq!(client.tls.alpn_protocol(), Some(&b"http/1.1"[..]));
    assert_eq!(server.tls.alpn_protocol(), Some(&b"http/1.1"[..]));

    let (plain, _) = connected();
    assert_eq!(plain.tls.alpn_protocol(), None);
}

#[test]
fn a_stream_is_read_a_chunk_at_a_time() {
    let (_, client_config) = certificate();
    let (client_pipe, server_pipe) = pipes();
    server_pipe
        .outgoing
        .borrow_mut()
        .bytes
        .extend(vec![3u8; CHUNK + 5]);
    let mut client = client_session(client_config, client_pipe);
    let outcome: Outcome<()> = client.perform(Action::Receive);
    match outcome {
        Outcome::Again(Event::Received(Ok(chunk))) => assert_eq!(chunk, vec![3u8; 16384]),
        other => panic!("{:?}", other),
    }
    let outcome: Outcome<()> = client.perform(Action::Receive);
    match outcome {
        Outcome::Again(Event::Received(Ok(chunk))) => assert_eq!(chunk, vec![3u8; 5]),
        other => panic!("{:?}", other),
    }
    let outcome: Outcome<()> = client.perform(Action::Send(vec![1u8, 2u8]));
    assert!(matches!(outcome, Outcome::Again(Event::Sent(Ok(())))));
    assert_eq!(client.get_ref().outgoing.borrow().total, vec![1u8, 2u8]);
    let outcome: Outcome<()> = client.perform(Action::Refuse(vec![3u8], Errno(100)));
    assert!(matches!(outcome, Outcome::Again(Event::Refused(Errno(100), Ok(())))));
    assert_eq!(client.get_ref().outgoing.borrow().total, vec![1u8, 2u8, 3u8]);
    assert!(matches!(
        client.perform(Action::Done(Ok(4usize))),
        Outcome::Over(Ok(4))
    ));
}

#[test]
fn many_writes_arrive_in_order() {
    let (mut client, mut server) = connected();
    let mut written: Vec<u8> = Vec::new();
    let mut got: Vec<u8> = Vec::new();
    for round in 0..40u8 {
        let piece: Vec<u8> = (0..=round).map(|i| i.wrapping_mul(7) ^ round).collect();
        written.extend_from_slice(&piece);
        assert_eq!(client.finish(upload(&piece)), Ok(0));
        if round % 3 == 2 {
            let read = server.finish(Task::Read(11)).expect("read");
            assert!(read <= 11);
            got.extend_from_slice(&server.filled);
        }
    }
    while got.len() < written.len() {
        let read = server.finish(Task::Read(64)).expect("read");
        assert!(read > 0);
        got.extend_from_slice(&server.filled);
    }
    assert_eq!(got, written);
}

#[test]
fn a_large_payload_arrives_whole() {
    let payload: Vec<u8> = (0..200 * 1024u32).map(|i| (i % 251) as u8).collect();
    let (mut client, mut server) = connected();
    client.begin(upload(&payload));
    run(&mut client, &mut server);
    assert_eq!(client.result, Some(Ok(0)));
    let mut got: Vec<u8> = Vec::new();
    while got.len() < payload.len() {
        let read = server.finish(Task::Read(32 * 1024)).expect("read");
        assert!(read > 0);
        got.extend_from_slice(&server.filled);
    }
    assert_eq!(got, payload);
}

#[test]
fn a_close_fails_with_its_stream() {
    let (mut client, mut server) = connected();
    server.hang_up();
    assert_eq!(
        client.finish(Task::Close),
        Err(Errno(codes::BROKEN_PIPE))
    );
    // The alert is out of rustls' hands, and is not said again.
    assert_eq!(client.finish(Task::Close), Ok(0));
}
