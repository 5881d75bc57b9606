//! Drive rustls from any byte stream, with no runtime attached.
//!
//! # Why this crate exists
//!
//! rustls is already sans-io. [`read_tls`] takes ciphertext that arrived,
//! [`process_new_packets`] decrypts it, and [`write_tls`] hands back
//! ciphertext to send. None of it knows what a runtime is.
//!
//! What is usually missing is the loop that drives those calls, and the loops
//! there are tend to be tied to a runtime. Here the loop is taken apart: each
//! operation of a [`TlsSession`] is a function from what the stream did last
//! to what it has to do next. Whoever owns the stream, on whatever runtime or
//! on none, goes round with it.
//!
//! [`read_tls`]: rustls::ConnectionCommon::read_tls
//! [`write_tls`]: rustls::ConnectionCommon::write_tls
//! [`process_new_packets`]: rustls::ConnectionCommon::process_new_packets
//!
//! # What it is not
//!
//! Not a fork of rustls, and not a TLS implementation: all the cryptography
//! and all the protocol is rustls'. This is the plumbing around it.
//!
//! # Example
//!
//! Over a stream that blocks, which implements [`ByteStream`]:
//!
//! ```ignore
//! let session = rustls::ClientConnection::new(config, name)?;
//! let mut tls = TlsSession::client(stream, session);
//! let mut event = Event::Start;
//! loop {
//!     let action = tls.handshake(event);
//!     match tls.perform(action) {
//!         Outcome::Again(next) => event = next,
//!         Outcome::Over(result) => break result?,
//!     }
//! }
//! ```
//!
//! # What is proved
//!
//! The contract of each operation says what one turn of it does, over what is
//! observable of the connection ([`connection`]). What every turn is held to is
//! in [`conduct`], the laws of whole operations and of whole sessions are in
//! [`laws`], and [`calls`] carries all of them over to calls of the functions.

pub mod calls;
pub mod conduct;
pub mod config;
pub mod connection;
pub mod error;
pub mod inbox;
pub mod laws;
mod session;
pub mod stream;
pub mod turn;

pub use config::default_client_config;
pub use error::{Errno, Result};
pub use session::{Outcome, TlsSession, CHUNK};
pub use stream::ByteStream;
pub use turn::{Action, Event, Upload};

// Re-exported so a caller configures TLS without having to match this crate's
// rustls version by hand, which is the usual way a TLS dependency goes wrong.
pub use rustls;
pub use rustls_pki_types;
