//! A client configuration that trusts the usual roots.

use vstd::prelude::*;

use rustls::{ClientConfig, RootCertStore};
use rustls_pki_types::TrustAnchor;
use std::sync::Arc;

verus! {

/// A certificate authority that is trusted without further proof.
#[verifier::external_type_specification]
#[verifier::external_body]
pub struct ExTrustAnchor<'a>(TrustAnchor<'a>);

/// The certificate authorities that a verifier starts from. Its one field is
/// public, and is the list of them.
#[verifier::external_type_specification]
pub struct ExRootCertStore(RootCertStore);

/// Everything a client connection is set up with.
#[verifier::external_type_specification]
#[verifier::external_body]
pub struct ExClientConfig(ClientConfig);

/// Whether `anchor` is one of the roots that the webpki-roots crate holds in
/// `TLS_SERVER_ROOTS`.
pub uninterp spec fn in_webpki_bundle(anchor: TrustAnchor<'static>) -> bool;

/// The roots against which a connection made from `config` verifies the
/// server's certificate.
pub uninterp spec fn trusted_roots(config: ClientConfig) -> Seq<TrustAnchor<'static>>;

/// Whether a connection made from `config` has a certificate of its own to
/// present to a server that asks for one.
pub uninterp spec fn presents_certificate(config: ClientConfig) -> bool;

/// The application protocols that a connection made from `config` offers, most
/// wanted first: its `alpn_protocols`.
pub uninterp spec fn offered_protocols(config: ClientConfig) -> Seq<Seq<u8>>;

/// `webpki_roots::TLS_SERVER_ROOTS`, copied out: its elements are the roots of
/// the bundle, and there are no others.
#[verifier::external_body]
fn bundled_roots() -> (anchors: Vec<TrustAnchor<'static>>)
    ensures
        forall|anchor: TrustAnchor<'static>| #[trigger]
            anchors@.contains(anchor) <==> in_webpki_bundle(anchor),
{
    webpki_roots::TLS_SERVER_ROOTS.to_vec()
}

/// `rustls::RootCertStore::empty`: a store that holds no root.
pub assume_specification[ RootCertStore::empty ]() -> (store: RootCertStore)
    ensures
        store.roots@ == Seq::<TrustAnchor<'static>>::empty(),
;

/// `RootCertStore::extend`: the given roots are put behind those that are
/// already there, in their order.
#[verifier::external_body]
fn extend(store: &mut RootCertStore, anchors: Vec<TrustAnchor<'static>>)
    ensures
        final(store).roots@ == old(store).roots@ + anchors@,
{
    store.extend(anchors);
}

/// `rustls::ClientConfig::builder`, followed by `with_root_certificates` and
/// `with_no_client_auth`: the configuration verifies servers against the roots
/// of the given store, presents no certificate and offers no protocol.
///
/// Not stated: the cryptography is that of the process-wide provider. With
/// `ring` as the one provider that rustls is built with, the builder installs
/// it where there is none yet. It would panic where none can be inferred.
#[verifier::external_body]
fn client_config(roots: RootCertStore) -> (config: ClientConfig)
    ensures
        trusted_roots(config) == roots.roots@,
        !presents_certificate(config),
        offered_protocols(config) == Seq::<Seq<u8>>::empty(),
{
    ClientConfig::builder().with_root_certificates(roots).with_no_client_auth()
}

/// A client configuration trusting the usual roots, and those alone. It
/// presents no client certificate and offers no application protocol.
///
/// Uses the webpki bundle rather than the store of the operating system:
/// reading a system store is a per-platform dependency that this crate does
/// not otherwise need.
#[must_use]
pub fn default_client_config() -> (config: Arc<ClientConfig>)
    ensures
        forall|anchor: TrustAnchor<'static>| #[trigger]
            trusted_roots(*config).contains(anchor) <==> in_webpki_bundle(anchor),
        !presents_certificate(*config),
        offered_protocols(*config) == Seq::<Seq<u8>>::empty(),
{
    let mut roots = RootCertStore::empty();
    let anchors = bundled_roots();
    let ghost bundle = anchors@;
    extend(&mut roots, anchors);
    assert(roots.roots@ =~= bundle);
    Arc::new(client_config(roots))
}

} // verus!
