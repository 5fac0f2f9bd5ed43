//! The TLS session to the edge: whom the bridge trusts, and what it offers.
use rustls::pki_types::CertificateDer;
use rustls::{ClientConfig, RootCertStore};
use std::sync::Arc;
use vstd::prelude::*;
use vstd::slice::slice_to_vec;
use vstd::utf8::{encode_utf8, is_ascii_chars_encode_utf8};

verus! {

/// A root of trust: its subject, its public key, and the constraints on names
/// that it imposes, if any, each as encoded in its certificate.
pub type Anchor = (Seq<u8>, Seq<u8>, Option<Seq<u8>>);

/// The roots of trust of a client.
#[verifier::external_type_specification]
#[verifier::external_body]
pub struct ExRootCertStore(rustls::RootCertStore);

/// How a client opens TLS sessions.
#[verifier::external_type_specification]
#[verifier::external_body]
pub struct ExClientConfig(rustls::ClientConfig);

/// The errors of the TLS crate.
#[verifier::external_type_specification]
#[verifier::external_body]
pub struct ExRustlsError(rustls::Error);

/// The roots in a store, in the order in which they were added.
pub uninterp spec fn anchors(store: RootCertStore) -> Seq<Anchor>;

/// The root that an encoded certificate stands for, if it can be parsed.
pub uninterp spec fn parsed_anchor(der: Seq<u8>) -> Option<Anchor>;

/// A list of roots, followed by those that are built into the program.
pub uninterp spec fn with_bundled(roots: Seq<Anchor>) -> Seq<Anchor>;

/// The roots that a client trusts.
pub uninterp spec fn config_anchors(config: ClientConfig) -> Seq<Anchor>;

/// The versions of TLS that a client offers, by their numbers in the protocol.
pub uninterp spec fn config_versions(config: ClientConfig) -> Seq<u16>;

/// The protocols above TLS that a client offers.
pub uninterp spec fn config_alpn(config: ClientConfig) -> Seq<Seq<u8>>;

/// Whether a client names the server that it asks for.
pub uninterp spec fn config_sni(config: ClientConfig) -> bool;

/// Whether a client has a certificate of its own to present.
pub uninterp spec fn config_client_cert(config: ClientConfig) -> bool;

/// `RootCertStore::empty`: a store without roots.
pub assume_specification[ RootCertStore::empty ]() -> (store: RootCertStore)
    ensures
        anchors(store) == Seq::<Anchor>::empty(),
;

/// `RootCertStore::is_empty`: whether there is no root in a store.
pub assume_specification[ RootCertStore::is_empty ](store: &RootCertStore) -> (empty: bool)
    ensures
        empty == (anchors(*store).len() == 0),
;

/// `RootCertStore::add`: the root that the certificate stands for is added at
/// the end. If the certificate cannot be parsed, nothing is added.
#[verifier::external_body]
fn add_root(store: &mut RootCertStore, der: Vec<u8>) -> (added: Result<(), rustls::Error>)
    ensures
        added is Ok <==> parsed_anchor(der@) is Some,
        added is Ok ==> anchors(*final(store)) == anchors(*old(store)).push(
            parsed_anchor(der@)->Some_0,
        ),
        added is Err ==> anchors(*final(store)) == anchors(*old(store)),
{
    store.add(CertificateDer::from(der))
}

/// `RootCertStore::extend` with `webpki_roots::TLS_SERVER_ROOTS`: the roots in
/// that list, of which there is at least one, are added at the end.
#[verifier::external_body]
fn add_bundled_roots(store: &mut RootCertStore)
    ensures
        anchors(*final(store)) == with_bundled(anchors(*old(store))),
        anchors(*final(store)).len() > anchors(*old(store)).len(),
        anchors(*final(store)).take(anchors(*old(store)).len() as int) == anchors(*old(store)),
{
    store.extend(webpki_roots::TLS_SERVER_ROOTS.iter().cloned());
}

/// `ClientConfig::builder_with_provider` with the provider of ring, for
/// `version::TLS13` alone, the roots and no client certificate; then its fields
/// `alpn_protocols` and `enable_sni`: a client that trusts these roots, offers
/// TLS 1.3 and these protocols, names the server or not, and has no certificate
/// to present. The provider has what TLS 1.3 needs, so this succeeds. Nothing
/// is claimed of the cipher suites and key exchanges that come with it, nor of
/// the settings that are left as they are by default.
#[verifier::external_body]
fn tls13_config(roots: RootCertStore, alpn: Vec<Vec<u8>>, sni: bool) -> (config: Result<
    ClientConfig,
    rustls::Error,
>)
    ensures
        config is Ok,
        config_anchors(config->Ok_0) == anchors(roots),
        config_versions(config->Ok_0) == seq![0x0304u16],
        config_alpn(config->Ok_0) == encoded(alpn@),
        config_sni(config->Ok_0) == sni,
        !config_client_cert(config->Ok_0),
{
    let provider = Arc::new(rustls::crypto::ring::default_provider());
    let mut config = ClientConfig::builder_with_provider(provider)
        .with_protocol_versions(&[&rustls::version::TLS13])?
        .with_root_certificates(roots)
        .with_no_client_auth();
    config.alpn_protocols = alpn;
    config.enable_sni = sni;
    Ok(config)
}

/// The bytes of each item in a list.
pub open spec fn encoded(items: Seq<Vec<u8>>) -> Seq<Seq<u8>> {
    Seq::new(items.len(), |i: int| items[i]@)
}

/// The roots that a list of certificates stands for, without those that
/// cannot be parsed.
pub open spec fn parsed_anchors(certs: Seq<Seq<u8>>) -> Seq<Anchor>
    decreases certs.len(),
{
    if certs.len() == 0 {
        Seq::empty()
    } else {
        let before = parsed_anchors(certs.drop_last());
        match parsed_anchor(certs.last()) {
            Some(anchor) => before.push(anchor),
            None => before,
        }
    }
}

/// The roots that the bridge trusts: those of the machine, or those that are
/// built into the program if the machine has none that can be parsed.
pub open spec fn trusted_anchors(native: Seq<Seq<u8>>) -> Seq<Anchor> {
    if parsed_anchors(native).len() == 0 {
        with_bundled(Seq::empty())
    } else {
        parsed_anchors(native)
    }
}

/// The roots that the bridge trusts, given the certificates of the machine.
/// There is always one.
pub fn trusted_roots(native_certs: &Vec<Vec<u8>>) -> (roots: RootCertStore)
    ensures
        anchors(roots) == trusted_anchors(encoded(native_certs@)),
        anchors(roots).len() > 0,
{
    let ghost certs = encoded(native_certs@);
    let mut roots = RootCertStore::empty();
    let mut i: usize = 0;
    while i < native_certs.len()
        invariant
            i <= native_certs@.len(),
            certs == encoded(native_certs@),
            anchors(roots) == parsed_anchors(certs.take(i as int)),
        decreases native_certs@.len() - i,
    {
        assert(certs.take(i + 1).drop_last() =~= certs.take(i as int));
        let _ = add_root(&mut roots, slice_to_vec(native_certs[i].as_slice()));
        i = i + 1;
    }
    assert(certs.take(i as int) =~= certs);
    if roots.is_empty() {
        assert(anchors(roots) =~= Seq::empty());
        add_bundled_roots(&mut roots);
    }
    roots
}

/// How the bridge opens TLS sessions with the edge, given the certificates of
/// the machine: with TLS 1.3, naming the server, without a certificate of its
/// own, and for HTTP/1.1 alone. With HTTP/2 on offer the edge might choose it,
/// and a WebSocket could not be asked for.
pub fn edge_tls_config(native_certs: &Vec<Vec<u8>>) -> (config: ClientConfig)
    ensures
        config_anchors(config) == trusted_anchors(encoded(native_certs@)),
        config_anchors(config).len() > 0,
        config_versions(config) == seq![0x0304u16],
        config_alpn(config) == seq![encode_utf8("http/1.1"@)],
        config_sni(config),
        !config_client_cert(config),
{
    let mut alpn: Vec<Vec<u8>> = Vec::new();
    alpn.push(slice_to_vec("http/1.1".as_bytes()));
    let config = tls13_config(trusted_roots(native_certs), alpn, true).unwrap();
    assert(config_alpn(config) =~= seq![encode_utf8("http/1.1"@)]);
    config
}

/// No certificate is passed over: what a list of certificates stands for is
/// what its parts stand for, one after the other, and a single certificate
/// stands for its root, if it can be parsed, and else for nothing.
pub proof fn law_every_certificate_counts(first: Seq<Seq<u8>>, cert: Seq<u8>, rest: Seq<Seq<u8>>)
    ensures
        parsed_anchors(first + rest) == parsed_anchors(first) + parsed_anchors(rest),
        parsed_anchors(seq![cert]) == (match parsed_anchor(cert) {
            Some(anchor) => seq![anchor],
            None => seq![],
        }),
        parsed_anchors(seq![]) == Seq::<Anchor>::empty(),
    decreases rest.len(),
{
    reveal_with_fuel(parsed_anchors, 2);
    assert(seq![cert].drop_last() =~= seq![]);
    if rest.len() == 0 {
        assert(first + rest =~= first);
        assert(parsed_anchors(first) + parsed_anchors(rest) =~= parsed_anchors(first));
    } else {
        law_every_certificate_counts(first, cert, rest.drop_last());
        assert((first + rest).drop_last() =~= first + rest.drop_last());
        assert(parsed_anchors(first + rest) =~= parsed_anchors(first) + parsed_anchors(rest));
    }
}

proof fn lemma_parsed_are_native(native: Seq<Seq<u8>>)
    ensures
        parsed_anchors(native).len() <= native.len(),
        forall|i: int|
            0 <= i < native.len() && (#[trigger] parsed_anchor(native[i])) is Some
                ==> parsed_anchors(native).contains(parsed_anchor(native[i])->Some_0),
        forall|j: int|
            0 <= j < parsed_anchors(native).len() ==> exists|i: int|
                0 <= i < native.len() && #[trigger] parsed_anchor(native[i]) == Some(
                    #[trigger] parsed_anchors(native)[j],
                ),
        (forall|i: int| 0 <= i < native.len() ==> (#[trigger] parsed_anchor(native[i])) is Some)
            ==> {
            &&& parsed_anchors(native).len() == native.len()
            &&& forall|i: int|
                0 <= i < native.len() ==> #[trigger] parsed_anchor(native[i]) == Some(
                    parsed_anchors(native)[i],
                )
        },
    decreases native.len(),
{
    if native.len() > 0 {
        let before = native.drop_last();
        let shorter = parsed_anchors(before);
        let all = parsed_anchors(native);
        lemma_parsed_are_native(before);
        assert forall|i: int|
            0 <= i < native.len() && (#[trigger] parsed_anchor(native[i])) is Some implies all.contains(
        parsed_anchor(native[i])->Some_0) by {
            let anchor = parsed_anchor(native[i])->Some_0;
            if i < before.len() {
                assert(parsed_anchor(before[i]) is Some);
                let j = choose|j: int| 0 <= j < shorter.len() && shorter[j] == anchor;
                assert(all[j] == anchor);
            } else {
                assert(all.last() == anchor);
            }
        }
        assert forall|j: int| 0 <= j < all.len() implies exists|i: int|
            0 <= i < native.len() && #[trigger] parsed_anchor(native[i]) == Some(
                #[trigger] all[j],
            ) by {
            if j < shorter.len() {
                let i = choose|i: int|
                    0 <= i < before.len() && #[trigger] parsed_anchor(before[i]) == Some(
                        shorter[j],
                    );
                assert(parsed_anchor(native[i]) == Some(all[j]));
            } else {
                assert(parsed_anchor(native[native.len() - 1]) == Some(all[j]));
            }
        }
        if forall|i: int| 0 <= i < native.len() ==> (#[trigger] parsed_anchor(native[i])) is Some {
            assert forall|i: int| 0 <= i < before.len() implies (#[trigger] parsed_anchor(
                before[i],
            )) is Some by {
                assert(parsed_anchor(native[i]) is Some);
            }
            assert(parsed_anchor(native[native.len() - 1]) is Some);
            assert forall|i: int| 0 <= i < native.len() implies #[trigger] parsed_anchor(native[i])
                == Some(all[i]) by {
                if i < before.len() {
                    assert(parsed_anchor(before[i]) == Some(shorter[i]));
                }
            }
        }
    }
}

/// Every root of the machine that can be parsed is trusted, and as long as there
/// is one, nothing else is. If all can be parsed, the trusted roots are those of
/// the machine, one for one and in order. If none can, the trusted roots are
/// those that are built into the program.
pub proof fn law_roots_of_machine_are_trusted(native: Seq<Seq<u8>>)
    ensures
        forall|i: int|
            0 <= i < native.len() && (#[trigger] parsed_anchor(native[i])) is Some
                ==> trusted_anchors(native).contains(parsed_anchor(native[i])->Some_0),
        (exists|i: int| 0 <= i < native.len() && (#[trigger] parsed_anchor(native[i])) is Some)
            ==> {
            &&& trusted_anchors(native).len() <= native.len()
            &&& trusted_anchors(native) == parsed_anchors(native)
            &&& forall|j: int|
                0 <= j < trusted_anchors(native).len() ==> exists|i: int|
                    0 <= i < native.len() && #[trigger] parsed_anchor(native[i]) == Some(
                        #[trigger] trusted_anchors(native)[j],
                    )
        },
        native.len() > 0 && (forall|i: int|
            0 <= i < native.len() ==> (#[trigger] parsed_anchor(native[i])) is Some) ==> {
            &&& trusted_anchors(native).len() == native.len()
            &&& forall|i: int|
                0 <= i < native.len() ==> #[trigger] parsed_anchor(native[i]) == Some(
                    trusted_anchors(native)[i],
                )
        },
        (forall|i: int| 0 <= i < native.len() ==> (#[trigger] parsed_anchor(native[i])) is None)
            ==> trusted_anchors(native) == with_bundled(seq![]),
{
    let found = parsed_anchors(native);
    lemma_parsed_are_native(native);
    if exists|i: int| 0 <= i < native.len() && (#[trigger] parsed_anchor(native[i])) is Some {
        let i = choose|i: int|
            0 <= i < native.len() && (#[trigger] parsed_anchor(native[i])) is Some;
        let anchor = parsed_anchor(native[i])->Some_0;
        assert(found.contains(anchor));
        assert(found.len() > 0);
    } else {
        if found.len() > 0 {
            let anchor = found[0];
            let i = choose|i: int|
                0 <= i < native.len() && #[trigger] parsed_anchor(native[i]) == Some(anchor);
            assert(parsed_anchor(native[i]) is Some);
        }
    }
    if native.len() > 0 {
        let first = parsed_anchor(native[0]);
    }
}

/// A list of encoded certificates holds the bytes of each, in order.
pub proof fn law_encoded_in_order(items: Seq<Vec<u8>>)
    ensures
        encoded(items).len() == items.len(),
        forall|i: int| 0 <= i < items.len() ==> #[trigger] encoded(items)[i] == items[i]@,
{
}

/// What [`trusted_roots`] returns: a store with the root of every certificate of
/// the machine that can be parsed, and with as many roots as there are
/// certificates if all can.
pub proof fn law_trusted_roots(native_certs: &Vec<Vec<u8>>, roots: RootCertStore, i: int)
    requires
        call_ensures(trusted_roots, (native_certs,), roots),
        0 <= i < native_certs@.len(),
    ensures
        parsed_anchor(native_certs@[i]@) is Some ==> {
            &&& anchors(roots).contains(parsed_anchor(native_certs@[i]@)->Some_0)
            &&& anchors(roots).len() <= native_certs@.len()
        },
        (forall|j: int|
            0 <= j < native_certs@.len() ==> (#[trigger] parsed_anchor(native_certs@[j]@)) is Some)
            ==> {
            &&& anchors(roots).len() == native_certs@.len()
            &&& parsed_anchor(native_certs@[i]@) == Some(anchors(roots)[i])
        },
{
    let native = encoded(native_certs@);
    law_encoded_in_order(native_certs@);
    law_roots_of_machine_are_trusted(native);
    assert(native[i] == native_certs@[i]@);
    assert(parsed_anchor(native[i]) == parsed_anchor(native_certs@[i]@));
    if forall|j: int|
        0 <= j < native_certs@.len() ==> (#[trigger] parsed_anchor(native_certs@[j]@)) is Some {
        assert forall|j: int| 0 <= j < native.len() implies (#[trigger] parsed_anchor(
            native[j],
        )) is Some by {
            assert(parsed_anchor(native_certs@[j]@) is Some);
        }
    }
}

/// What [`edge_tls_config`] returns: a client with the roots that
/// [`trusted_roots`] gives for the same certificates, for TLS 1.3 and HTTP/1.1
/// alone, that names the server and has no certificate of its own.
pub proof fn law_edge_tls_config(
    native_certs: &Vec<Vec<u8>>,
    roots: RootCertStore,
    config: ClientConfig,
)
    requires
        call_ensures(trusted_roots, (native_certs,), roots),
        call_ensures(edge_tls_config, (native_certs,), config),
    ensures
        config_anchors(config) == anchors(roots),
        config_versions(config).len() == 1,
        config_versions(config)[0] == 772,
        config_alpn(config) == seq![seq![104u8, 116, 116, 112, 47, 49, 46, 49]],
        config_sni(config),
        !config_client_cert(config),
{
    reveal_strlit("http/1.1");
    let chars = "http/1.1"@;
    assert(chars =~= seq!['h', 't', 't', 'p', '/', '1', '.', '1']);
    is_ascii_chars_encode_utf8(chars);
    assert(chars[0] == 'h' && chars[1] == 't' && chars[2] == 't' && chars[3] == 'p');
    assert(chars[4] == '/' && chars[5] == '1' && chars[6] == '.' && chars[7] == '1');
    assert(encode_utf8(chars) =~= seq![104u8, 116, 116, 112, 47, 49, 46, 49]);
}

} // verus!
