use aegis_edge_relay::tls::{edge_tls_config, trusted_roots};

fn der(tag: u8, content: &[u8]) -> Vec<u8> {
    assert!(content.len() < 128);
    let mut bytes = vec![tag, content.len() as u8];
    bytes.extend_from_slice(content);
    bytes
}

/// A certificate with this subject and this public key, and little else.
fn certificate(subject: &[u8], key: &[u8]) -> Vec<u8> {
    let algorithm = der(0x30, &der(0x06, &[0x2a, 0x03]));
    let mut fields = der(0xa0, &der(0x02, &[2]));
    fields.extend(der(0x02, &[1]));
    fields.extend(algorithm.clone());
    fields.extend(der(0x30, &[]));
    fields.extend(der(0x30, &[]));
    fields.extend(der(0x30, subject));
    fields.extend(der(0x30, key));
    let mut signed = der(0x30, &fields);
    signed.extend(algorithm);
    signed.extend(der(0x03, &[0]));
    der(0x30, &signed)
}

#[test]
fn roots_of_the_machine_are_trusted_in_order() {
    let roots = trusted_roots(&vec![certificate(b"one", b"key 1"), certificate(b"two", b"key 2")]);
    assert_eq!(roots.len(), 2);
    assert_eq!(roots.roots[0].subject.as_ref(), b"one");
    assert_eq!(roots.roots[0].subject_public_key_info.as_ref(), b"key 1");
    assert!(roots.roots[0].name_constraints.is_none());
    assert_eq!(roots.roots[1].subject.as_ref(), b"two");
}

#[test]
fn certificates_that_cannot_be_parsed_are_left_out() {
    let roots = trusted_roots(&vec![
        b"no certificate".to_vec(),
        certificate(b"one", b"key 1"),
        Vec::new(),
    ]);
    assert_eq!(roots.len(), 1);
    assert_eq!(roots.roots[0].subject.as_ref(), b"one");
}

#[test]
fn bundled_roots_stand_in_for_none() {
    let bundled = webpki_roots::TLS_SERVER_ROOTS;
    assert!(!bundled.is_empty());
    for certs in [Vec::new(), vec![b"no certificate".to_vec()]] {
        let roots = trusted_roots(&certs);
        assert_eq!(roots.len(), bundled.len());
        assert_eq!(roots.roots[0].subject, bundled[0].subject);
        assert_eq!(roots.roots[bundled.len() - 1], bundled[bundled.len() - 1]);
    }
}

#[test]
fn session_offers_http_1_and_names_the_server() {
    for certs in [Vec::new(), vec![certificate(b"one", b"key 1")]] {
        let config = edge_tls_config(&certs);
        assert_eq!(config.alpn_protocols, vec![b"http/1.1".to_vec()]);
        assert!(config.enable_sni);
        assert!(!config.client_auth_cert_resolver.has_certs());
    }
}

#[test]
fn session_offers_tls_1_3_alone() {
    let config = std::sync::Arc::new(edge_tls_config(&Vec::new()));
    let name = rustls::pki_types::ServerName::try_from("example.com").unwrap();
    let mut connection = rustls::ClientConnection::new(config, name).unwrap();
    let mut hello: Vec<u8> = Vec::new();
    connection.write_tls(&mut hello).unwrap();
    // The extension that lists the versions on offer: one of two bytes.
    let alone = [0x00, 0x2b, 0x00, 0x03, 0x02, 0x03, 0x04];
    assert!(hello.windows(alone.len()).any(|window| window == alone));
    // The extension that names the server holds the name.
    assert!(hello.windows(11).any(|window| window == b"example.com"));
}
