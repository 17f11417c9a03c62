use rustnps::tls::{cert_index, select_cert, sni_from_client_hello};
use std::sync::Arc;

fn client_hello_for(name: &str) -> Vec<u8> {
    let config = rustls::ClientConfig::builder()
        .with_root_certificates(rustls::RootCertStore::empty())
        .with_no_client_auth();
    let server_name = rustls::pki_types::ServerName::try_from(name.to_string()).unwrap();
    let mut conn = rustls::ClientConnection::new(Arc::new(config), server_name).unwrap();
    let mut out = Vec::new();
    while conn.wants_write() {
        conn.write_tls(&mut out).unwrap();
    }
    out
}

#[test]
fn certificates_are_chosen_by_exact_name_then_suffix_then_default() {
    let hosts = vec![
        (" ".to_string(), 0usize),
        ("A.example, *.Wild.test".to_string(), 1usize),
        ("b.example".to_string(), 2usize),
    ];
    let index = cert_index(&hosts);
    assert!(!index.is_empty());
    assert_eq!(index.default, Some(1));
    assert_eq!(index.exact, vec![("a.example".to_string(), 1), ("b.example".to_string(), 2)]);
    assert_eq!(index.wildcard, vec![("wild.test".to_string(), 1)]);
    assert_eq!(select_cert(&index, Some(" B.Example. ")), Some(2));
    assert_eq!(select_cert(&index, Some("x.wild.test")), Some(1));
    assert_eq!(select_cert(&index, Some("other.test")), Some(1));
    assert_eq!(select_cert(&index, None), None);
    let empty = cert_index(&vec![("".to_string(), 0usize)]);
    assert!(empty.is_empty());
    assert_eq!(select_cert(&empty, Some("a.example")), None);
}

#[test]
fn server_names_are_read_from_client_hellos() {
    let hello = client_hello_for("Proxy.Example.com");
    assert_eq!(sni_from_client_hello(&hello), Ok(Some("proxy.example.com".to_string())));
    assert_eq!(sni_from_client_hello(&hello[..10]), Ok(None));
    assert!(sni_from_client_hello(b"GET / HTTP/1.1\r\n\r\n").is_err());
}
