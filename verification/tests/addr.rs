use async_stream_connection::listener::path_to_remove;
use async_stream_connection::{Addr, AddrError, IpAddr, Ipv4Addr, Ipv6Addr, SocketAddr};
use std::collections::hash_map::DefaultHasher;
use std::hash::{Hash, Hasher};

/// Resolves `text` as the system does, and hands each candidate over in the
/// library's own type.
fn resolve(text: &str) -> Result<Vec<SocketAddr>, std::io::Error> {
    let rt = tokio::runtime::Builder::new_current_thread().enable_all().build().unwrap();
    let found = rt.block_on(tokio::net::lookup_host(text))?;
    Ok(found
        .map(|a| match Addr::from_literal(&a.to_string()) {
            Some(Addr::Inet(s)) => s,
            other => panic!("{:?} is no endpoint", other),
        })
        .collect())
}

fn parse(text: &str) -> Result<Addr, AddrError<std::io::Error>> {
    Addr::parse_with(text, resolve)
}

fn v4(a: u8, b: u8, c: u8, d: u8, port: u16) -> SocketAddr {
    SocketAddr::new(IpAddr::V4(Ipv4Addr::new(a, b, c, d)), port)
}

fn v6(segments: [u16; 8], port: u16) -> SocketAddr {
    SocketAddr::new(IpAddr::V6(Ipv6Addr::new(segments)), port)
}

fn hash_of(a: &Addr) -> u64 {
    let mut h = DefaultHasher::new();
    a.hash(&mut h);
    h.finish()
}

#[test]
fn parse_addr() {
    assert!(
        if let Ok(Addr::Inet(SocketAddr { ip: IpAddr::V4(f), port })) = parse("127.0.0.1:9000") {
            f.is_loopback() && port == 9000
        } else {
            false
        }
    );
    assert!(if let Ok(Addr::Inet(f)) = parse("localhost:9000") {
        f.port == 9000
    } else {
        println!("{:?}", parse("localhost:9000"));
        false
    });
    assert!(
        if let Ok(Addr::Inet(SocketAddr { ip: IpAddr::V6(f), port })) = parse("[::1]:9000") {
            f.is_loopback() && port == 9000
        } else {
            false
        }
    );
    assert!(if let Ok(Addr::Unix(f)) = parse("/path") {
        f == "/path"
    } else {
        false
    });
}

#[test]
fn display() {
    assert_eq!("127.0.0.1:1234", Addr::Inet(v4(127, 0, 0, 1, 1234)).to_text());
    assert_eq!("/tmp/bla", Addr::Unix(String::from("/tmp/bla")).to_text());
}

#[test]
fn local_paths_are_taken_verbatim() {
    for text in ["/", "/path", "./", "./sock", "/a b/\u{e9}", "//", "/tmp/../x", "./[::1]:80"] {
        assert_eq!(Addr::from_literal(text), Some(Addr::Unix(String::from(text))));
        assert_eq!(Addr::from_literal(text).unwrap().to_text(), text);
    }
}

#[test]
fn other_texts_are_left_to_resolution() {
    for text in ["", ".", "..", "../sock", "sock", "localhost:80", "a/b", " /path", ".x/", "unnamed"] {
        assert_eq!(Addr::from_literal(text), None);
    }
}

#[test]
fn numeric_literals_need_no_resolver() {
    let never = |_: &str| -> Result<Vec<SocketAddr>, ()> { panic!("resolver called") };
    assert_eq!(Addr::parse_with("10.1.2.3:80", never).unwrap(), Addr::Inet(v4(10, 1, 2, 3, 80)));
    assert_eq!(
        Addr::parse_with("[2001:db8::7]:443", never).unwrap(),
        Addr::Inet(v6([0x2001, 0xdb8, 0, 0, 0, 0, 0, 7], 443))
    );
    assert_eq!(Addr::parse_with("/run/x.sock", never).unwrap(), Addr::Unix(String::from("/run/x.sock")));
}

#[test]
fn resolver_gets_the_text_as_it_is() {
    let mut seen = String::new();
    let r = Addr::parse_with("example.test:8080", |t: &str| -> Result<Vec<SocketAddr>, ()> {
        seen.push_str(t);
        Ok(vec![v4(192, 0, 2, 1, 8080)])
    });
    assert_eq!(r.unwrap(), Addr::Inet(v4(192, 0, 2, 1, 8080)));
    assert_eq!(seen, "example.test:8080");
}

#[test]
fn first_candidate_wins() {
    let found = vec![v6([0, 0, 0, 0, 0, 0, 0, 1], 9000), v4(127, 0, 0, 1, 9000), v4(10, 0, 0, 1, 9000)];
    let r: Result<Addr, AddrError<()>> = Addr::from_resolved(Ok(found));
    assert_eq!(r.unwrap(), Addr::Inet(v6([0, 0, 0, 0, 0, 0, 0, 1], 9000)));
    let one: Result<Addr, AddrError<()>> = Addr::from_resolved(Ok(vec![v4(1, 2, 3, 4, 5)]));
    assert_eq!(one.unwrap(), Addr::Inet(v4(1, 2, 3, 4, 5)));
}

#[test]
fn no_candidate_is_not_available() {
    let r: Result<Addr, AddrError<u8>> = Addr::from_resolved(Ok(Vec::new()));
    assert!(matches!(r, Err(AddrError::NotAvailable)));
    let p = Addr::parse_with("nowhere.test:1", |_: &str| -> Result<Vec<SocketAddr>, u8> { Ok(Vec::new()) });
    assert!(matches!(p, Err(AddrError::NotAvailable)));
}

#[test]
fn resolver_error_is_passed_on() {
    let r: Result<Addr, AddrError<&str>> = Addr::from_resolved(Err("invalid port value"));
    assert!(matches!(r, Err(AddrError::Resolver("invalid port value"))));
    let p = Addr::parse_with("host:port", |_: &str| -> Result<Vec<SocketAddr>, u32> { Err(22) });
    assert!(matches!(p, Err(AddrError::Resolver(22))));
}

#[test]
fn malformed_port_is_a_resolver_error() {
    assert!(matches!(parse("127.0.0.1:65536"), Err(AddrError::Resolver(_))));
    assert!(matches!(parse("127.0.0.1"), Err(AddrError::Resolver(_))));
}

#[test]
fn unnamed_socket_gets_the_placeholder() {
    assert_eq!(Addr::from_pathname(None), Addr::Unix(String::from("unnamed")));
    assert_eq!(Addr::from_pathname(Some(String::from("/tmp/peer"))), Addr::Unix(String::from("/tmp/peer")));
    assert_eq!(Addr::from_pathname(Some(String::new())), Addr::Unix(String::new()));
    assert_eq!(Addr::from_pathname(None).to_text(), "unnamed");
}

#[test]
fn conversions_keep_the_value() {
    assert_eq!(Addr::from(v4(1, 2, 3, 4, 5)), Addr::Inet(v4(1, 2, 3, 4, 5)));
    assert_eq!(Addr::from(String::from("rel/path")), Addr::Unix(String::from("rel/path")));
    let a: Addr = v6([1, 2, 3, 4, 5, 6, 7, 8], 9).into();
    assert_eq!(a.to_text(), "[1:2:3:4:5:6:7:8]:9");
}

#[test]
fn equal_addresses_hash_alike() {
    let a = parse("127.0.0.1:9000").unwrap();
    let b = Addr::Inet(v4(127, 0, 0, 1, 9000));
    assert_eq!(a, b);
    assert_eq!(hash_of(&a), hash_of(&b));
    let p = Addr::from_literal("/tmp/s").unwrap();
    let q = Addr::from(String::from("/tmp/s"));
    assert_eq!(p, q);
    assert_eq!(hash_of(&p), hash_of(&q));
    let c = a.clone();
    assert_eq!(c, a);
    assert_eq!(hash_of(&c), hash_of(&a));
}

#[test]
fn unequal_addresses_differ() {
    assert_ne!(Addr::Inet(v4(127, 0, 0, 1, 9000)), Addr::Inet(v4(127, 0, 0, 1, 9001)));
    assert_ne!(Addr::Inet(v4(127, 0, 0, 1, 9000)), Addr::Inet(v4(127, 0, 0, 2, 9000)));
    assert_ne!(
        Addr::Inet(v4(0, 0, 0, 1, 80)),
        Addr::Inet(v6([0, 0, 0, 0, 0, 0, 0, 1], 80))
    );
    assert_ne!(
        Addr::Inet(v6([0, 0, 0, 0, 0, 0, 0, 1], 80)),
        Addr::Inet(v6([0, 0, 0, 0, 0, 0, 1, 0], 80))
    );
    assert_ne!(Addr::Unix(String::from("/a")), Addr::Unix(String::from("/b")));
}

#[test]
fn inet_never_equals_unix() {
    let inet = Addr::Inet(v4(127, 0, 0, 1, 80));
    let unix = Addr::Unix(inet.to_text());
    assert_eq!(inet.to_text(), unix.to_text());
    assert_ne!(inet, unix);
    assert_ne!(unix, inet);
}

#[test]
fn text_of_an_endpoint_reads_back() {
    for a in [
        v4(0, 0, 0, 0, 0),
        v4(255, 255, 255, 255, 65535),
        v4(192, 168, 1, 20, 8080),
        v6([0; 8], 0),
        v6([0, 0, 0, 0, 0, 0xffff, 0xc0a8, 0x0114], 22),
        v6([0xfe80, 0, 0, 0, 0x1234, 0, 0, 1], 65535),
    ] {
        let text = Addr::Inet(a).to_text();
        assert_eq!(Addr::from_literal(&text), Some(Addr::Inet(a)));
        assert_eq!(Addr::from_literal(&text).unwrap().to_text(), text);
    }
}

#[test]
fn text_is_brought_to_canonical_form() {
    for (text, canonical) in [
        ("127.0.0.1:0080", "127.0.0.1:80"),
        ("[0:0:0:0:0:0:0:1]:9000", "[::1]:9000"),
        ("[2001:0DB8:0000:0000:0000:0000:0000:0001]:443", "[2001:db8::1]:443"),
        ("[::FFFF:10.0.0.1]:1", "[::ffff:10.0.0.1]:1"),
        ("[1::0:2]:5", "[1::2]:5"),
    ] {
        let a = Addr::from_literal(text).unwrap();
        assert_eq!(a.to_text(), canonical);
        assert_eq!(Addr::from_literal(canonical), Some(a));
    }
}

#[test]
fn listener_removes_its_named_path_only() {
    let named: Result<Option<&str>, ()> = Ok(Some("/tmp/l.sock"));
    assert_eq!(path_to_remove(named), Some("/tmp/l.sock"));
    let unnamed: Result<Option<&str>, ()> = Ok(None);
    assert_eq!(path_to_remove(unnamed), None);
    let failed: Result<Option<&str>, u8> = Err(9);
    assert_eq!(path_to_remove(failed), None);
}
