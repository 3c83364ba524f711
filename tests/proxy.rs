use rustproxy::{
    json_entries, outcome_tag, plan_request, resolve, sniff, text_entries, tunnel_reply_bytes,
    Action, AddressError, AddressTable, Connection, Event, Outcome, ProxyMode, Side,
    TUNNEL_REPLY,
};

fn table_of(pairs: &[(&str, &str)]) -> AddressTable {
    let mut t = AddressTable::new();
    for (k, v) in pairs {
        t.insert(k.as_bytes(), v.as_bytes());
    }
    t
}

fn run_request(target: &str, data: &[u8], table: &AddressTable) -> (Connection, Action) {
    let mut c = Connection::new(target.as_bytes());
    let a = c.step(Event::Opened, table);
    assert!(matches!(a, Action::ReadRequest));
    let a = c.step(Event::Received(data.to_vec()), table);
    (c, a)
}

#[test]
fn connect_with_exact_override() {
    let t = table_of(&[("a.com:80", "10.0.0.1:8080")]);
    let (mut c, a) = run_request("proxy", b"CONNECT a.com:80 HTTP/1.1\r\n\r\n", &t);
    match a {
        Action::Dial(d) => assert_eq!(d, b"10.0.0.1:8080".to_vec()),
        _ => panic!("expected a dial"),
    }
    match c.step(Event::Dialed, &t) {
        Action::Relay { to_client, to_upstream } => {
            assert_eq!(to_client, TUNNEL_REPLY.as_bytes().to_vec());
            assert!(to_upstream.is_empty());
        }
        _ => panic!("expected a relay"),
    }
}

#[test]
fn connect_with_host_override_keeps_port() {
    let t = table_of(&[("b.com", "10.0.0.2")]);
    let p = plan_request(b"CONNECT b.com:443 HTTP/1.1\r\n\r\n", &t).unwrap();
    assert_eq!(p.destination, b"10.0.0.2:443".to_vec());
    assert_eq!(p.reply, TUNNEL_REPLY.as_bytes().to_vec());
}

#[test]
fn get_is_rewritten_without_reply() {
    let t = AddressTable::new();
    let data = b"GET http://c.com/foo?x=1 HTTP/1.1\r\nHost: c.com\r\n\r\n";
    let (mut c, a) = run_request("proxy", data, &t);
    match a {
        Action::Dial(d) => assert_eq!(d, b"c.com:80".to_vec()),
        _ => panic!("expected a dial"),
    }
    match c.step(Event::Dialed, &t) {
        Action::Relay { to_client, to_upstream } => {
            assert!(to_client.is_empty());
            assert_eq!(to_upstream, b"GET /foo?x=1 HTTP/1.1\r\nHost: c.com\r\n\r\n".to_vec());
        }
        _ => panic!("expected a relay"),
    }
}

#[test]
fn unknown_method_closes_without_dial() {
    let t = AddressTable::new();
    let (_, a) = run_request("proxy", b"FOO bar HTTP/1.1\r\n\r\n", &t);
    match a {
        Action::Close(o) => assert_eq!(o, Outcome::TargetUnreachable(AddressError::UnknownCommand)),
        _ => panic!("expected a close"),
    }
}

#[test]
fn failed_upstream_handshake_closes_without_reply() {
    let t = AddressTable::new();
    let (mut c, a) = run_request("proxy", b"CONNECT d.com:443 HTTP/1.1\r\n\r\n", &t);
    assert!(matches!(a, Action::Dial(_)));
    match c.step(Event::DialFailed(AddressError::CommError), &t) {
        Action::Close(o) => assert_eq!(o, Outcome::TargetUnreachable(AddressError::CommError)),
        _ => panic!("expected a close"),
    }
    assert!(matches!(c.step(Event::Dialed, &t), Action::Wait));
}

#[test]
fn later_source_wins() {
    let first = text_entries(b"x.com=1.1.1.1\ny.com = 2.2.2.2\r\n");
    let second = json_entries(r#"[["3.3.3.3", "x.com"]]"#);
    let t = AddressTable::build(&vec![first, second]);
    assert_eq!(t.get(b"x.com"), Some(b"3.3.3.3".to_vec()));
    assert_eq!(t.get(b"y.com"), Some(b"2.2.2.2".to_vec()));
}

#[test]
fn text_source_skips_malformed_lines() {
    let es = text_entries(b"no separator\n a = b = c \n\nk=v");
    assert_eq!(
        es,
        vec![(b"a".to_vec(), b"b".to_vec()), (b"k".to_vec(), b"v".to_vec())]
    );
}

#[test]
fn json_source_swaps_pairs_and_skips_short_ones() {
    let es = json_entries(r#"[[" 10.0.0.9 ", "h.com"], ["only"], ["1.2.3.4", "i.com", "x"]]"#);
    assert_eq!(
        es,
        vec![
            (b"h.com".to_vec(), b"10.0.0.9".to_vec()),
            (b"i.com".to_vec(), b"1.2.3.4".to_vec())
        ]
    );
}

#[test]
fn json_source_that_is_not_a_list_gives_nothing() {
    assert!(json_entries("{\"a\": 1}").is_empty());
    assert!(json_entries("not json").is_empty());
}

#[test]
fn default_port_is_80() {
    let s = sniff(b"CONNECT plain.com HTTP/1.1\r\n\r\n").unwrap();
    assert_eq!(s.destination, b"plain.com:80".to_vec());
    let t = table_of(&[("plain.com:80", "10.0.0.3:81")]);
    let p = plan_request(b"GET http://plain.com/ HTTP/1.1\r\n\r\n", &t).unwrap();
    assert_eq!(p.destination, b"10.0.0.3:81".to_vec());
}

#[test]
fn resolving_unmapped_twice_changes_nothing() {
    let t = table_of(&[("other.com", "10.0.0.4")]);
    let once = resolve(b"free.com:8443", &t);
    let twice = resolve(&once, &t);
    assert_eq!(once, b"free.com:8443".to_vec());
    assert_eq!(twice, once);
}

#[test]
fn resolve_splits_at_last_colon() {
    let t = table_of(&[("[::1]", "localhost")]);
    assert_eq!(resolve(b"[::1]:22", &t), b"localhost:22".to_vec());
}

#[test]
fn sniff_errors() {
    assert_eq!(sniff(b"").err(), Some(AddressError::ConnectClosed));
    assert_eq!(sniff(b"CONNECT a.com:80 HTTP/1.1").err(), Some(AddressError::EmptyCommand));
    assert_eq!(sniff(b"CONNECT a.com:80\r\n").err(), Some(AddressError::UnknownFormat));
    assert_eq!(sniff(b"GET /path HTTP/1.1\r\n").err(), Some(AddressError::UnknownFormat));
    assert_eq!(sniff(b"GET http://nopath HTTP/1.1\r\n").err(), Some(AddressError::UnknownFormat));
    assert_eq!(sniff(b"PUT http://a/ HTTP/1.1\r\n").err(), Some(AddressError::UnknownCommand));
}

#[test]
fn sniff_is_case_insensitive_and_keeps_leftover() {
    let s = sniff(b"connect e.com:443 HTTP/1.1\r\nX: y\r\n\r\n").unwrap();
    assert_eq!(s.mode, ProxyMode::Tunnel);
    assert_eq!(s.destination, b"e.com:443".to_vec());
    assert_eq!(s.leftover, b"X: y\r\n\r\n".to_vec());
    assert!(s.request.is_empty());
    let g = sniff(b"get http://f.com:8080/a/b HTTP/1.0\r\n").unwrap();
    assert_eq!(g.mode, ProxyMode::Rewrite);
    assert_eq!(g.destination, b"f.com:8080".to_vec());
    assert_eq!(g.request, b"GET /a/b HTTP/1.0\r\n".to_vec());
}

#[test]
fn fixed_target_is_dialed_without_sniffing() {
    let t = table_of(&[("g.com:1", "h.com:2")]);
    let mut c = Connection::new(b"g.com:1");
    match c.step(Event::Opened, &t) {
        Action::Dial(d) => assert_eq!(d, b"g.com:1".to_vec()),
        _ => panic!("expected a dial"),
    }
    match c.step(Event::Dialed, &t) {
        Action::Relay { to_client, to_upstream } => {
            assert!(to_client.is_empty());
            assert!(to_upstream.is_empty());
        }
        _ => panic!("expected a relay"),
    }
}

#[test]
fn relay_outcome_follows_first_side() {
    let t = AddressTable::new();
    let (mut c, _) = run_request("PROXY", b"CONNECT a.com:80 HTTP/1.1\r\n\r\n", &t);
    c.step(Event::Dialed, &t);
    match c.step(Event::Finished(Side::Upstream), &t) {
        Action::Close(o) => {
            assert_eq!(o, Outcome::ServerClosed);
            assert_eq!(outcome_tag(o), "server closed");
        }
        _ => panic!("expected a close"),
    }
    assert_eq!(outcome_tag(Outcome::ClientClosed), "client closed");
    assert_eq!(
        outcome_tag(Outcome::TargetUnreachable(AddressError::IoError)),
        "target unreachable"
    );
}

#[test]
fn table_ignores_non_utf8_entries() {
    let mut t = AddressTable::new();
    t.insert(&[0xff, 0xfe], b"x");
    assert_eq!(t.get(&[0xff, 0xfe]), None);
    t.insert("é.com".as_bytes(), "ü.net".as_bytes());
    assert_eq!(t.get("é.com".as_bytes()), Some("ü.net".as_bytes().to_vec()));
}

#[test]
fn tunnel_reply_is_the_banner() {
    assert_eq!(
        tunnel_reply_bytes(),
        b"HTTP/1.1 200 Connection established\r\nHost: Rust Proxy\r\nConnection: keep-alive\r\nContent-Length: 0\r\n\r\n".to_vec()
    );
}

#[test]
fn error_messages() {
    assert_eq!(AddressError::ConnectClosed.message(), "connect closed.");
    assert_eq!(AddressError::EmptyCommand.message(), "empty command.");
    assert_eq!(AddressError::UnknownCommand.message(), "unknown command.");
    assert_eq!(AddressError::UnknownFormat.message(), "unknown format.");
    assert_eq!(AddressError::CommError.message(), "connect proxy socks error.");
    assert_eq!(AddressError::IoError.message(), "io error.");
}
