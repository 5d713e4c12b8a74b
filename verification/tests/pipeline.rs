use fluxy::addr::Ipv4;
use fluxy::errors::NegotiationError;
use fluxy::fetcher::{endpoint_key, Config as FetcherConfig, FetcherState};
use fluxy::geo::GeoData;
use fluxy::judge::{classify_body, http_judges, judge_ring};
use fluxy::json::decode_json;
use fluxy::models::{Anonymity, Protocol};
use fluxy::negotiators::{HttpNegotiator, HttpsNegotiator, Socks4Negotiator, Socks5Negotiator};
use fluxy::providers::{
    scrape_text, FreeProxyListProvider, GithubRepoProvider, ProxyscrapeProvider, Source,
};
use fluxy::proxy::{Proxy, ProxyType};
use fluxy::validator::apply_probe_outcome;

fn proxy_at(a: u8, b: u8, c: u8, d: u8, port: u16) -> Proxy {
    let mut p = Proxy::default();
    p.ip = Ipv4 { a, b, c, d };
    p.port = port;
    p
}

#[test]
fn socks4_happy_path() {
    let negotiator = Socks4Negotiator;
    let request = negotiator.request(&Ipv4 { a: 127, b: 0, c: 0, d: 1 }, 8080);
    assert_eq!(request, vec![0x04, 0x01, 0x1F, 0x90, 0x7F, 0x00, 0x00, 0x01, 0x00]);
    let reply = [0x00u8, 0x5A, 0, 0, 0, 0, 0, 0];
    assert!(negotiator.evaluate_reply(&reply).is_ok());
    assert!(!negotiator.with_tls());

    // A confirmed probe emits the proxy with the type marked checked.
    let p = proxy_at(127, 0, 0, 1, 8080);
    let emitted = apply_probe_outcome(p, Some(Protocol::Socks4), 7);
    let out = emitted.expect("confirmed probe must emit");
    assert_eq!(out.types.len(), 1);
    assert_eq!(out.types[0].protocol, Protocol::Socks4);
    assert!(out.types[0].checked);
    assert_eq!(out.types[0].checked_on, 7);
}

#[test]
fn socks4_reply_errors() {
    let negotiator = Socks4Negotiator;
    assert!(matches!(
        negotiator.evaluate_reply(&[1, 90, 0, 0, 0, 0, 0, 0]),
        Err(NegotiationError::InvalidResponseVersion)
    ));
    assert!(matches!(
        negotiator.evaluate_reply(&[0, 91, 0, 0, 0, 0, 0, 0]),
        Err(NegotiationError::RequestRejected)
    ));
    assert!(matches!(
        negotiator.evaluate_reply(&[0, 92, 0, 0, 0, 0, 0, 0]),
        Err(NegotiationError::IdentdUnreachable)
    ));
    assert!(matches!(
        negotiator.evaluate_reply(&[0, 93, 0, 0, 0, 0, 0, 0]),
        Err(NegotiationError::IdentdUserMismatch)
    ));
    assert!(matches!(
        negotiator.evaluate_reply(&[0, 94, 0, 0, 0, 0, 0, 0]),
        Err(NegotiationError::InvalidResponseCode(94))
    ));
    assert!(matches!(
        negotiator.evaluate_reply(&[0, 90, 0]),
        Err(NegotiationError::InvalidResponseData)
    ));
}

#[test]
fn socks5_handshake_packets() {
    let negotiator = Socks5Negotiator;
    assert_eq!(negotiator.greeting(), vec![0x05, 0x01, 0x00]);
    assert!(negotiator.evaluate_greeting_reply(&[0x05, 0x00]).is_ok());
    assert!(matches!(
        negotiator.evaluate_greeting_reply(&[0x05, 0xFF]),
        Err(NegotiationError::AuthRequired)
    ));
    assert!(matches!(
        negotiator.evaluate_greeting_reply(&[0x04, 0x00]),
        Err(NegotiationError::InvalidResponseVersion)
    ));
    assert!(matches!(
        negotiator.evaluate_greeting_reply(&[0x05, 0x02]),
        Err(NegotiationError::InvalidResponseData)
    ));
    let connect = negotiator.connect_request(&Ipv4 { a: 127, b: 0, c: 0, d: 1 }, 8080);
    assert_eq!(connect, vec![0x05, 0x01, 0x00, 0x01, 0x7F, 0x00, 0x00, 0x01, 0x1F, 0x90]);
    assert!(negotiator.evaluate_connect_reply(&[5, 0, 0, 1, 0, 0, 0, 0, 0, 0]).is_ok());
    assert!(matches!(
        negotiator.evaluate_connect_reply(&[5, 1, 0, 1, 0, 0, 0, 0, 0, 0]),
        Err(NegotiationError::InvalidResponseData)
    ));
    assert!(!negotiator.with_tls());
    assert!(!HttpNegotiator.with_tls());
}

#[test]
fn connect_request_text() {
    let negotiator = HttpsNegotiator;
    assert_eq!(
        negotiator.generate_connect_request("example.com"),
        "CONNECT example.com:443 HTTP/1.1\r\nHost: example.com\r\nConnection: keep-alive\r\n\r\n"
    );
    assert!(negotiator.with_tls());
}

#[test]
fn https_tunnel_rejection() {
    let negotiator = HttpsNegotiator;
    let reply = b"HTTP/1.1 407 Proxy Authentication Required\r\n\r\n";
    match negotiator.evaluate_connect_response(reply) {
        Err(NegotiationError::TunnelRejected(code, reason)) => {
            assert_eq!(code, 407);
            assert_eq!(reason, "Proxy Authentication Required");
        },
        other => panic!("expected a tunnel rejection, got {:?}", other),
    }
}

#[test]
fn https_tunnel_established() {
    let negotiator = HttpsNegotiator;
    assert!(negotiator.evaluate_connect_response(b"HTTP/1.1 200 OK\r\n\r\n").is_ok());
    assert!(matches!(
        negotiator.evaluate_connect_response(b"garbage"),
        Err(NegotiationError::InvalidResponseData)
    ));
}

#[test]
fn anonymity_elite() {
    // The judge body echoes our agent and the proxy's own address only.
    let body = b"User-Agent: test-agent\nREMOTE_ADDR: 198.51.100.9\n";
    let verdict = classify_body(body, b"test-agent", b"203.0.113.7", b"198.51.100.9");
    // The proxy's own address counts as a mark, so this is Anonymous...
    assert_eq!(verdict, Some(Anonymity::Anonymous));
    // ...and with no marks at all the proxy is Elite.
    let clean = b"User-Agent: test-agent\nnothing else here\n";
    let elite = classify_body(clean, b"test-agent", b"203.0.113.7", b"198.51.100.9");
    assert_eq!(elite, Some(Anonymity::Elite));
}

#[test]
fn anonymity_transparent() {
    let body = b"User-Agent: test-agent\nX-Forwarded-For: 203.0.113.7\n";
    let verdict = classify_body(body, b"test-agent", b"203.0.113.7", b"198.51.100.9");
    assert_eq!(verdict, Some(Anonymity::Transparent));
}

#[test]
fn anonymity_header_leak_is_anonymous() {
    let body = b"User-Agent: test-agent\nVia: 1.1 cache\n";
    let verdict = classify_body(body, b"test-agent", b"203.0.113.7", b"198.51.100.9");
    assert_eq!(verdict, Some(Anonymity::Anonymous));
}

#[test]
fn judge_must_echo_agent() {
    let body = b"some unrelated page";
    assert_eq!(classify_body(body, b"test-agent", b"203.0.113.7", b"198.51.100.9"), None);
}

#[test]
fn judge_ring_tries_each_probe_exactly_once() {
    let judges = http_judges();
    assert_eq!(judges.len(), 10);
    assert_eq!(judges[0], "http://azenv.net/");
    let one = judge_ring(1);
    assert_eq!(one.len(), 1);
    assert_eq!(one[0], judges[0]);
    let twelve = judge_ring(12);
    assert_eq!(twelve.len(), 12);
    assert_eq!(twelve[10], judges[0]);
    assert_eq!(twelve[11], judges[1]);
    assert_eq!(judge_ring(0).len(), 0);
}

#[test]
fn failed_probe_discards_the_proxy() {
    let p = proxy_at(127, 0, 0, 1, 1080);
    assert!(apply_probe_outcome(p, None, 7).is_none());
}

#[test]
fn deduplication_is_exact() {
    let mut state = FetcherState::new(FetcherConfig::default());
    let first = proxy_at(198, 51, 100, 2, 8080);
    let second = proxy_at(198, 51, 100, 2, 8080);
    assert!(state.accept(&first));
    assert!(!state.accept(&second));
    let other_port = proxy_at(198, 51, 100, 2, 8081);
    assert!(state.accept(&other_port));

    let mut lax = FetcherConfig::default();
    lax.enforce_unique_ip = false;
    let mut state2 = FetcherState::new(lax);
    assert!(state2.accept(&proxy_at(198, 51, 100, 2, 8080)));
    assert!(state2.accept(&proxy_at(198, 51, 100, 2, 8080)));
}

#[test]
fn country_filter_admits_only_listed_codes() {
    let mut cfg = FetcherConfig::default();
    cfg.countries = vec!["DE".to_string()];
    let mut state = FetcherState::new(cfg);
    let mut us = proxy_at(198, 51, 100, 5, 80);
    us.geo = GeoData { iso_code: Some("US".to_string()), ..GeoData::empty() };
    let mut de = proxy_at(198, 51, 100, 6, 80);
    de.geo = GeoData { iso_code: Some("DE".to_string()), ..GeoData::empty() };
    let mut nowhere = proxy_at(198, 51, 100, 7, 80);
    nowhere.geo = GeoData::empty();
    assert!(!state.accept(&us));
    assert!(state.accept(&de));
    assert!(!state.accept(&nowhere));
}

#[test]
fn endpoint_keys_separate_endpoints() {
    let k1 = endpoint_key(&Ipv4 { a: 1, b: 2, c: 3, d: 4 }, 80);
    let k2 = endpoint_key(&Ipv4 { a: 1, b: 2, c: 3, d: 4 }, 81);
    let k3 = endpoint_key(&Ipv4 { a: 1, b: 2, c: 3, d: 5 }, 80);
    assert_ne!(k1, k2);
    assert_ne!(k1, k3);
}

#[test]
fn scraping_reads_trimmed_lines() {
    let body = b"1.2.3.4:80\r\n  5.6.7.8:1080  \nnot a proxy\n9.9.9.9:99999\n";
    let protocols = vec![Protocol::Socks4, Protocol::Socks5];
    let out = scrape_text(body, &protocols);
    assert_eq!(out.len(), 2);
    assert_eq!(out[0].ip, Ipv4 { a: 1, b: 2, c: 3, d: 4 });
    assert_eq!(out[0].port, 80);
    assert_eq!(out[1].ip, Ipv4 { a: 5, b: 6, c: 7, d: 8 });
    assert_eq!(out[1].port, 1080);
    assert_eq!(out[0].expected_types, protocols);
    assert_eq!(out[0].types.len(), 2);
    assert!(!out[0].types[0].checked);
    assert_eq!(out[0].types[0].protocol, Protocol::Socks4);
}

#[test]
fn sources_carry_their_protocols() {
    let http = Source::http("https://example.test/list");
    assert_eq!(http.url, "https://example.test/list");
    assert_eq!(http.timeout_ms, 3000);
    assert_eq!(
        http.default_types,
        vec![
            Protocol::Http(Anonymity::Unknown),
            Protocol::Https,
            Protocol::Connect(80),
            Protocol::Connect(25),
        ]
    );
    let socks = Source::socks("https://example.test/socks");
    assert_eq!(socks.default_types, vec![Protocol::Socks4, Protocol::Socks5]);
    let all = Source::all("https://example.test/all");
    assert_eq!(all.default_types.len(), 6);
}

#[test]
fn providers_list_their_sources() {
    assert_eq!(FreeProxyListProvider.sources().len(), 5);
    assert_eq!(ProxyscrapeProvider.sources().len(), 1);
    let github = GithubRepoProvider;
    assert_eq!(github.sources().len(), 21);
    assert_eq!(
        github.githubusercontent("zevtyardt/proxy-list/main/http.txt"),
        "https://raw.githubusercontent.com/zevtyardt/proxy-list/main/http.txt"
    );
    assert_eq!(github.sources()[0].url, github.githubusercontent("zevtyardt/proxy-list/main/http.txt"));
}

#[test]
fn json_encodes_the_published_fields() {
    let mut p = proxy_at(1, 2, 3, 4, 8080);
    p.geo = GeoData {
        iso_code: Some("US".to_string()),
        name: Some("United States".to_string()),
        region_iso_code: None,
        region_name: None,
        city_name: None,
    };
    p.runtimes = vec![2_000_000, 4_000_000];
    p.types = vec![ProxyType::checked(Protocol::Http(Anonymity::Elite), 1712345678123)];
    let text = p.as_json();
    let value: serde_json::Value = serde_json::from_str(&text).expect("emitted JSON must parse");
    assert_eq!(value["ip"], "1.2.3.4");
    assert_eq!(value["port"], 8080);
    assert_eq!(value["geo"]["iso_code"], "US");
    assert_eq!(value["geo"]["name"], "United States");
    assert!(value["geo"]["city_name"].is_null());
    assert_eq!(value["average_response_time"], 3.0);
    assert_eq!(value["types"][0]["protocol"]["Http"], "Elite");
    assert_eq!(value["types"][0]["checked"], true);
    assert_eq!(value["types"][0]["checked_on"], 1712345678.123);
}

#[test]
fn json_round_trips() {
    let mut p = proxy_at(198, 51, 100, 2, 65535);
    p.geo = GeoData {
        iso_code: Some("DE".to_string()),
        name: Some("with \"quotes\" and \\slashes\\".to_string()),
        region_iso_code: Some("BY".to_string()),
        region_name: None,
        city_name: Some("control\u{1}byte".to_string()),
    };
    p.runtimes = vec![1, 2, 4];
    p.types = vec![
        ProxyType::new(Protocol::Https),
        ProxyType::checked(Protocol::Socks5, 99),
        ProxyType::checked(Protocol::Connect(25), 1000),
        ProxyType::new(Protocol::Http(Anonymity::Transparent)),
    ];
    let bytes = p.as_json_bytes();
    let decoded = decode_json(&bytes).expect("own encoding must decode");
    assert_eq!(decoded.ip, p.ip);
    assert_eq!(decoded.port, p.port);
    assert_eq!(decoded.geo.iso_code.as_deref(), Some(b"DE".as_slice()));
    assert_eq!(
        decoded.geo.name.as_deref(),
        Some("with \"quotes\" and \\slashes\\".as_bytes())
    );
    assert_eq!(decoded.geo.region_iso_code.as_deref(), Some(b"BY".as_slice()));
    assert_eq!(decoded.geo.region_name, None);
    assert_eq!(decoded.geo.city_name.as_deref(), Some("control\u{1}byte".as_bytes()));
    assert_eq!(decoded.average_response_time, 2);
    assert_eq!(decoded.types.len(), 4);
    assert_eq!(decoded.types[0].protocol, Protocol::Https);
    assert!(!decoded.types[0].checked);
    assert_eq!(decoded.types[1].protocol, Protocol::Socks5);
    assert!(decoded.types[1].checked);
    assert_eq!(decoded.types[1].checked_on, 99);
    assert_eq!(decoded.types[2].protocol, Protocol::Connect(25));
    assert_eq!(decoded.types[2].checked_on, 1000);
    assert_eq!(decoded.types[3].protocol, Protocol::Http(Anonymity::Transparent));
}

#[test]
fn json_decode_rejects_foreign_shapes() {
    assert!(decode_json(b"{}").is_none());
    assert!(decode_json(b"").is_none());
    assert!(decode_json(b"[1,2,3]").is_none());
}
