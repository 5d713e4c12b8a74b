use fluxy::addr::{parse_endpoint, render_endpoint, Ipv4};
use fluxy::cli::{convert_protocols, output_should_end, parse_protocol_spec, render_protocol_spec, Cli};
use fluxy::errors::ConfigError;
use fluxy::geo::{extract_geo, CityRecord, GeoData, NamedPlace};
use fluxy::models::{Anonymity, Protocol};
use fluxy::proxy::{Proxy, ProxyType};
use fluxy::text::contains_bytes;
use fluxy::validator::{check_config, probe_plan, Config as ValidatorConfig};

fn sample_ip() -> Ipv4 {
    Ipv4 { a: 1, b: 2, c: 3, d: 4 }
}

#[test]
fn endpoint_renders_as_text() {
    let bytes = render_endpoint(&sample_ip(), 8080);
    assert_eq!(bytes, b"1.2.3.4:8080".to_vec());
}

#[test]
fn endpoint_parses_back() {
    let parsed = parse_endpoint(b"1.2.3.4:8080");
    assert_eq!(parsed, Some((sample_ip(), 8080)));
}

#[test]
fn endpoint_round_trip_samples() {
    let cases = [
        (Ipv4 { a: 0, b: 0, c: 0, d: 0 }, 0u16),
        (Ipv4 { a: 255, b: 255, c: 255, d: 255 }, 65535u16),
        (Ipv4 { a: 198, b: 51, c: 100, d: 2 }, 8080u16),
    ];
    for (ip, port) in cases {
        let bytes = render_endpoint(&ip, port);
        assert_eq!(parse_endpoint(&bytes), Some((ip, port)));
    }
}

#[test]
fn endpoint_ignores_trailing_annotation() {
    assert_eq!(parse_endpoint(b"1.2.3.4:80:junk"), Some((sample_ip(), 80)));
}

#[test]
fn endpoint_rejects_malformed() {
    assert_eq!(parse_endpoint(b""), None);
    assert_eq!(parse_endpoint(b"1.2.3.4"), None);
    assert_eq!(parse_endpoint(b"1.2.3:80"), None);
    assert_eq!(parse_endpoint(b"1.2.3.456:80"), None);
    assert_eq!(parse_endpoint(b"1.2.3.4:99999"), None);
    assert_eq!(parse_endpoint(b"a.b.c.d:80"), None);
}

#[test]
fn proxy_as_text() {
    let mut p = Proxy::default();
    p.ip = sample_ip();
    p.port = 80;
    assert_eq!(p.as_text(), "1.2.3.4:80");
}

#[test]
fn average_is_exact() {
    let mut p = Proxy::default();
    p.runtimes = vec![2, 4];
    assert_eq!(p.avg_response_time(), 3);
    let empty = Proxy::default();
    assert_eq!(empty.avg_response_time(), 0);
}

#[test]
fn runtimes_extend_in_order() {
    let mut p = Proxy::default();
    p.runtimes = vec![1, 2];
    p.extend_runtimes(&vec![3, 4]);
    assert_eq!(p.runtimes, vec![1, 2, 3, 4]);
}

#[test]
fn display_shows_iso_and_checked_types() {
    let mut p = Proxy::default();
    p.ip = sample_ip();
    p.port = 80;
    p.geo = GeoData { iso_code: Some("US".to_string()), ..GeoData::empty() };
    p.types = vec![
        ProxyType::checked(Protocol::Https, 0),
        ProxyType::new(Protocol::Socks4),
        ProxyType::checked(Protocol::Http(Anonymity::Elite), 0),
    ];
    assert_eq!(p.display_string(), "<Proxy US 0.00s [HTTPS, HTTP: Elite] 1.2.3.4:80>");
}

#[test]
fn display_without_geo_shows_dashes() {
    let mut p = Proxy::default();
    p.ip = sample_ip();
    p.port = 80;
    p.runtimes = vec![1_250_000];
    assert_eq!(p.display_string(), "<Proxy -- 1.25s [] 1.2.3.4:80>");
}

#[test]
fn protocol_spec_parses() {
    assert_eq!(parse_protocol_spec(b"HTTP"), Some(Protocol::Http(Anonymity::Unknown)));
    assert_eq!(parse_protocol_spec(b"HTTP:Elite"), Some(Protocol::Http(Anonymity::Elite)));
    assert_eq!(
        parse_protocol_spec(b"HTTP:Transparent"),
        Some(Protocol::Http(Anonymity::Transparent))
    );
    assert_eq!(parse_protocol_spec(b"HTTP:Anonymous"), Some(Protocol::Http(Anonymity::Anonymous)));
    assert_eq!(parse_protocol_spec(b"HTTP:bogus"), Some(Protocol::Http(Anonymity::Unknown)));
    assert_eq!(parse_protocol_spec(b"HTTPS"), Some(Protocol::Https));
    assert_eq!(parse_protocol_spec(b"SOCKS4"), Some(Protocol::Socks4));
    assert_eq!(parse_protocol_spec(b"SOCKS5"), Some(Protocol::Socks5));
    assert_eq!(parse_protocol_spec(b"CONNECT:25"), Some(Protocol::Connect(25)));
    assert_eq!(parse_protocol_spec(b"CONNECT"), None);
    assert_eq!(parse_protocol_spec(b"CONNECT:x"), None);
    assert_eq!(parse_protocol_spec(b"FTP"), None);
}

#[test]
fn protocol_spec_round_trips() {
    let protocols = [
        Protocol::Http(Anonymity::Unknown),
        Protocol::Http(Anonymity::Elite),
        Protocol::Http(Anonymity::Transparent),
        Protocol::Http(Anonymity::Anonymous),
        Protocol::Https,
        Protocol::Socks4,
        Protocol::Socks5,
        Protocol::Connect(25),
        Protocol::Connect(65535),
    ];
    for p in protocols {
        let rendered = render_protocol_spec(&p);
        assert_eq!(parse_protocol_spec(&rendered), Some(p));
    }
}

#[test]
fn convert_protocols_stops_at_invalid() {
    let specs = vec!["HTTP".to_string(), "JUNK".to_string(), "SOCKS4".to_string()];
    assert_eq!(convert_protocols(&specs), vec![Protocol::Http(Anonymity::Unknown)]);
    let all = vec!["HTTPS".to_string(), "SOCKS5".to_string()];
    assert_eq!(convert_protocols(&all), vec![Protocol::Https, Protocol::Socks5]);
    assert_eq!(convert_protocols(&vec![]), vec![]);
}

#[test]
fn limit_zero_never_ends_output() {
    for index in [0usize, 1, 10, 100000] {
        assert!(!output_should_end(0, index));
    }
    assert!(!output_should_end(3, 1));
    assert!(output_should_end(3, 2));
    assert!(output_should_end(1, 0));
}

#[test]
fn cli_defaults_match() {
    let cli = Cli::default();
    assert_eq!(cli.max_connections, 500);
    assert_eq!(cli.timeout, 3);
    assert_eq!(cli.log_level, "off");
    assert_eq!(cli.format, "default");
    assert_eq!(cli.limit, 0);
    assert_eq!(cli.max_attempts, 1);
    assert!(cli.countries.is_empty());
    assert!(cli.types.is_empty());
    assert!(cli.output_file.is_none());
    assert!(cli.file.is_none());
}

#[test]
fn empty_type_filter_is_fatal() {
    let cfg = ValidatorConfig::default();
    assert_eq!(check_config(&cfg), Err(ConfigError::EmptyTypeFilter));
    let mut ok = ValidatorConfig::default();
    ok.types = vec![Protocol::Https];
    assert_eq!(check_config(&ok), Ok(()));
}

#[test]
fn probe_plan_uses_family_matching() {
    let expected = vec![
        Protocol::Http(Anonymity::Unknown),
        Protocol::Https,
        Protocol::Socks4,
        Protocol::Connect(25),
    ];
    let filter = vec![Protocol::Http(Anonymity::Elite), Protocol::Connect(80)];
    assert_eq!(
        probe_plan(&expected, &filter),
        vec![Protocol::Http(Anonymity::Unknown), Protocol::Connect(25)]
    );
    let exact = vec![Protocol::Socks4];
    assert_eq!(probe_plan(&expected, &exact), vec![Protocol::Socks4]);
}

#[test]
fn geo_extraction_prefers_country() {
    let rec = CityRecord {
        country: Some(NamedPlace {
            code: Some("US".to_string()),
            name: Some("United States".to_string()),
        }),
        continent: Some(NamedPlace {
            code: Some("NA".to_string()),
            name: Some("North America".to_string()),
        }),
        subdivisions: vec![NamedPlace {
            code: Some("CA".to_string()),
            name: Some("California".to_string()),
        }],
        city_name: Some("Los Angeles".to_string()),
    };
    let geo = extract_geo(&rec);
    assert_eq!(geo.iso_code.as_deref(), Some("US"));
    assert_eq!(geo.name.as_deref(), Some("United States"));
    assert_eq!(geo.region_iso_code.as_deref(), Some("CA"));
    assert_eq!(geo.region_name.as_deref(), Some("California"));
    assert_eq!(geo.city_name.as_deref(), Some("Los Angeles"));
}

#[test]
fn geo_extraction_falls_back_to_continent() {
    let rec = CityRecord {
        country: None,
        continent: Some(NamedPlace { code: Some("EU".to_string()), name: Some("Europe".to_string()) }),
        subdivisions: vec![],
        city_name: None,
    };
    let geo = extract_geo(&rec);
    assert_eq!(geo.iso_code.as_deref(), Some("EU"));
    assert_eq!(geo.name.as_deref(), Some("Europe"));
    assert!(geo.region_iso_code.is_none());
    assert!(geo.city_name.is_none());
}

#[test]
fn byte_search_finds_substrings() {
    assert!(contains_bytes(b"hello world", b"o wor"));
    assert!(contains_bytes(b"hello", b""));
    assert!(!contains_bytes(b"hello", b"world"));
    assert!(!contains_bytes(b"ab", b"abc"));
}
