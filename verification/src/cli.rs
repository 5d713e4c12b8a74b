//! The command-line surface as plain data: the options record, the
//! protocol-specification grammar (`HTTP[:level]`, `HTTPS`, `SOCKS4`,
//! `SOCKS5`, `CONNECT:<port>`), and the pacing of the output. Argument
//! parsing and printing happen outside the library.

use vstd::prelude::*;

use crate::addr::port_ok;
use crate::models::{Anonymity, Protocol};
use crate::text::{digits_val, find_byte, find_byte_in, push_u64, spec_render_nat};

verus! {

/// The command-line options, as plain values.
#[derive(Debug, Clone)]
pub struct Cli {
    /// ISO country codes to keep; empty keeps all.
    pub countries: Vec<String>,
    /// Most concurrent probes; at least one.
    pub max_connections: u64,
    /// Per-request timeout in seconds; at least one.
    pub timeout: u64,
    /// Logging verbosity name.
    pub log_level: String,
    /// Output shape: `default`, `text` or `json`.
    pub format: String,
    /// Most proxies to emit; zero means no cap.
    pub limit: usize,
    /// Where to write; standard output when absent.
    pub output_file: Option<String>,
    /// Protocol specifications to validate; empty skips validation.
    pub types: Vec<String>,
    /// Read candidates from this file instead of crawling.
    pub file: Option<String>,
    /// How many judges one probe may try.
    pub max_attempts: usize,
}

impl Default for Cli {
    /// The command line's defaults.
    fn default() -> (r: Cli)
        ensures
            r.countries@.len() == 0,
            r.max_connections == 500,
            r.timeout == 3,
            r.log_level@ == "off"@,
            r.format@ == "default"@,
            r.limit == 0,
            r.output_file is None,
            r.types@.len() == 0,
            r.file is None,
            r.max_attempts == 1,
    {
        Cli {
            countries: Vec::new(),
            max_connections: 500,
            timeout: 3,
            log_level: String::from_str("off"),
            format: String::from_str("default"),
            limit: 0,
            output_file: None,
            types: Vec::new(),
            file: None,
            max_attempts: 1,
        }
    }
}

/// The anonymity level named by a specification argument; anything not
/// in the table reads as `Unknown`.
pub open spec fn spec_anonymity_arg(arg: Seq<u8>) -> Anonymity {
    if arg == Anonymity::Transparent.spec_label() {
        Anonymity::Transparent
    } else if arg == Anonymity::Anonymous.spec_label() {
        Anonymity::Anonymous
    } else if arg == Anonymity::Elite.spec_label() {
        Anonymity::Elite
    } else {
        Anonymity::Unknown
    }
}

/// The `CONNECT` token.
pub open spec fn spec_connect_token() -> Seq<u8> {
    seq![67u8, 79u8, 78u8, 78u8, 69u8, 67u8, 84u8]
}

/// Parses one protocol specification. The first colon-separated segment
/// names the protocol; `HTTP` takes an optional anonymity argument,
/// `CONNECT` demands a port; segments past the argument are ignored.
pub open spec fn spec_parse_protocol_spec(s: Seq<u8>) -> Option<Protocol> {
    let head = match find_byte(s, 58) {
        Some(i) => s.subrange(0, i),
        None => s,
    };
    let arg: Option<Seq<u8>> = match find_byte(s, 58) {
        Some(i) => {
            let tail = s.subrange(i + 1, s.len() as int);
            match find_byte(tail, 58) {
                Some(j) => Some(tail.subrange(0, j)),
                None => Some(tail),
            }
        },
        None => None,
    };
    if head == Protocol::Https.spec_display().subrange(0, 4) {
        // HTTP
        Some(
            Protocol::Http(
                match arg {
                    Some(a) => spec_anonymity_arg(a),
                    None => Anonymity::Unknown,
                },
            ),
        )
    } else if head == Protocol::Https.spec_display() {
        Some(Protocol::Https)
    } else if head == Protocol::Socks4.spec_display() {
        Some(Protocol::Socks4)
    } else if head == Protocol::Socks5.spec_display() {
        Some(Protocol::Socks5)
    } else if head == spec_connect_token() {
        match arg {
            Some(a) => {
                if port_ok(a) {
                    Some(Protocol::Connect(digits_val(a) as u16))
                } else {
                    None
                }
            },
            None => None,
        }
    } else {
        None
    }
}

/// Whether the range `[start, end)` of `s` equals `token`.
fn range_eq(s: &[u8], start: usize, end: usize, token: &[u8]) -> (r: bool)
    requires
        0 <= start <= end <= s@.len(),
    ensures
        r == (s@.subrange(start as int, end as int) == token@),
{
    if end - start != token.len() {
        proof {
            assert(s@.subrange(start as int, end as int).len() != token@.len());
        }
        return false;
    }
    let ghost part = s@.subrange(start as int, end as int);
    let mut i: usize = 0;
    while i < token.len()
        invariant
            0 <= i <= token@.len(),
            start + token@.len() == end <= s@.len(),
            part == s@.subrange(start as int, end as int),
            forall|j: int| 0 <= j < i ==> s@[start + j] == token@[j],
        decreases token@.len() - i,
    {
        if s[start + i] != token[i] {
            proof {
                assert(part[i as int] == s@[start + i]);
                assert(part != token@) by {
                    if part == token@ {
                        assert(part[i as int] == token@[i as int]);
                    }
                }
            }
            return false;
        }
        i = i + 1;
    }
    proof {
        assert(part =~= token@);
    }
    true
}

/// Parses one protocol specification from its bytes.
pub fn parse_protocol_spec(s: &[u8]) -> (r: Option<Protocol>)
    ensures
        r == spec_parse_protocol_spec(s@),
{
    let len = s.len();
    proof {
        assert(s@.subrange(0, s@.len() as int) =~= s@);
    }
    let (head_end, arg): (usize, Option<(usize, usize)>) = match find_byte_in(s, 58, 0, len) {
        Some(i) => {
            proof {
                assert(s@.subrange(0, 0 + i as int) =~= s@.subrange(0, i as int));
                assert(s@.subrange(i + 1, s@.len() as int) =~= s@.subrange(i + 1, len as int));
            }
            let arg_end = match find_byte_in(s, 58, i + 1, len) {
                Some(j) => {
                    proof {
                        let tail = s@.subrange(i + 1, len as int);
                        assert(tail.subrange(0, j - i - 1) =~= s@.subrange(i + 1, j as int));
                    }
                    j
                },
                None => len,
            };
            (i, Some((i + 1, arg_end)))
        },
        None => (len, None),
    };
    let tok_http: Vec<u8> = vec![72u8, 84u8, 84u8, 80u8];
    let tok_https: Vec<u8> = vec![72u8, 84u8, 84u8, 80u8, 83u8];
    let tok_socks4: Vec<u8> = vec![83u8, 79u8, 67u8, 75u8, 83u8, 52u8];
    let tok_socks5: Vec<u8> = vec![83u8, 79u8, 67u8, 75u8, 83u8, 53u8];
    let tok_connect: Vec<u8> = vec![67u8, 79u8, 78u8, 78u8, 69u8, 67u8, 84u8];
    proof {
        assert(tok_http@ =~= Protocol::Https.spec_display().subrange(0, 4));
        assert(tok_https@ =~= Protocol::Https.spec_display());
        assert(tok_socks4@ =~= Protocol::Socks4.spec_display());
        assert(tok_socks5@ =~= Protocol::Socks5.spec_display());
        assert(tok_connect@ =~= spec_connect_token());
    }
    if range_eq(s, 0, head_end, tok_http.as_slice()) {
        let anon = match arg {
            Some((a0, a1)) => anonymity_arg(s, a0, a1),
            None => Anonymity::Unknown,
        };
        Some(Protocol::Http(anon))
    } else if range_eq(s, 0, head_end, tok_https.as_slice()) {
        Some(Protocol::Https)
    } else if range_eq(s, 0, head_end, tok_socks4.as_slice()) {
        Some(Protocol::Socks4)
    } else if range_eq(s, 0, head_end, tok_socks5.as_slice()) {
        Some(Protocol::Socks5)
    } else if range_eq(s, 0, head_end, tok_connect.as_slice()) {
        match arg {
            Some((a0, a1)) => {
                match crate::addr::parse_port(s, a0, a1) {
                    Some(p) => Some(Protocol::Connect(p)),
                    None => None,
                }
            },
            None => None,
        }
    } else {
        None
    }
}

/// Reads the anonymity argument in the range `[start, end)` of `s`.
fn anonymity_arg(s: &[u8], start: usize, end: usize) -> (r: Anonymity)
    requires
        0 <= start <= end <= s@.len(),
    ensures
        r == spec_anonymity_arg(s@.subrange(start as int, end as int)),
{
    let tok_transparent: Vec<u8> = vec![
        84u8,
        114u8,
        97u8,
        110u8,
        115u8,
        112u8,
        97u8,
        114u8,
        101u8,
        110u8,
        116u8,
    ];
    let tok_anonymous: Vec<u8> = vec![65u8, 110u8, 111u8, 110u8, 121u8, 109u8, 111u8, 117u8, 115u8];
    let tok_elite: Vec<u8> = vec![69u8, 108u8, 105u8, 116u8, 101u8];
    proof {
        assert(tok_transparent@ =~= Anonymity::Transparent.spec_label());
        assert(tok_anonymous@ =~= Anonymity::Anonymous.spec_label());
        assert(tok_elite@ =~= Anonymity::Elite.spec_label());
    }
    if range_eq(s, start, end, tok_transparent.as_slice()) {
        Anonymity::Transparent
    } else if range_eq(s, start, end, tok_anonymous.as_slice()) {
        Anonymity::Anonymous
    } else if range_eq(s, start, end, tok_elite.as_slice()) {
        Anonymity::Elite
    } else {
        Anonymity::Unknown
    }
}

/// The canonical text of a protocol specification.
pub open spec fn spec_render_protocol_spec(p: Protocol) -> Seq<u8> {
    match p {
        Protocol::Http(Anonymity::Unknown) => Protocol::Https.spec_display().subrange(0, 4),
        Protocol::Http(a) => Protocol::Https.spec_display().subrange(0, 4) + seq![58u8]
            + a.spec_label(),
        Protocol::Https => Protocol::Https.spec_display(),
        Protocol::Socks4 => Protocol::Socks4.spec_display(),
        Protocol::Socks5 => Protocol::Socks5.spec_display(),
        Protocol::Connect(port) => spec_connect_token() + seq![58u8] + spec_render_nat(
            port as nat,
        ),
    }
}

/// Renders a protocol back into specification text.
pub fn render_protocol_spec(p: &Protocol) -> (r: Vec<u8>)
    ensures
        r@ == spec_render_protocol_spec(*p),
{
    let mut out: Vec<u8> = Vec::new();
    match p {
        Protocol::Http(a) => {
            let mut tok: Vec<u8> = vec![72u8, 84u8, 84u8, 80u8];
            out.append(&mut tok);
            match a {
                Anonymity::Unknown => {},
                _ => {
                    out.push(58);
                    a.push_label(&mut out);
                },
            }
        },
        Protocol::Https => {
            let mut tok: Vec<u8> = vec![72u8, 84u8, 84u8, 80u8, 83u8];
            out.append(&mut tok);
        },
        Protocol::Socks4 => {
            let mut tok: Vec<u8> = vec![83u8, 79u8, 67u8, 75u8, 83u8, 52u8];
            out.append(&mut tok);
        },
        Protocol::Socks5 => {
            let mut tok: Vec<u8> = vec![83u8, 79u8, 67u8, 75u8, 83u8, 53u8];
            out.append(&mut tok);
        },
        Protocol::Connect(port) => {
            let mut tok: Vec<u8> = vec![67u8, 79u8, 78u8, 78u8, 69u8, 67u8, 84u8, 58u8];
            out.append(&mut tok);
            push_u64(&mut out, *port as u64);
        },
    }
    proof {
        assert(out@ =~= spec_render_protocol_spec(*p));
    }
    out
}

/// Output pacing: with a positive cap, the stream ends at the entry that
/// fills it; a cap of zero never ends it.
pub fn output_should_end(limit: usize, index: usize) -> (r: bool)
    ensures
        r == (limit > 0 && index + 1 >= limit),
{
    limit > 0 && index >= limit - 1
}

/// The protocols named by a list of specification strings, each read
/// from its UTF-8 bytes: specifications are taken in order, and reading
/// stops at the first invalid one.
pub open spec fn spec_convert_protocols(ts: Seq<Seq<u8>>) -> Seq<Protocol>
    decreases ts.len(),
{
    if ts.len() == 0 {
        Seq::empty()
    } else {
        match spec_parse_protocol_spec(ts[0]) {
            Some(p) => seq![p] + spec_convert_protocols(ts.drop_first()),
            None => Seq::empty(),
        }
    }
}

/// Converts the specification strings of the command line into
/// protocols.
pub fn convert_protocols(types: &Vec<String>) -> (r: Vec<Protocol>)
    ensures
        r@ == spec_convert_protocols(
            types@.map_values(|s: String| vstd::utf8::encode_utf8(s@)),
        ),
{
    let ghost vs = types@.map_values(|s: String| vstd::utf8::encode_utf8(s@));
    let mut out: Vec<Protocol> = Vec::new();
    let mut i: usize = 0;
    proof {
        assert(vs.skip(0) =~= vs);
    }
    while i < types.len()
        invariant
            0 <= i <= types@.len(),
            vs == types@.map_values(|s: String| vstd::utf8::encode_utf8(s@)),
            spec_convert_protocols(vs) =~= out@ + spec_convert_protocols(vs.skip(i as int)),
        decreases types@.len() - i,
    {
        let bytes = types[i].as_str().as_bytes_vec();
        proof {
            assert(bytes@ == vs[i as int]);
            assert(vs.skip(i as int)[0] == vs[i as int]);
            assert(vs.skip(i as int).drop_first() =~= vs.skip(i + 1));
        }
        match parse_protocol_spec(bytes.as_slice()) {
            Some(p) => {
                out.push(p);
                proof {
                    assert(spec_convert_protocols(vs.skip(i as int)) =~= seq![p]
                        + spec_convert_protocols(vs.skip(i + 1)));
                    assert(spec_convert_protocols(vs) =~= out@ + spec_convert_protocols(
                        vs.skip(i + 1),
                    ));
                }
            },
            None => {
                proof {
                    assert(spec_convert_protocols(vs.skip(i as int)) =~= Seq::<Protocol>::empty());
                    assert(out@ =~= spec_convert_protocols(vs));
                }
                return out;
            },
        }
        i = i + 1;
    }
    proof {
        assert(vs.skip(types@.len() as int) =~= Seq::<Seq<u8>>::empty());
        assert(out@ =~= spec_convert_protocols(vs));
    }
    out
}

/// Specification parsing inverts rendering: the canonical text of any
/// protocol reads back as that protocol.
pub proof fn lemma_protocol_spec_round_trip(p: Protocol)
    ensures
        spec_parse_protocol_spec(spec_render_protocol_spec(p)) == Some(p),
{
    let s = spec_render_protocol_spec(p);
    match p {
        Protocol::Http(a) => {
            lemma_label_bytes(a);
            match a {
                Anonymity::Unknown => {
                    crate::text::lemma_find_byte(s, 58);
                },
                _ => {
                    let head = Protocol::Https.spec_display().subrange(0, 4);
                    crate::text::lemma_find_byte_is(s, 58, 4);
                    assert(s.subrange(0, 4) =~= head);
                    let tail = s.subrange(5, s.len() as int);
                    assert(tail =~= a.spec_label());
                    crate::text::lemma_find_byte(tail, 58);
                    assert(spec_anonymity_arg(tail) == a);
                },
            }
        },
        Protocol::Https => {
            crate::text::lemma_find_byte(s, 58);
            assert(s != Protocol::Https.spec_display().subrange(0, 4));
        },
        Protocol::Socks4 => {
            crate::text::lemma_find_byte(s, 58);
        },
        Protocol::Socks5 => {
            crate::text::lemma_find_byte(s, 58);
        },
        Protocol::Connect(port) => {
            let pr = spec_render_nat(port as nat);
            crate::text::lemma_render_nat_digits(port as nat);
            crate::text::lemma_pow10_vals();
            crate::text::lemma_render_nat_len(port as nat, 100000, 5);
            crate::text::lemma_find_byte_is(s, 58, 7);
            assert(s.subrange(0, 7) =~= spec_connect_token());
            let tail = s.subrange(8, s.len() as int);
            assert(tail =~= pr);
            crate::text::lemma_find_byte(tail, 58);
            if find_byte(tail, 58) is Some {
                let k = find_byte(tail, 58)->Some_0;
                assert(crate::text::is_digit(tail[k]));
            }
            assert(port_ok(pr));
        },
    }
}

/// No anonymity label holds a colon, and each reads back as its level.
proof fn lemma_label_bytes(a: Anonymity)
    ensures
        forall|j: int| 0 <= j < a.spec_label().len() ==> (#[trigger] a.spec_label()[j]) != 58,
        spec_anonymity_arg(a.spec_label()) == a || a == Anonymity::Unknown,
{
}

} // verus!
