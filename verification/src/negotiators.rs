//! Per-protocol handshakes: the exact bytes each negotiator sends and
//! the evaluation of the bytes it reads back. The socket I/O around them
//! lives outside the library; a caller sends `request` bytes, reads the
//! fixed-size reply, and hands it to the matching `evaluate` function.

use vstd::prelude::*;

use crate::addr::Ipv4;
use crate::errors::NegotiationError;

verus! {

/// The pass-through negotiator for plain HTTP forwarding: no handshake
/// and no TLS.
#[derive(Debug, Clone, Copy)]
pub struct HttpNegotiator;

impl HttpNegotiator {
    /// Plain HTTP forwarding never wraps the stream in TLS.
    pub fn with_tls(&self) -> (r: bool)
        ensures
            r == false,
    {
        false
    }
}

/// The SOCKS4 negotiator.
#[derive(Debug, Clone, Copy)]
pub struct Socks4Negotiator;

impl Socks4Negotiator {
    /// The SOCKS4 connect request: version 4, command connect, the port
    /// big-endian, the four address octets, and an empty user id.
    pub open spec fn spec_request(ip: Ipv4, port: u16) -> Seq<u8> {
        seq![
            4u8,
            1u8,
            (port / 256) as u8,
            (port % 256) as u8,
            ip.a,
            ip.b,
            ip.c,
            ip.d,
            0u8,
        ]
    }

    /// Builds the connect request packet.
    pub fn request(&self, ip: &Ipv4, port: u16) -> (r: Vec<u8>)
        ensures
            r@ == Self::spec_request(*ip, port),
    {
        let r: Vec<u8> = vec![
            4u8,
            1u8,
            (port / 256) as u8,
            (port % 256) as u8,
            ip.a,
            ip.b,
            ip.c,
            ip.d,
            0u8,
        ];
        proof {
            assert(r@ =~= Self::spec_request(*ip, port));
        }
        r
    }

    /// What the 8-byte reply means: the first byte must be zero, and the
    /// second is the status code, `90` granting the request.
    pub open spec fn spec_eval_reply(r: Seq<u8>) -> Result<(), NegotiationError> {
        if r.len() != 8 {
            Err(NegotiationError::InvalidResponseData)
        } else if r[0] != 0 {
            Err(NegotiationError::InvalidResponseVersion)
        } else if r[1] == 90 {
            Ok(())
        } else if r[1] == 91 {
            Err(NegotiationError::RequestRejected)
        } else if r[1] == 92 {
            Err(NegotiationError::IdentdUnreachable)
        } else if r[1] == 93 {
            Err(NegotiationError::IdentdUserMismatch)
        } else {
            Err(NegotiationError::InvalidResponseCode(r[1]))
        }
    }

    /// Evaluates the reply read back from the proxy.
    pub fn evaluate_reply(&self, reply: &[u8]) -> (r: Result<(), NegotiationError>)
        ensures
            r == Self::spec_eval_reply(reply@),
    {
        if reply.len() != 8 {
            return Err(NegotiationError::InvalidResponseData);
        }
        if reply[0] != 0 {
            return Err(NegotiationError::InvalidResponseVersion);
        }
        let code = reply[1];
        if code == 90 {
            Ok(())
        } else if code == 91 {
            Err(NegotiationError::RequestRejected)
        } else if code == 92 {
            Err(NegotiationError::IdentdUnreachable)
        } else if code == 93 {
            Err(NegotiationError::IdentdUserMismatch)
        } else {
            Err(NegotiationError::InvalidResponseCode(code))
        }
    }

    /// SOCKS4 never wraps the stream in TLS.
    pub fn with_tls(&self) -> (r: bool)
        ensures
            r == false,
    {
        false
    }
}

/// The SOCKS5 negotiator (no authentication).
#[derive(Debug, Clone, Copy)]
pub struct Socks5Negotiator;

impl Socks5Negotiator {
    /// The greeting: version 5, one method offered, no authentication.
    pub open spec fn spec_greeting() -> Seq<u8> {
        seq![5u8, 1u8, 0u8]
    }

    /// Builds the greeting packet.
    pub fn greeting(&self) -> (r: Vec<u8>)
        ensures
            r@ == Self::spec_greeting(),
    {
        let r: Vec<u8> = vec![5u8, 1u8, 0u8];
        proof {
            assert(r@ =~= Self::spec_greeting());
        }
        r
    }

    /// What the 2-byte greeting reply means: version 5, then the chosen
    /// method, where `0xff` refuses every offered method.
    pub open spec fn spec_eval_greeting_reply(r: Seq<u8>) -> Result<(), NegotiationError> {
        if r.len() != 2 {
            Err(NegotiationError::InvalidResponseData)
        } else if r[0] != 5 {
            Err(NegotiationError::InvalidResponseVersion)
        } else if r[1] == 255 {
            Err(NegotiationError::AuthRequired)
        } else if r[1] != 0 {
            Err(NegotiationError::InvalidResponseData)
        } else {
            Ok(())
        }
    }

    /// Evaluates the greeting reply.
    pub fn evaluate_greeting_reply(&self, reply: &[u8]) -> (r: Result<(), NegotiationError>)
        ensures
            r == Self::spec_eval_greeting_reply(reply@),
    {
        if reply.len() != 2 {
            return Err(NegotiationError::InvalidResponseData);
        }
        if reply[0] != 5 {
            return Err(NegotiationError::InvalidResponseVersion);
        }
        if reply[1] == 255 {
            return Err(NegotiationError::AuthRequired);
        }
        if reply[1] != 0 {
            return Err(NegotiationError::InvalidResponseData);
        }
        Ok(())
    }

    /// The connect request: version 5, command connect, reserved zero,
    /// IPv4 address type, the four octets, and the port big-endian.
    pub open spec fn spec_connect_request(ip: Ipv4, port: u16) -> Seq<u8> {
        seq![
            5u8,
            1u8,
            0u8,
            1u8,
            ip.a,
            ip.b,
            ip.c,
            ip.d,
            (port / 256) as u8,
            (port % 256) as u8,
        ]
    }

    /// Builds the connect request packet.
    pub fn connect_request(&self, ip: &Ipv4, port: u16) -> (r: Vec<u8>)
        ensures
            r@ == Self::spec_connect_request(*ip, port),
    {
        let r: Vec<u8> = vec![
            5u8,
            1u8,
            0u8,
            1u8,
            ip.a,
            ip.b,
            ip.c,
            ip.d,
            (port / 256) as u8,
            (port % 256) as u8,
        ];
        proof {
            assert(r@ =~= Self::spec_connect_request(*ip, port));
        }
        r
    }

    /// What the 10-byte connect reply means: version 5 and status zero;
    /// the trailing bound address is ignored.
    pub open spec fn spec_eval_connect_reply(r: Seq<u8>) -> Result<(), NegotiationError> {
        if r.len() != 10 {
            Err(NegotiationError::InvalidResponseData)
        } else if r[0] != 5 {
            Err(NegotiationError::InvalidResponseVersion)
        } else if r[1] != 0 {
            Err(NegotiationError::InvalidResponseData)
        } else {
            Ok(())
        }
    }

    /// Evaluates the connect reply.
    pub fn evaluate_connect_reply(&self, reply: &[u8]) -> (r: Result<(), NegotiationError>)
        ensures
            r == Self::spec_eval_connect_reply(reply@),
    {
        if reply.len() != 10 {
            return Err(NegotiationError::InvalidResponseData);
        }
        if reply[0] != 5 {
            return Err(NegotiationError::InvalidResponseVersion);
        }
        if reply[1] != 0 {
            return Err(NegotiationError::InvalidResponseData);
        }
        Ok(())
    }

    /// SOCKS5 never wraps the stream in TLS.
    pub fn with_tls(&self) -> (r: bool)
        ensures
            r == false,
    {
        false
    }
}

/// The HTTPS tunnel negotiator: it sends a CONNECT request and expects a
/// status `200` reply, after which the caller starts TLS on the stream.
#[derive(Debug, Clone, Copy)]
pub struct HttpsNegotiator;

/// The CONNECT request for a target host.
pub open spec fn spec_connect_request_text(host: Seq<char>) -> Seq<char> {
    "CONNECT "@ + host + ":443 HTTP/1.1\r\nHost: "@ + host + "\r\nConnection: keep-alive\r\n\r\n"@
}

/// What `httparse` reads out of the head of an HTTP/1 response: the
/// status code and the reason phrase, or nothing when the bytes do not
/// parse. The result depends on the bytes alone.
pub uninterp spec fn http_response_head_of(buf: Seq<u8>) -> Option<(u16, Seq<char>)>;

/// Relies on `httparse::Response::parse`: it reads the status line of an
/// HTTP/1 response head and yields the numeric status code and the
/// reason phrase; a reply whose head is incomplete has code zero, as a
/// missing code reads.
#[verifier::external_body]
fn parse_response_head(buf: &[u8]) -> (r: Option<(u16, String)>)
    ensures
        match r {
            Some(p) => http_response_head_of(buf@) == Some((p.0, p.1@)),
            None => http_response_head_of(buf@) is None,
        },
{
    let mut headers = [httparse::EMPTY_HEADER; 32];
    let mut response = httparse::Response::new(&mut headers);
    match response.parse(buf) {
        Ok(_) => Some((
            response.code.unwrap_or_default(),
            response.reason.unwrap_or("").to_string(),
        )),
        Err(_) => None,
    }
}

impl HttpsNegotiator {
    /// The CONNECT request sent to the proxy for a target host.
    pub fn generate_connect_request(&self, host: &str) -> (r: String)
        ensures
            r@ == spec_connect_request_text(host@),
    {
        let mut out = String::new();
        out.append("CONNECT ");
        out.append(host);
        out.append(":443 HTTP/1.1\r\nHost: ");
        out.append(host);
        out.append("\r\nConnection: keep-alive\r\n\r\n");
        out
    }

    /// Evaluates the status the proxy answered the CONNECT request with:
    /// `200` establishes the tunnel, anything else rejects it.
    pub fn evaluate_status(&self, code: u16, reason: String) -> (r: Result<(), NegotiationError>)
        ensures
            code == 200 ==> r is Ok,
            code != 200 ==> (r matches Err(NegotiationError::TunnelRejected(c, s)) && c == code
                && s@ == reason@),
    {
        if code == 200 {
            Ok(())
        } else {
            Err(NegotiationError::TunnelRejected(code, reason))
        }
    }

    /// Evaluates the raw reply the proxy sent back to the CONNECT
    /// request: its head must parse and carry status `200`.
    pub fn evaluate_connect_response(&self, reply: &[u8]) -> (r: Result<(), NegotiationError>)
        ensures
            match http_response_head_of(reply@) {
                None => r matches Err(NegotiationError::InvalidResponseData),
                Some(head) => {
                    if head.0 == 200 {
                        r is Ok
                    } else {
                        r matches Err(NegotiationError::TunnelRejected(c, s)) && c == head.0
                            && s@ == head.1
                    }
                },
            },
    {
        match parse_response_head(reply) {
            None => Err(NegotiationError::InvalidResponseData),
            Some((code, reason)) => self.evaluate_status(code, reason),
        }
    }

    /// The HTTPS tunnel always continues under TLS.
    pub fn with_tls(&self) -> (r: bool)
        ensures
            r == true,
    {
        true
    }
}

} // verus!
