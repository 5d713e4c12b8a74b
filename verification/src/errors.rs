//! The error taxonomy of the pipeline. Configuration errors are fatal at
//! startup; per-proxy errors only cost the proxy its place in the output.

use vstd::prelude::*;

verus! {

/// A fatal configuration error, surfaced at startup.
#[derive(Debug, Clone, PartialEq, Eq, Structural)]
pub enum ConfigError {
    /// The validator was given no protocol filter at all.
    EmptyTypeFilter,
    /// A protocol specification string did not follow the grammar.
    InvalidProtocolSpec,
    /// The proxy input file could not be used.
    InvalidFilePath,
    /// The city database could not be obtained or opened.
    MmdbUnavailable,
    /// The public egress address could not be resolved.
    MyIpResolutionFailed,
}

/// Why crawling one source failed; such a source is skipped, the others
/// go on.
#[derive(Debug, Clone, PartialEq, Eq, Structural)]
pub enum SourceError {
    /// The source did not answer within its timeout.
    FetchTimeout,
    /// The source answered with this status instead of a listing.
    HttpError(u16),
    /// The listing could not be read at all.
    ParseError,
}

/// Why a protocol negotiation failed.
#[derive(Debug, Clone)]
pub enum NegotiationError {
    /// The CONNECT tunnel was refused; carries the status code and the
    /// reason phrase of the reply.
    TunnelRejected(u16, String),
    /// The reply did not carry the protocol version the handshake
    /// demands.
    InvalidResponseVersion,
    /// The SOCKS4 server rejected the request or failed.
    RequestRejected,
    /// The reply carried a status code outside the protocol's table.
    InvalidResponseCode(u8),
    /// The SOCKS server could not reach identd on the client.
    IdentdUnreachable,
    /// The client program and identd reported different user ids.
    IdentdUserMismatch,
    /// The SOCKS5 server insists on authentication, which is not
    /// supported.
    AuthRequired,
    /// The reply bytes were not what the handshake allows.
    InvalidResponseData,
    /// The target URI does not fit the negotiator (a CONNECT tunnel to a
    /// non-HTTPS target).
    ProtocolMismatch,
}

/// Why probing one proxy failed; such a proxy is dropped, the pipeline
/// goes on.
#[derive(Debug, Clone)]
pub enum ProxyError {
    ConnectTimeout,
    ConnectRefused,
    NegotiationFailed(NegotiationError),
    TlsHandshakeFailed,
    Http1HandshakeFailed,
    RequestFailed,
    Timeout,
}

} // verus!
