//! Entity types of the pipeline: anonymity levels, proxy protocols, the
//! family-match relation used when filtering protocols, and the display
//! text of a protocol.

use vstd::prelude::*;

use crate::text::spec_render_nat;
use crate::text::push_u64;

verus! {

/// The level of anonymity a proxy grants for plain-HTTP forwarding.
#[derive(Debug, Clone, Copy, PartialEq, Eq, Structural)]
pub enum Anonymity {
    /// No client IP address and no proxy headers are leaked.
    Elite,
    /// The client's original IP address is visible to the target.
    Transparent,
    /// Proxy headers (or the proxy's own IP) may be leaked, but the
    /// client's IP is hidden.
    Anonymous,
    /// Not yet classified.
    Unknown,
}

/// A protocol a proxy may speak.
#[derive(Debug, Clone, Copy, PartialEq, Eq, Structural)]
pub enum Protocol {
    Http(Anonymity),
    Https,
    Socks4,
    Socks5,
    Connect(u16),
}

impl Anonymity {
    /// The text of the anonymity level: `Elite`, `Transparent`,
    /// `Anonymous` or `Unknown`, as ASCII bytes.
    pub open spec fn spec_label(self) -> Seq<u8> {
        match self {
            Anonymity::Elite => seq![69u8, 108u8, 105u8, 116u8, 101u8],
            Anonymity::Transparent => seq![
                84u8,
                114u8,
                97u8,
                110u8,
                115u8,
                112u8,
                97u8,
                114u8,
                101u8,
                110u8,
                116u8,
            ],
            Anonymity::Anonymous => seq![65u8, 110u8, 111u8, 110u8, 121u8, 109u8, 111u8, 117u8, 115u8],
            Anonymity::Unknown => seq![85u8, 110u8, 107u8, 110u8, 111u8, 119u8, 110u8],
        }
    }

    /// Appends the label of the level to `out`.
    pub fn push_label(&self, out: &mut Vec<u8>)
        ensures
            final(out)@ == old(out)@ + self.spec_label(),
    {
        let label: Vec<u8> = match self {
            Anonymity::Elite => vec![69u8, 108u8, 105u8, 116u8, 101u8],
            Anonymity::Transparent => vec![
                84u8,
                114u8,
                97u8,
                110u8,
                115u8,
                112u8,
                97u8,
                114u8,
                101u8,
                110u8,
                116u8,
            ],
            Anonymity::Anonymous => vec![65u8, 110u8, 111u8, 110u8, 121u8, 109u8, 111u8, 117u8, 115u8],
            Anonymity::Unknown => vec![85u8, 110u8, 107u8, 110u8, 111u8, 119u8, 110u8],
        };
        let mut tmp = label;
        out.append(&mut tmp);
        proof {
            assert(final(out)@ =~= old(out)@ + self.spec_label());
        }
    }
}

impl Protocol {
    /// The display text of a protocol: `HTTP`, `HTTP: <level>`, `HTTPS`,
    /// `SOCKS4`, `SOCKS5` or `CONNECT:<port>`, as ASCII bytes.
    pub open spec fn spec_display(self) -> Seq<u8> {
        match self {
            Protocol::Http(Anonymity::Unknown) => seq![72u8, 84u8, 84u8, 80u8],
            Protocol::Http(a) => seq![72u8, 84u8, 84u8, 80u8, 58u8, 32u8] + a.spec_label(),
            Protocol::Https => seq![72u8, 84u8, 84u8, 80u8, 83u8],
            Protocol::Socks4 => seq![83u8, 79u8, 67u8, 75u8, 83u8, 52u8],
            Protocol::Socks5 => seq![83u8, 79u8, 67u8, 75u8, 83u8, 53u8],
            Protocol::Connect(p) => seq![67u8, 79u8, 78u8, 78u8, 69u8, 67u8, 84u8, 58u8]
                + spec_render_nat(p as nat),
        }
    }

    /// Appends the display text of the protocol to `out`.
    pub fn push_display(&self, out: &mut Vec<u8>)
        ensures
            final(out)@ == old(out)@ + self.spec_display(),
    {
        match self {
            Protocol::Http(a) => {
                let mut tmp: Vec<u8> = vec![72u8, 84u8, 84u8, 80u8];
                out.append(&mut tmp);
                match a {
                    Anonymity::Unknown => {},
                    _ => {
                        out.push(58);
                        out.push(32);
                        a.push_label(out);
                    },
                }
            },
            Protocol::Https => {
                let mut tmp: Vec<u8> = vec![72u8, 84u8, 84u8, 80u8, 83u8];
                out.append(&mut tmp);
            },
            Protocol::Socks4 => {
                let mut tmp: Vec<u8> = vec![83u8, 79u8, 67u8, 75u8, 83u8, 52u8];
                out.append(&mut tmp);
            },
            Protocol::Socks5 => {
                let mut tmp: Vec<u8> = vec![83u8, 79u8, 67u8, 75u8, 83u8, 53u8];
                out.append(&mut tmp);
            },
            Protocol::Connect(p) => {
                let mut tmp: Vec<u8> = vec![67u8, 79u8, 78u8, 78u8, 69u8, 67u8, 84u8, 58u8];
                out.append(&mut tmp);
                push_u64(out, *p as u64);
            },
        }
        proof {
            assert(final(out)@ =~= old(out)@ + self.spec_display());
        }
    }

    /// Family match, used when filtering protocols: all `Http(_)` variants
    /// are equal among themselves, and so are all `Connect(_)` variants;
    /// every other variant matches only itself.
    pub open spec fn spec_family_matches(self, other: Protocol) -> bool {
        match (self, other) {
            (Protocol::Http(_), Protocol::Http(_)) => true,
            (Protocol::Connect(_), Protocol::Connect(_)) => true,
            _ => self == other,
        }
    }

    /// Decides the family match of two protocols.
    pub fn family_matches(&self, other: &Protocol) -> (r: bool)
        ensures
            r == self.spec_family_matches(*other),
    {
        match (self, other) {
            (Protocol::Http(_), Protocol::Http(_)) => true,
            (Protocol::Connect(_), Protocol::Connect(_)) => true,
            _ => *self == *other,
        }
    }
}

} // verus!
