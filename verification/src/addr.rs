//! IPv4 endpoints: the `Ipv4` address type, the `<ip>:<port>` text form,
//! its parser, and the proof that parsing inverts rendering.

use vstd::prelude::*;

use crate::text::{
    all_digits, check_all_digits, digits_val, digits_value_u32, find_byte, find_byte_in,
    lemma_find_byte_is, lemma_pow10_vals, lemma_render_nat_digits, lemma_render_nat_len, push_u64,
    spec_render_nat,
};

verus! {

/// An IPv4 address, one field per octet.
#[derive(Debug, Clone, Copy, PartialEq, Eq, Hash, Structural)]
pub struct Ipv4 {
    pub a: u8,
    pub b: u8,
    pub c: u8,
    pub d: u8,
}

impl Ipv4 {
    /// The dotted-decimal text form of the address, as bytes.
    pub open spec fn spec_render(self) -> Seq<u8> {
        spec_render_nat(self.a as nat) + seq![46u8] + spec_render_nat(self.b as nat) + seq![46u8]
            + spec_render_nat(self.c as nat) + seq![46u8] + spec_render_nat(self.d as nat)
    }
}

/// The `<ip>:<port>` text form of an endpoint, as bytes.
pub open spec fn spec_render_endpoint(ip: Ipv4, port: u16) -> Seq<u8> {
    ip.spec_render() + seq![58u8] + spec_render_nat(port as nat)
}

/// Appends the dotted-decimal form of `ip` to `out`.
pub fn push_ipv4(out: &mut Vec<u8>, ip: &Ipv4)
    ensures
        final(out)@ == old(out)@ + ip.spec_render(),
{
    push_u64(out, ip.a as u64);
    out.push(46);
    push_u64(out, ip.b as u64);
    out.push(46);
    push_u64(out, ip.c as u64);
    out.push(46);
    push_u64(out, ip.d as u64);
    proof {
        assert(final(out)@ =~= old(out)@ + ip.spec_render());
    }
}

/// Renders an endpoint as `<ip>:<port>` bytes.
pub fn render_endpoint(ip: &Ipv4, port: u16) -> (r: Vec<u8>)
    ensures
        r@ == spec_render_endpoint(*ip, port),
{
    let mut out: Vec<u8> = Vec::new();
    push_ipv4(&mut out, ip);
    out.push(58);
    push_u64(&mut out, port as u64);
    proof {
        assert(out@ =~= spec_render_endpoint(*ip, port));
    }
    out
}

/// A valid decimal octet: one to three digits, value at most 255.
/// Leading zeros are tolerated, so scraped lists with padded octets
/// still parse.
pub open spec fn octet_ok(s: Seq<u8>) -> bool {
    1 <= s.len() <= 3 && all_digits(s) && digits_val(s) <= 255
}

/// A valid decimal port: one to five digits, value at most 65535.
pub open spec fn port_ok(s: Seq<u8>) -> bool {
    1 <= s.len() <= 5 && all_digits(s) && digits_val(s) <= 65535
}

/// Parses a dotted-decimal IPv4 address.
pub open spec fn spec_parse_ipv4(s: Seq<u8>) -> Option<Ipv4> {
    match find_byte(s, 46) {
        None => None,
        Some(i1) => {
            let s2 = s.subrange(i1 + 1, s.len() as int);
            match find_byte(s2, 46) {
                None => None,
                Some(i2) => {
                    let s3 = s2.subrange(i2 + 1, s2.len() as int);
                    match find_byte(s3, 46) {
                        None => None,
                        Some(i3) => {
                            let p1 = s.subrange(0, i1);
                            let p2 = s2.subrange(0, i2);
                            let p3 = s3.subrange(0, i3);
                            let p4 = s3.subrange(i3 + 1, s3.len() as int);
                            if octet_ok(p1) && octet_ok(p2) && octet_ok(p3) && octet_ok(p4) {
                                Some(
                                    Ipv4 {
                                        a: digits_val(p1) as u8,
                                        b: digits_val(p2) as u8,
                                        c: digits_val(p3) as u8,
                                        d: digits_val(p4) as u8,
                                    },
                                )
                            } else {
                                None
                            }
                        },
                    }
                },
            }
        },
    }
}

/// Parses an `<ip>:<port>` endpoint. Text after a second colon is
/// ignored, as when a scraped line carries a trailing annotation.
pub open spec fn spec_parse_endpoint(s: Seq<u8>) -> Option<(Ipv4, u16)> {
    match find_byte(s, 58) {
        None => None,
        Some(i) => {
            let ip_part = s.subrange(0, i);
            let rest = s.subrange(i + 1, s.len() as int);
            let port_part = match find_byte(rest, 58) {
                Some(j) => rest.subrange(0, j),
                None => rest,
            };
            match spec_parse_ipv4(ip_part) {
                None => None,
                Some(ip) => {
                    if port_ok(port_part) {
                        Some((ip, digits_val(port_part) as u16))
                    } else {
                        None
                    }
                },
            }
        },
    }
}

/// Reads one decimal octet from the range `[start, end)` of `s`.
fn parse_octet(s: &[u8], start: usize, end: usize) -> (r: Option<u8>)
    requires
        0 <= start <= end <= s@.len(),
    ensures
        octet_ok(s@.subrange(start as int, end as int)) ==> r == Some(
            digits_val(s@.subrange(start as int, end as int)) as u8,
        ),
        !octet_ok(s@.subrange(start as int, end as int)) ==> r is None,
{
    let ghost part = s@.subrange(start as int, end as int);
    if end - start < 1 || end - start > 3 {
        return None;
    }
    if !check_all_digits(s, start, end) {
        return None;
    }
    let v = digits_value_u32(s, start, end);
    if v > 255 {
        return None;
    }
    Some(v as u8)
}

/// Reads a decimal port from the range `[start, end)` of `s`.
pub fn parse_port(s: &[u8], start: usize, end: usize) -> (r: Option<u16>)
    requires
        0 <= start <= end <= s@.len(),
    ensures
        port_ok(s@.subrange(start as int, end as int)) ==> r == Some(
            digits_val(s@.subrange(start as int, end as int)) as u16,
        ),
        !port_ok(s@.subrange(start as int, end as int)) ==> r is None,
{
    if end - start < 1 || end - start > 5 {
        return None;
    }
    if !check_all_digits(s, start, end) {
        return None;
    }
    let v = digits_value_u32(s, start, end);
    if v > 65535 {
        return None;
    }
    Some(v as u16)
}

/// Parses a dotted-decimal IPv4 address from the range `[start, end)`.
fn parse_ipv4_in(s: &[u8], start: usize, end: usize) -> (r: Option<Ipv4>)
    requires
        0 <= start <= end <= s@.len(),
    ensures
        r == spec_parse_ipv4(s@.subrange(start as int, end as int)),
{
    let ghost whole = s@.subrange(start as int, end as int);
    let d1 = match find_byte_in(s, 46, start, end) {
        Some(i) => i,
        None => {
            return None;
        },
    };
    proof {
        assert(whole.subrange(d1 - start + 1, whole.len() as int) =~= s@.subrange(
            d1 + 1,
            end as int,
        ));
    }
    let ghost s2 = whole.subrange(d1 - start + 1, whole.len() as int);
    let d2 = match find_byte_in(s, 46, d1 + 1, end) {
        Some(i) => i,
        None => {
            return None;
        },
    };
    proof {
        assert(s2.subrange(d2 - d1, s2.len() as int) =~= s@.subrange(d2 + 1, end as int));
    }
    let ghost s3 = s2.subrange(d2 - d1, s2.len() as int);
    let d3 = match find_byte_in(s, 46, d2 + 1, end) {
        Some(i) => i,
        None => {
            return None;
        },
    };
    proof {
        assert(whole.subrange(0, d1 - start) =~= s@.subrange(start as int, d1 as int));
        assert(s2.subrange(0, d2 - d1 - 1) =~= s@.subrange(d1 + 1, d2 as int));
        assert(s3.subrange(0, d3 - d2 - 1) =~= s@.subrange(d2 + 1, d3 as int));
        assert(s3.subrange(d3 - d2, s3.len() as int) =~= s@.subrange(d3 + 1, end as int));
    }
    let oa = parse_octet(s, start, d1);
    let ob = parse_octet(s, d1 + 1, d2);
    let oc = parse_octet(s, d2 + 1, d3);
    let od = parse_octet(s, d3 + 1, end);
    match (oa, ob, oc, od) {
        (Some(a), Some(b), Some(c), Some(d)) => Some(Ipv4 { a, b, c, d }),
        _ => None,
    }
}

/// Parses a dotted-decimal IPv4 address from a byte string.
pub fn parse_ipv4(s: &[u8]) -> (r: Option<Ipv4>)
    ensures
        r == spec_parse_ipv4(s@),
{
    let len = s.len();
    proof {
        assert(s@.subrange(0, s@.len() as int) =~= s@);
    }
    parse_ipv4_in(s, 0, len)
}

/// Parses an `<ip>:<port>` endpoint from a byte string.
pub fn parse_endpoint(s: &[u8]) -> (r: Option<(Ipv4, u16)>)
    ensures
        r == spec_parse_endpoint(s@),
{
    let len = s.len();
    proof {
        assert(s@.subrange(0, s@.len() as int) =~= s@);
    }
    let colon = match find_byte_in(s, 58, 0, len) {
        Some(i) => i,
        None => {
            return None;
        },
    };
    proof {
        assert(s@.subrange(0, 0 + colon as int) =~= s@.subrange(0, colon as int));
        assert(s@.subrange(colon + 1, s@.len() as int) =~= s@.subrange(colon + 1, len as int));
    }
    let ghost rest = s@.subrange(colon + 1, s@.len() as int);
    let port_end = match find_byte_in(s, 58, colon + 1, len) {
        Some(j) => {
            proof {
                assert(rest.subrange(0, j - colon - 1) =~= s@.subrange(colon + 1, j as int));
            }
            j
        },
        None => len,
    };
    let ip = match parse_ipv4_in(s, 0, colon) {
        Some(ip) => ip,
        None => {
            return None;
        },
    };
    match parse_port(s, colon + 1, port_end) {
        Some(p) => Some((ip, p)),
        None => None,
    }
}

/// Parsing inverts rendering: the text form of an endpoint parses back
/// to the same address and port.
#[verifier::rlimit(100)]
#[verifier::spinoff_prover]
pub proof fn lemma_endpoint_round_trip(ip: Ipv4, port: u16)
    ensures
        spec_parse_endpoint(spec_render_endpoint(ip, port)) == Some((ip, port)),
{
    let s = spec_render_endpoint(ip, port);
    let ipr = ip.spec_render();
    let pr = spec_render_nat(port as nat);
    lemma_render_nat_digits(port as nat);
    lemma_pow10_vals();
    lemma_render_nat_len(port as nat, 100000, 5);

    // The first colon of the rendering stands right after the address.
    let ci = ipr.len() as int;
    assert(s[ci] == 58);
    assert forall|j: int| 0 <= j < ci implies s[j] != 58 by {
        lemma_ipv4_render_bytes(ip, j);
    }
    lemma_find_byte_is(s, 58, ci);

    let ip_part = s.subrange(0, ci);
    assert(ip_part =~= ipr);
    let rest = s.subrange(ci + 1, s.len() as int);
    assert(rest =~= pr);
    assert(find_byte(rest, 58) is None) by {
        crate::text::lemma_find_byte(rest, 58);
        if find_byte(rest, 58) is Some {
            let k = find_byte(rest, 58)->Some_0;
            assert(is_digit(rest[k]));
        }
    }
    assert(port_ok(pr));
    assert(digits_val(pr) == port as nat);
    lemma_ipv4_round_trip(ip);
}

/// Parsing inverts rendering for the address alone.
#[verifier::rlimit(100)]
#[verifier::spinoff_prover]
pub proof fn lemma_ipv4_round_trip(ip: Ipv4)
    ensures
        spec_parse_ipv4(ip.spec_render()) == Some(ip),
{
    let ipr = ip.spec_render();
    let ra = spec_render_nat(ip.a as nat);
    let rb = spec_render_nat(ip.b as nat);
    let rc = spec_render_nat(ip.c as nat);
    let rd = spec_render_nat(ip.d as nat);
    lemma_render_nat_digits(ip.a as nat);
    lemma_render_nat_digits(ip.b as nat);
    lemma_render_nat_digits(ip.c as nat);
    lemma_render_nat_digits(ip.d as nat);
    lemma_pow10_vals();
    lemma_render_nat_len(ip.a as nat, 1000, 3);
    lemma_render_nat_len(ip.b as nat, 1000, 3);
    lemma_render_nat_len(ip.c as nat, 1000, 3);
    lemma_render_nat_len(ip.d as nat, 1000, 3);

    // The dots of the address split it back into its four octets.
    let i1 = ra.len() as int;
    assert(ipr[i1] == 46);
    assert forall|j: int| 0 <= j < i1 implies ipr[j] != 46 by {
        assert(is_digit(ra[j]));
        assert(ipr[j] == ra[j]);
    }
    lemma_find_byte_is(ipr, 46, i1);
    let s2 = ipr.subrange(i1 + 1, ipr.len() as int);
    assert(s2 =~= rb + seq![46u8] + rc + seq![46u8] + rd);
    let i2 = rb.len() as int;
    assert(s2[i2] == 46);
    assert forall|j: int| 0 <= j < i2 implies s2[j] != 46 by {
        assert(is_digit(rb[j]));
        assert(s2[j] == rb[j]);
    }
    lemma_find_byte_is(s2, 46, i2);
    let s3 = s2.subrange(i2 + 1, s2.len() as int);
    assert(s3 =~= rc + seq![46u8] + rd);
    let i3 = rc.len() as int;
    assert(s3[i3] == 46);
    assert forall|j: int| 0 <= j < i3 implies s3[j] != 46 by {
        assert(is_digit(rc[j]));
        assert(s3[j] == rc[j]);
    }
    lemma_find_byte_is(s3, 46, i3);
    assert(ipr.subrange(0, i1) =~= ra);
    assert(s2.subrange(0, i2) =~= rb);
    assert(s3.subrange(0, i3) =~= rc);
    assert(s3.subrange(i3 + 1, s3.len() as int) =~= rd);
    assert(octet_ok(ra) && digits_val(ra) == ip.a as nat);
    assert(octet_ok(rb) && digits_val(rb) == ip.b as nat);
    assert(octet_ok(rc) && digits_val(rc) == ip.c as nat);
    assert(octet_ok(rd) && digits_val(rd) == ip.d as nat);
    assert(spec_parse_ipv4(ipr) == Some(ip));
}

use crate::text::is_digit;

/// Every byte of a rendered address is a digit or a dot.
pub proof fn lemma_ipv4_render_bytes(ip: Ipv4, j: int)
    requires
        0 <= j < ip.spec_render().len(),
    ensures
        is_digit(ip.spec_render()[j]) || ip.spec_render()[j] == 46,
{
    let ra = spec_render_nat(ip.a as nat);
    let rb = spec_render_nat(ip.b as nat);
    let rc = spec_render_nat(ip.c as nat);
    let rd = spec_render_nat(ip.d as nat);
    lemma_render_nat_digits(ip.a as nat);
    lemma_render_nat_digits(ip.b as nat);
    lemma_render_nat_digits(ip.c as nat);
    lemma_render_nat_digits(ip.d as nat);
    let l1 = ra.len() as int;
    let l2 = l1 + 1 + rb.len() as int;
    let l3 = l2 + 1 + rc.len() as int;
    let s = ip.spec_render();
    if j < l1 {
        assert(s[j] == ra[j]);
    } else if j == l1 {
        assert(s[j] == 46);
    } else if j < l2 {
        assert(s[j] == rb[j - l1 - 1]);
    } else if j == l2 {
        assert(s[j] == 46);
    } else if j < l3 {
        assert(s[j] == rc[j - l2 - 1]);
    } else if j == l3 {
        assert(s[j] == 46);
    } else {
        assert(s[j] == rd[j - l3 - 1]);
    }
}

} // verus!
