//! The JSON form of a proxy record, framed and read byte by byte: the
//! encoder, the matching decoder, and the proof that decoding an encoded
//! record recovers every published field. The record carries the scalar
//! average response time, not the raw samples.

use vstd::prelude::*;

use crate::addr::{spec_parse_ipv4, Ipv4, push_ipv4};
use crate::geo::GeoData;
use crate::models::{Anonymity, Protocol};
use crate::proxy::{spec_sum, Proxy, ProxyType};
use crate::text::{
    all_digits, digits_val, is_digit, push_u64, spec_render_nat,
};

verus! {

/// A hexadecimal digit, lower case.
pub open spec fn hex_digit(n: int) -> u8 {
    if n < 10 {
        (48 + n) as u8
    } else {
        (87 + n) as u8
    }
}

/// The value of a hexadecimal digit byte.
pub open spec fn hex_val(b: u8) -> Option<int> {
    if 48 <= b <= 57 {
        Some((b - 48) as int)
    } else if 97 <= b <= 102 {
        Some((b - 87) as int)
    } else {
        None
    }
}

/// How one byte stands inside a JSON string: quotes and backslashes are
/// escaped, control bytes take the `\u00XX` form, all else passes
/// through.
pub open spec fn esc_byte(b: u8) -> Seq<u8> {
    if b == 34 {
        seq![92u8, 34u8]
    } else if b == 92 {
        seq![92u8, 92u8]
    } else if b < 32 {
        seq![92u8, 117u8, 48u8, 48u8, hex_digit(b as int / 16), hex_digit(b as int % 16)]
    } else {
        seq![b]
    }
}

/// The escaped body of a JSON string.
pub open spec fn spec_escape(x: Seq<u8>) -> Seq<u8>
    decreases x.len(),
{
    if x.len() == 0 {
        Seq::empty()
    } else {
        esc_byte(x[0]) + spec_escape(x.drop_first())
    }
}

/// A JSON string: quoted, escaped content.
pub open spec fn spec_json_string(x: Seq<u8>) -> Seq<u8> {
    seq![34u8] + spec_escape(x) + seq![34u8]
}

/// A JSON string or `null`.
pub open spec fn spec_json_opt_string(x: Option<Seq<u8>>) -> Seq<u8> {
    match x {
        Some(v) => spec_json_string(v),
        None => seq![110u8, 117u8, 108u8, 108u8],  // null
    }
}

/// A number of `w` digits, zero-padded: the low `w` decimal digits of
/// `n`.
pub open spec fn spec_pad(n: nat, w: nat) -> Seq<u8>
    decreases w,
{
    if w == 0 {
        Seq::empty()
    } else {
        spec_pad(n / 10, (w - 1) as nat).push((48 + n % 10) as u8)
    }
}

/// A decimal of `units` and a `w`-digit fraction.
pub open spec fn spec_json_decimal(units: nat, frac: nat, w: nat) -> Seq<u8> {
    spec_render_nat(units) + seq![46u8] + spec_pad(frac, w)
}

/// The JSON form of a protocol: a bare variant name, or a one-key object
/// carrying the variant's argument.
pub open spec fn spec_json_protocol(p: Protocol) -> Seq<u8> {
    match p {
        Protocol::Http(a) => seq![123u8, 34u8, 72u8, 116u8, 116u8, 112u8, 34u8, 58u8, 34u8]
            + a.spec_label() + seq![34u8, 125u8],  // {"Http":"<level>"}
        Protocol::Https => seq![34u8, 72u8, 116u8, 116u8, 112u8, 115u8, 34u8],  // "Https"
        Protocol::Socks4 => seq![34u8, 83u8, 111u8, 99u8, 107u8, 115u8, 52u8, 34u8],  // "Socks4"
        Protocol::Socks5 => seq![34u8, 83u8, 111u8, 99u8, 107u8, 115u8, 53u8, 34u8],  // "Socks5"
        Protocol::Connect(port) => seq![
            123u8,
            34u8,
            67u8,
            111u8,
            110u8,
            110u8,
            101u8,
            99u8,
            116u8,
            34u8,
            58u8,
        ] + spec_render_nat(port as nat) + seq![125u8],  // {"Connect":N}
    }
}

/// The JSON form of one proxy type:
/// `{"protocol":P,"checked":B,"checked_on":S.mmm}`, the timestamp in
/// seconds with three decimals.
pub open spec fn spec_json_ptype(t: ProxyType) -> Seq<u8> {
    lit_protocol_key() + spec_json_protocol(t.protocol) + lit_checked_key() + (if t.checked {
        seq![116u8, 114u8, 117u8, 101u8]  // true
    } else {
        seq![102u8, 97u8, 108u8, 115u8, 101u8]  // false
    }) + lit_checked_on_key() + spec_json_decimal(
        t.checked_on as nat / 1000,
        t.checked_on as nat % 1000,
        3,
    ) + seq![125u8]
}

/// `{"protocol":`
#[verifier::opaque]
pub open spec fn lit_protocol_key() -> Seq<u8> {
    seq![
        123u8,
        34u8,
        112u8,
        114u8,
        111u8,
        116u8,
        111u8,
        99u8,
        111u8,
        108u8,
        34u8,
        58u8,
    ]
}

/// `,"checked":`
#[verifier::opaque]
pub open spec fn lit_checked_key() -> Seq<u8> {
    seq![44u8, 34u8, 99u8, 104u8, 101u8, 99u8, 107u8, 101u8, 100u8, 34u8, 58u8]
}

/// `,"checked_on":`
#[verifier::opaque]
pub open spec fn lit_checked_on_key() -> Seq<u8> {
    seq![
        44u8,
        34u8,
        99u8,
        104u8,
        101u8,
        99u8,
        107u8,
        101u8,
        100u8,
        95u8,
        111u8,
        110u8,
        34u8,
        58u8,
    ]
}

/// The items of the types array, comma-separated.
pub open spec fn spec_json_types_items(ts: Seq<ProxyType>) -> Seq<u8>
    decreases ts.len(),
{
    if ts.len() == 0 {
        Seq::empty()
    } else if ts.len() == 1 {
        spec_json_ptype(ts[0])
    } else {
        spec_json_ptype(ts[0]) + seq![44u8] + spec_json_types_items(ts.drop_first())
    }
}

/// The types array.
pub open spec fn spec_json_types(ts: Seq<ProxyType>) -> Seq<u8> {
    seq![91u8] + spec_json_types_items(ts) + seq![93u8]
}

/// The geo object, every field a string or `null`.
pub open spec fn spec_json_geo(g: GeoData) -> Seq<u8> {
    lit_geo_iso_key() + spec_json_opt_string(opt_str_bytes(g.iso_code)) + lit_geo_name_key()
        + spec_json_opt_string(opt_str_bytes(g.name)) + lit_geo_region_iso_key()
        + spec_json_opt_string(opt_str_bytes(g.region_iso_code)) + lit_geo_region_name_key()
        + spec_json_opt_string(opt_str_bytes(g.region_name)) + lit_geo_city_key()
        + spec_json_opt_string(opt_str_bytes(g.city_name)) + seq![125u8]
}

/// The UTF-8 bytes of an optional string.
pub open spec fn opt_str_bytes(s: Option<String>) -> Option<Seq<u8>> {
    match s {
        Some(v) => Some(vstd::utf8::encode_utf8(v@)),
        None => None,
    }
}

/// `{"iso_code":`
#[verifier::opaque]
pub open spec fn lit_geo_iso_key() -> Seq<u8> {
    seq![123u8, 34u8, 105u8, 115u8, 111u8, 95u8, 99u8, 111u8, 100u8, 101u8, 34u8, 58u8]
}

/// `,"name":`
#[verifier::opaque]
pub open spec fn lit_geo_name_key() -> Seq<u8> {
    seq![44u8, 34u8, 110u8, 97u8, 109u8, 101u8, 34u8, 58u8]
}

/// `,"region_iso_code":`
#[verifier::opaque]
pub open spec fn lit_geo_region_iso_key() -> Seq<u8> {
    seq![
        44u8,
        34u8,
        114u8,
        101u8,
        103u8,
        105u8,
        111u8,
        110u8,
        95u8,
        105u8,
        115u8,
        111u8,
        95u8,
        99u8,
        111u8,
        100u8,
        101u8,
        34u8,
        58u8,
    ]
}

/// `,"region_name":`
#[verifier::opaque]
pub open spec fn lit_geo_region_name_key() -> Seq<u8> {
    seq![
        44u8,
        34u8,
        114u8,
        101u8,
        103u8,
        105u8,
        111u8,
        110u8,
        95u8,
        110u8,
        97u8,
        109u8,
        101u8,
        34u8,
        58u8,
    ]
}

/// `,"city_name":`
#[verifier::opaque]
pub open spec fn lit_geo_city_key() -> Seq<u8> {
    seq![
        44u8,
        34u8,
        99u8,
        105u8,
        116u8,
        121u8,
        95u8,
        110u8,
        97u8,
        109u8,
        101u8,
        34u8,
        58u8,
    ]
}

/// `{"ip":`
#[verifier::opaque]
pub open spec fn lit_ip_key() -> Seq<u8> {
    seq![123u8, 34u8, 105u8, 112u8, 34u8, 58u8]
}

/// `,"port":`
#[verifier::opaque]
pub open spec fn lit_port_key() -> Seq<u8> {
    seq![44u8, 34u8, 112u8, 111u8, 114u8, 116u8, 34u8, 58u8]
}

/// `,"geo":`
#[verifier::opaque]
pub open spec fn lit_geo_key() -> Seq<u8> {
    seq![44u8, 34u8, 103u8, 101u8, 111u8, 34u8, 58u8]
}

/// `,"average_response_time":`
#[verifier::opaque]
pub open spec fn lit_avg_key() -> Seq<u8> {
    seq![
        44u8,
        34u8,
        97u8,
        118u8,
        101u8,
        114u8,
        97u8,
        103u8,
        101u8,
        95u8,
        114u8,
        101u8,
        115u8,
        112u8,
        111u8,
        110u8,
        115u8,
        101u8,
        95u8,
        116u8,
        105u8,
        109u8,
        101u8,
        34u8,
        58u8,
    ]
}

/// `,"types":`
#[verifier::opaque]
pub open spec fn lit_types_key() -> Seq<u8> {
    seq![44u8, 34u8, 116u8, 121u8, 112u8, 101u8, 115u8, 34u8, 58u8]
}


/// The key literals, revealed at once.
proof fn reveal_keys()
    ensures
        lit_protocol_key() == seq![
            123u8,
            34u8,
            112u8,
            114u8,
            111u8,
            116u8,
            111u8,
            99u8,
            111u8,
            108u8,
            34u8,
            58u8,
        ],
        lit_checked_key() == seq![44u8, 34u8, 99u8, 104u8, 101u8, 99u8, 107u8, 101u8, 100u8, 34u8, 58u8],
        lit_checked_on_key() == seq![
            44u8,
            34u8,
            99u8,
            104u8,
            101u8,
            99u8,
            107u8,
            101u8,
            100u8,
            95u8,
            111u8,
            110u8,
            34u8,
            58u8,
        ],
        lit_geo_iso_key() == seq![123u8, 34u8, 105u8, 115u8, 111u8, 95u8, 99u8, 111u8, 100u8, 101u8, 34u8, 58u8],
        lit_geo_name_key() == seq![44u8, 34u8, 110u8, 97u8, 109u8, 101u8, 34u8, 58u8],
        lit_geo_region_iso_key() == seq![
            44u8,
            34u8,
            114u8,
            101u8,
            103u8,
            105u8,
            111u8,
            110u8,
            95u8,
            105u8,
            115u8,
            111u8,
            95u8,
            99u8,
            111u8,
            100u8,
            101u8,
            34u8,
            58u8,
        ],
        lit_geo_region_name_key() == seq![
            44u8,
            34u8,
            114u8,
            101u8,
            103u8,
            105u8,
            111u8,
            110u8,
            95u8,
            110u8,
            97u8,
            109u8,
            101u8,
            34u8,
            58u8,
        ],
        lit_geo_city_key() == seq![
            44u8,
            34u8,
            99u8,
            105u8,
            116u8,
            121u8,
            95u8,
            110u8,
            97u8,
            109u8,
            101u8,
            34u8,
            58u8,
        ],
        lit_ip_key() == seq![123u8, 34u8, 105u8, 112u8, 34u8, 58u8],
        lit_port_key() == seq![44u8, 34u8, 112u8, 111u8, 114u8, 116u8, 34u8, 58u8],
        lit_geo_key() == seq![44u8, 34u8, 103u8, 101u8, 111u8, 34u8, 58u8],
        lit_avg_key() == seq![
            44u8,
            34u8,
            97u8,
            118u8,
            101u8,
            114u8,
            97u8,
            103u8,
            101u8,
            95u8,
            114u8,
            101u8,
            115u8,
            112u8,
            111u8,
            110u8,
            115u8,
            101u8,
            95u8,
            116u8,
            105u8,
            109u8,
            101u8,
            34u8,
            58u8,
        ],
        lit_types_key() == seq![44u8, 34u8, 116u8, 121u8, 112u8, 101u8, 115u8, 34u8, 58u8],
{
    reveal(lit_protocol_key);
    reveal(lit_checked_key);
    reveal(lit_checked_on_key);
    reveal(lit_geo_iso_key);
    reveal(lit_geo_name_key);
    reveal(lit_geo_region_iso_key);
    reveal(lit_geo_region_name_key);
    reveal(lit_geo_city_key);
    reveal(lit_ip_key);
    reveal(lit_port_key);
    reveal(lit_geo_key);
    reveal(lit_avg_key);
    reveal(lit_types_key);
}

/// The average of the timing samples, in microseconds.
pub open spec fn spec_avg_us(p: Proxy) -> nat {
    if p.runtimes@.len() == 0 {
        0
    } else {
        (spec_sum(p.runtimes@) / p.runtimes@.len() as int) as nat
    }
}

/// The JSON form of a proxy: its address as text, the port, the geo
/// object, the average response time in seconds with six decimals, and
/// the types array.
pub open spec fn spec_json_proxy(p: Proxy) -> Seq<u8> {
    lit_ip_key() + seq![34u8] + p.ip.spec_render() + seq![34u8] + lit_port_key()
        + spec_render_nat(p.port as nat) + lit_geo_key() + spec_json_geo(p.geo) + lit_avg_key()
        + spec_json_decimal(spec_avg_us(p) / 1000000, spec_avg_us(p) % 1000000, 6)
        + lit_types_key() + spec_json_types(p.types@) + seq![125u8]
}

/// Appends a literal.
fn push_bytes(out: &mut Vec<u8>, bytes: Vec<u8>)
    ensures
        final(out)@ == old(out)@ + bytes@,
{
    let mut tmp = bytes;
    out.append(&mut tmp);
}

/// Appends the escaped, quoted JSON form of a byte string.
fn push_json_string(out: &mut Vec<u8>, x: &[u8])
    ensures
        final(out)@ == old(out)@ + spec_json_string(x@),
{
    out.push(34);
    let mut i: usize = 0;
    while i < x.len()
        invariant
            0 <= i <= x@.len(),
            out@ == old(out)@ + seq![34u8] + spec_escape(x@.take(i as int)),
        decreases x@.len() - i,
    {
        let b = x[i];
        if b == 34 {
            out.push(92);
            out.push(34);
        } else if b == 92 {
            out.push(92);
            out.push(92);
        } else if b < 32 {
            out.push(92);
            out.push(117);
            out.push(48);
            out.push(48);
            let hi = b / 16;
            let lo = b % 16;
            out.push(if hi < 10 { 48 + hi } else { 87 + hi });
            out.push(if lo < 10 { 48 + lo } else { 87 + lo });
        } else {
            out.push(b);
        }
        proof {
            lemma_escape_take_step(x@, i as int);
            assert(out@ =~= old(out)@ + seq![34u8] + spec_escape(x@.take(i + 1)));
        }
        i = i + 1;
    }
    out.push(34);
    proof {
        assert(x@.take(x@.len() as int) =~= x@);
        assert(out@ =~= old(out)@ + spec_json_string(x@));
    }
}

/// Escaping distributes over concatenation.
pub proof fn lemma_escape_concat(a: Seq<u8>, b: Seq<u8>)
    ensures
        spec_escape(a + b) == spec_escape(a) + spec_escape(b),
    decreases a.len(),
{
    if a.len() == 0 {
        assert(a + b =~= b);
        assert(spec_escape(a) =~= Seq::<u8>::empty());
        assert(spec_escape(a) + spec_escape(b) =~= spec_escape(b));
    } else {
        lemma_escape_concat(a.drop_first(), b);
        assert((a + b).drop_first() =~= a.drop_first() + b);
        assert((a + b)[0] == a[0]);
        assert((a + b).len() > 0);
        assert(spec_escape(a + b) == esc_byte(a[0]) + spec_escape(a.drop_first() + b));
        assert(spec_escape(a) + spec_escape(b) =~= esc_byte(a[0]) + (spec_escape(a.drop_first())
            + spec_escape(b)));
    }
}

/// One more byte extends the escaped body.
proof fn lemma_escape_take_step(x: Seq<u8>, i: int)
    requires
        0 <= i < x.len(),
    ensures
        spec_escape(x.take(i + 1)) == spec_escape(x.take(i)) + esc_byte(x[i]),
{
    assert(x.take(i + 1) =~= x.take(i) + seq![x[i]]);
    lemma_escape_concat(x.take(i), seq![x[i]]);
    assert(seq![x[i]].drop_first() =~= Seq::<u8>::empty());
    assert(spec_escape(Seq::<u8>::empty()) =~= Seq::<u8>::empty());
    assert(spec_escape(seq![x[i]]) =~= esc_byte(x[i]));
}

/// Appends a string field value or `null`.
fn push_json_opt_string(out: &mut Vec<u8>, x: &Option<String>)
    ensures
        final(out)@ == old(out)@ + spec_json_opt_string(opt_str_bytes(*x)),
{
    match x {
        Some(s) => {
            let bytes = s.as_str().as_bytes_vec();
            push_json_string(out, bytes.as_slice());
        },
        None => {
            let tmp: Vec<u8> = vec![110u8, 117u8, 108u8, 108u8];
            push_bytes(out, tmp);
            proof {
                assert(final(out)@ =~= old(out)@ + spec_json_opt_string(opt_str_bytes(*x)));
            }
        },
    }
}

/// Appends the low `w` decimal digits of `n`, zero-padded.
fn push_pad(out: &mut Vec<u8>, n: u64, w: usize)
    ensures
        final(out)@ == old(out)@ + spec_pad(n as nat, w as nat),
    decreases w,
{
    if w == 0 {
    } else {
        push_pad(out, n / 10, w - 1);
        out.push(48 + (n % 10) as u8);
        proof {
            assert(final(out)@ =~= old(out)@ + spec_pad(n as nat, w as nat));
        }
    }
}

/// Appends a decimal with a `w`-digit fraction.
fn push_decimal(out: &mut Vec<u8>, units: u64, frac: u64, w: usize)
    ensures
        final(out)@ == old(out)@ + spec_json_decimal(units as nat, frac as nat, w as nat),
{
    push_u64(out, units);
    out.push(46);
    push_pad(out, frac, w);
    proof {
        assert(final(out)@ =~= old(out)@ + spec_json_decimal(units as nat, frac as nat, w as nat));
    }
}

/// Appends the JSON form of a protocol.
fn push_json_protocol(out: &mut Vec<u8>, p: &Protocol)
    ensures
        final(out)@ == old(out)@ + spec_json_protocol(*p),
{
    match p {
        Protocol::Http(a) => {
            let tmp: Vec<u8> = vec![123u8, 34u8, 72u8, 116u8, 116u8, 112u8, 34u8, 58u8, 34u8];
            push_bytes(out, tmp);
            a.push_label(out);
            out.push(34);
            out.push(125);
        },
        Protocol::Https => {
            let tmp: Vec<u8> = vec![34u8, 72u8, 116u8, 116u8, 112u8, 115u8, 34u8];
            push_bytes(out, tmp);
        },
        Protocol::Socks4 => {
            let tmp: Vec<u8> = vec![34u8, 83u8, 111u8, 99u8, 107u8, 115u8, 52u8, 34u8];
            push_bytes(out, tmp);
        },
        Protocol::Socks5 => {
            let tmp: Vec<u8> = vec![34u8, 83u8, 111u8, 99u8, 107u8, 115u8, 53u8, 34u8];
            push_bytes(out, tmp);
        },
        Protocol::Connect(port) => {
            let tmp: Vec<u8> = vec![
                123u8,
                34u8,
                67u8,
                111u8,
                110u8,
                110u8,
                101u8,
                99u8,
                116u8,
                34u8,
                58u8,
            ];
            push_bytes(out, tmp);
            push_u64(out, *port as u64);
            out.push(125);
        },
    }
    proof {
        assert(final(out)@ =~= old(out)@ + spec_json_protocol(*p));
    }
}

/// Appends the JSON form of one proxy type.
fn push_json_ptype(out: &mut Vec<u8>, t: &ProxyType)
    ensures
        final(out)@ == old(out)@ + spec_json_ptype(*t),
{
    proof {
        reveal_keys();
    }
    let key1: Vec<u8> = vec![
        123u8,
        34u8,
        112u8,
        114u8,
        111u8,
        116u8,
        111u8,
        99u8,
        111u8,
        108u8,
        34u8,
        58u8,
    ];
    push_bytes(out, key1);
    push_json_protocol(out, &t.protocol);
    let key2: Vec<u8> = vec![44u8, 34u8, 99u8, 104u8, 101u8, 99u8, 107u8, 101u8, 100u8, 34u8, 58u8];
    push_bytes(out, key2);
    if t.checked {
        let tv: Vec<u8> = vec![116u8, 114u8, 117u8, 101u8];
        push_bytes(out, tv);
    } else {
        let fv: Vec<u8> = vec![102u8, 97u8, 108u8, 115u8, 101u8];
        push_bytes(out, fv);
    }
    let key3: Vec<u8> = vec![
        44u8,
        34u8,
        99u8,
        104u8,
        101u8,
        99u8,
        107u8,
        101u8,
        100u8,
        95u8,
        111u8,
        110u8,
        34u8,
        58u8,
    ];
    push_bytes(out, key3);
    push_decimal(out, t.checked_on / 1000, t.checked_on % 1000, 3);
    out.push(125);
    proof {
        assert(final(out)@ =~= old(out)@ + spec_json_ptype(*t));
    }
}

/// Appends the types array.
fn push_json_types(out: &mut Vec<u8>, ts: &Vec<ProxyType>)
    ensures
        final(out)@ == old(out)@ + spec_json_types(ts@),
{
    out.push(91);
    let mut i: usize = 0;
    proof {
        assert(ts@.take(0) =~= Seq::<ProxyType>::empty());
    }
    while i < ts.len()
        invariant
            0 <= i <= ts@.len(),
            out@ == old(out)@ + seq![91u8] + spec_json_types_items(ts@.take(i as int)),
        decreases ts@.len() - i,
    {
        if i > 0 {
            out.push(44);
        }
        push_json_ptype(out, &ts[i]);
        proof {
            assert(ts@.take(i + 1) =~= ts@.take(i as int).push(ts@[i as int]));
            lemma_types_items_snoc(ts@.take(i as int), ts@[i as int]);
            assert(out@ =~= old(out)@ + seq![91u8] + spec_json_types_items(ts@.take(i + 1)));
        }
        i = i + 1;
    }
    out.push(93);
    proof {
        assert(ts@.take(ts@.len() as int) =~= ts@);
        assert(out@ =~= old(out)@ + spec_json_types(ts@));
    }
}

/// One more item extends the joined list, with a comma before it unless
/// it is the first.
proof fn lemma_types_items_snoc(a: Seq<ProxyType>, v: ProxyType)
    ensures
        a.len() == 0 ==> spec_json_types_items(a.push(v)) == spec_json_ptype(v),
        a.len() > 0 ==> spec_json_types_items(a.push(v)) == spec_json_types_items(a) + seq![44u8]
            + spec_json_ptype(v),
    decreases a.len(),
{
    if a.len() == 0 {
        assert(a.push(v) =~= seq![v]);
        assert(spec_json_types_items(seq![v]) == spec_json_ptype(seq![v][0]));
    } else {
        lemma_types_items_snoc(a.drop_first(), v);
        assert(a.push(v).drop_first() =~= a.drop_first().push(v));
        assert(a.push(v)[0] == a[0]);
        assert(a.push(v).len() >= 2);
        assert(spec_json_types_items(a.push(v)) == spec_json_ptype(a[0]) + seq![44u8]
            + spec_json_types_items(a.drop_first().push(v)));
        if a.len() == 1 {
            assert(spec_json_types_items(a) == spec_json_ptype(a[0]));
            assert(spec_json_types_items(a.push(v)) =~= spec_json_types_items(a) + seq![44u8]
                + spec_json_ptype(v));
        } else {
            assert(spec_json_types_items(a) == spec_json_ptype(a[0]) + seq![44u8]
                + spec_json_types_items(a.drop_first()));
            assert(spec_json_types_items(a.push(v)) =~= spec_json_types_items(a) + seq![44u8]
                + spec_json_ptype(v));
        }
    }
}

impl Proxy {
    /// The JSON form of the proxy, as bytes.
    pub fn as_json_bytes(&self) -> (r: Vec<u8>)
        requires
            spec_sum(self.runtimes@) <= u64::MAX,
        ensures
            r@ == spec_json_proxy(*self),
    {
        proof {
            reveal_keys();
        }
        let mut out: Vec<u8> = vec![123u8, 34u8, 105u8, 112u8, 34u8, 58u8, 34u8];
        push_ipv4(&mut out, &self.ip);
        out.push(34);
        let key_port: Vec<u8> = vec![44u8, 34u8, 112u8, 111u8, 114u8, 116u8, 34u8, 58u8];
        push_bytes(&mut out, key_port);
        push_u64(&mut out, self.port as u64);
        let key_geo: Vec<u8> = vec![44u8, 34u8, 103u8, 101u8, 111u8, 34u8, 58u8];
        push_bytes(&mut out, key_geo);
        push_json_geo(&mut out, &self.geo);
        let key_avg: Vec<u8> = vec![
            44u8,
            34u8,
            97u8,
            118u8,
            101u8,
            114u8,
            97u8,
            103u8,
            101u8,
            95u8,
            114u8,
            101u8,
            115u8,
            112u8,
            111u8,
            110u8,
            115u8,
            101u8,
            95u8,
            116u8,
            105u8,
            109u8,
            101u8,
            34u8,
            58u8,
        ];
        push_bytes(&mut out, key_avg);
        let avg = self.avg_response_time();
        push_decimal(&mut out, avg / 1000000, avg % 1000000, 6);
        let key_types: Vec<u8> = vec![44u8, 34u8, 116u8, 121u8, 112u8, 101u8, 115u8, 34u8, 58u8];
        push_bytes(&mut out, key_types);
        push_json_types(&mut out, &self.types);
        out.push(125);
        proof {
            assert(out@ =~= spec_json_proxy(*self));
        }
        out
    }

    /// The JSON form of the proxy; it is ASCII but for what the geo
    /// strings carry.
    pub fn as_json(&self) -> (r: String)
        requires
            spec_sum(self.runtimes@) <= u64::MAX,
        ensures
            crate::text::chars_to_bytes(r@) == crate::proxy::spec_ascii_lossy(
                spec_json_proxy(*self),
            ),
    {
        let bytes = self.as_json_bytes();
        let mut clean: Vec<u8> = Vec::new();
        let mut i: usize = 0;
        while i < bytes.len()
            invariant
                0 <= i <= bytes@.len(),
                clean@.len() == i,
                forall|j: int|
                    0 <= j < i ==> clean@[j] == crate::proxy::spec_ascii_lossy(bytes@)[j]
                        && clean@[j] < 128,
            decreases bytes@.len() - i,
        {
            let b = bytes[i];
            if b < 128 {
                clean.push(b);
            } else {
                clean.push(63);
            }
            i = i + 1;
        }
        proof {
            assert(clean@ =~= crate::proxy::spec_ascii_lossy(bytes@));
        }
        crate::text::ascii_to_string(clean)
    }
}

/// A decoded geo object, fields as raw bytes.
#[derive(Debug, Clone)]
pub struct JsonGeo {
    pub iso_code: Option<Vec<u8>>,
    pub name: Option<Vec<u8>>,
    pub region_iso_code: Option<Vec<u8>>,
    pub region_name: Option<Vec<u8>>,
    pub city_name: Option<Vec<u8>>,
}

/// A decoded proxy type.
#[derive(Debug, Clone, Copy, PartialEq, Eq, Structural)]
pub struct JsonProxyType {
    pub protocol: Protocol,
    pub checked: bool,
    /// Milliseconds since the epoch.
    pub checked_on: u64,
}

/// A decoded proxy record.
#[derive(Debug, Clone)]
pub struct JsonProxy {
    pub ip: Ipv4,
    pub port: u16,
    pub geo: JsonGeo,
    /// Microseconds.
    pub average_response_time: u64,
    pub types: Vec<JsonProxyType>,
}

/// The decoded geo object at the specification level.
pub struct DecGeo {
    pub iso_code: Option<Seq<u8>>,
    pub name: Option<Seq<u8>>,
    pub region_iso_code: Option<Seq<u8>>,
    pub region_name: Option<Seq<u8>>,
    pub city_name: Option<Seq<u8>>,
}

/// The decoded proxy record at the specification level.
pub struct DecProxy {
    pub ip: Ipv4,
    pub port: u16,
    pub geo: DecGeo,
    pub average_response_time: u64,
    pub types: Seq<JsonProxyType>,
}

/// What a decoded record is as specification data.
pub open spec fn dec_geo_view(g: JsonGeo) -> DecGeo {
    DecGeo {
        iso_code: match g.iso_code {
            Some(v) => Some(v@),
            None => None,
        },
        name: match g.name {
            Some(v) => Some(v@),
            None => None,
        },
        region_iso_code: match g.region_iso_code {
            Some(v) => Some(v@),
            None => None,
        },
        region_name: match g.region_name {
            Some(v) => Some(v@),
            None => None,
        },
        city_name: match g.city_name {
            Some(v) => Some(v@),
            None => None,
        },
    }
}

/// What a decoded record is as specification data.
pub open spec fn dec_view(p: JsonProxy) -> DecProxy {
    DecProxy {
        ip: p.ip,
        port: p.port,
        geo: dec_geo_view(p.geo),
        average_response_time: p.average_response_time,
        types: p.types@,
    }
}

/// Matches a literal at `i`, yielding the index past it.
pub open spec fn spec_match_lit(s: Seq<u8>, i: int, lit: Seq<u8>) -> Option<int> {
    if 0 <= i && i + lit.len() <= s.len() && s.subrange(i, i + lit.len()) == lit {
        Some(i + lit.len())
    } else {
        None
    }
}

/// Scans a JSON string body from `i` (just past the opening quote),
/// undoing the escapes; yields the content and the index past the
/// closing quote.
pub open spec fn spec_scan_string(s: Seq<u8>, i: int) -> Option<(Seq<u8>, int)>
    decreases s.len() - i,
{
    if i < 0 || i >= s.len() {
        None
    } else if s[i] == 34 {
        Some((Seq::empty(), i + 1))
    } else if s[i] == 92 {
        if i + 1 >= s.len() {
            None
        } else if s[i + 1] == 34 || s[i + 1] == 92 {
            match spec_scan_string(s, i + 2) {
                Some(p) => Some((seq![s[i + 1]] + p.0, p.1)),
                None => None,
            }
        } else if s[i + 1] == 117 {
            if i + 5 >= s.len() {
                None
            } else if s[i + 2] == 48 && s[i + 3] == 48 && hex_val(s[i + 4]) is Some && hex_val(
                s[i + 5],
            ) is Some {
                let b = (hex_val(s[i + 4])->Some_0 * 16 + hex_val(s[i + 5])->Some_0) as u8;
                match spec_scan_string(s, i + 6) {
                    Some(p) => Some((seq![b] + p.0, p.1)),
                    None => None,
                }
            } else {
                None
            }
        } else {
            None
        }
    } else {
        match spec_scan_string(s, i + 1) {
            Some(p) => Some((seq![s[i]] + p.0, p.1)),
            None => None,
        }
    }
}

/// The index of the first non-digit at or after `i`.
pub open spec fn spec_scan_digits_end(s: Seq<u8>, i: int) -> int
    decreases s.len() - i,
{
    if i < 0 || i >= s.len() {
        i
    } else if !is_digit(s[i]) {
        i
    } else {
        spec_scan_digits_end(s, i + 1)
    }
}

/// Reads a decimal number at `i`: at most nineteen digits, so the value
/// fits.
pub open spec fn spec_parse_u64(s: Seq<u8>, i: int) -> Option<(u64, int)> {
    let j = spec_scan_digits_end(s, i);
    if i < j && j - i <= 19 {
        Some((digits_val(s.subrange(i, j)) as u64, j))
    } else {
        None
    }
}

/// Reads a decimal with a fraction of exactly `w` digits at `i`; yields
/// `units * 10^w + fraction`.
pub open spec fn spec_parse_decimal(s: Seq<u8>, i: int, w: nat) -> Option<(u64, int)> {
    match spec_parse_u64(s, i) {
        None => None,
        Some(up) => {
            let j = up.1;
            if j < s.len() && s[j] == 46 {
                let k = spec_scan_digits_end(s, j + 1);
                if k - (j + 1) == w && (up.0 as nat) * crate::text::pow10(w) + digits_val(
                    s.subrange(j + 1, k),
                ) <= u64::MAX {
                    Some(
                        (
                            ((up.0 as nat) * crate::text::pow10(w) + digits_val(
                                s.subrange(j + 1, k),
                            )) as u64,
                            k,
                        ),
                    )
                } else {
                    None
                }
            } else {
                None
            }
        },
    }
}

/// Reads a protocol at `i`: a bare variant name or a one-key object.
pub open spec fn spec_parse_protocol(s: Seq<u8>, i: int) -> Option<(Protocol, int)> {
    if i < 0 || i >= s.len() {
        None
    } else if s[i] == 34 {
        match spec_scan_string(s, i + 1) {
            None => None,
            Some(p) => {
                if p.0 == seq![72u8, 116u8, 116u8, 112u8, 115u8] {
                    Some((Protocol::Https, p.1))
                } else if p.0 == seq![83u8, 111u8, 99u8, 107u8, 115u8, 52u8] {
                    Some((Protocol::Socks4, p.1))
                } else if p.0 == seq![83u8, 111u8, 99u8, 107u8, 115u8, 53u8] {
                    Some((Protocol::Socks5, p.1))
                } else {
                    None
                }
            },
        }
    } else if s[i] == 123 {
        if spec_match_lit(s, i, seq![123u8, 34u8, 72u8, 116u8, 116u8, 112u8, 34u8, 58u8, 34u8])
            is Some {
            let j = i + 9;
            match spec_scan_string(s, j) {
                None => None,
                Some(p) => {
                    let a = spec_anon_name(p.0);
                    match a {
                        None => None,
                        Some(level) => {
                            if p.1 < s.len() && s[p.1] == 125 {
                                Some((Protocol::Http(level), p.1 + 1))
                            } else {
                                None
                            }
                        },
                    }
                },
            }
        } else if spec_match_lit(
            s,
            i,
            seq![123u8, 34u8, 67u8, 111u8, 110u8, 110u8, 101u8, 99u8, 116u8, 34u8, 58u8],
        ) is Some {
            let j = i + 11;
            match spec_parse_u64(s, j) {
                None => None,
                Some(p) => {
                    if p.0 <= 65535 && p.1 < s.len() && s[p.1] == 125 {
                        Some((Protocol::Connect(p.0 as u16), p.1 + 1))
                    } else {
                        None
                    }
                },
            }
        } else {
            None
        }
    } else {
        None
    }
}

/// The anonymity level a variant name spells, if any.
pub open spec fn spec_anon_name(x: Seq<u8>) -> Option<Anonymity> {
    if x == Anonymity::Elite.spec_label() {
        Some(Anonymity::Elite)
    } else if x == Anonymity::Transparent.spec_label() {
        Some(Anonymity::Transparent)
    } else if x == Anonymity::Anonymous.spec_label() {
        Some(Anonymity::Anonymous)
    } else if x == Anonymity::Unknown.spec_label() {
        Some(Anonymity::Unknown)
    } else {
        None
    }
}

/// Reads one proxy-type object at `i`.
pub open spec fn spec_parse_ptype(s: Seq<u8>, i: int) -> Option<(JsonProxyType, int)> {
    match spec_match_lit(s, i, lit_protocol_key()) {
        None => None,
        Some(j1) => match spec_parse_protocol(s, j1) {
            None => None,
            Some(pp) => match spec_match_lit(s, pp.1, lit_checked_key()) {
                None => None,
                Some(j2) => {
                    let checked: Option<(bool, int)> = if spec_match_lit(
                        s,
                        j2,
                        seq![116u8, 114u8, 117u8, 101u8],
                    ) is Some {
                        Some((true, j2 + 4))
                    } else if spec_match_lit(
                        s,
                        j2,
                        seq![102u8, 97u8, 108u8, 115u8, 101u8],
                    ) is Some {
                        Some((false, j2 + 5))
                    } else {
                        None
                    };
                    match checked {
                        None => None,
                        Some(cb) => match spec_match_lit(s, cb.1, lit_checked_on_key()) {
                            None => None,
                            Some(j3) => match spec_parse_decimal(s, j3, 3) {
                                None => None,
                                Some(dp) => {
                                    if dp.1 < s.len() && s[dp.1] == 125 {
                                        Some(
                                            (
                                                JsonProxyType {
                                                    protocol: pp.0,
                                                    checked: cb.0,
                                                    checked_on: dp.0,
                                                },
                                                dp.1 + 1,
                                            ),
                                        )
                                    } else {
                                        None
                                    }
                                },
                            },
                        },
                    }
                },
            },
        },
    }
}

/// Reads the comma-separated items of a non-empty types array, up to and
/// past the closing bracket; `fuel` bounds the number of items.
pub open spec fn spec_parse_types_items(s: Seq<u8>, i: int, fuel: nat) -> Option<
    (Seq<JsonProxyType>, int),
>
    decreases fuel,
{
    if fuel == 0 {
        None
    } else {
        match spec_parse_ptype(s, i) {
            None => None,
            Some(vp) => {
                if vp.1 < s.len() && s[vp.1] == 93 {
                    Some((seq![vp.0], vp.1 + 1))
                } else if vp.1 < s.len() && s[vp.1] == 44 {
                    match spec_parse_types_items(s, vp.1 + 1, (fuel - 1) as nat) {
                        None => None,
                        Some(rest) => Some((seq![vp.0] + rest.0, rest.1)),
                    }
                } else {
                    None
                }
            },
        }
    }
}

/// Reads the types array at `i`.
pub open spec fn spec_parse_types(s: Seq<u8>, i: int) -> Option<(Seq<JsonProxyType>, int)> {
    if 0 <= i && i < s.len() && s[i] == 91 {
        if i + 1 < s.len() && s[i + 1] == 93 {
            Some((Seq::empty(), i + 2))
        } else {
            spec_parse_types_items(s, i + 1, s.len() as nat)
        }
    } else {
        None
    }
}

/// Reads a string or `null` at `i`.
pub open spec fn spec_parse_opt_string(s: Seq<u8>, i: int) -> Option<(Option<Seq<u8>>, int)> {
    if 0 <= i && i < s.len() && s[i] == 34 {
        match spec_scan_string(s, i + 1) {
            None => None,
            Some(p) => Some((Some(p.0), p.1)),
        }
    } else {
        match spec_match_lit(s, i, seq![110u8, 117u8, 108u8, 108u8]) {
            Some(j) => Some((None, j)),
            None => None,
        }
    }
}

/// Reads the geo object at `i`.
pub open spec fn spec_parse_geo(s: Seq<u8>, i: int) -> Option<(DecGeo, int)> {
    match spec_match_lit(s, i, lit_geo_iso_key()) {
        None => None,
        Some(j1) => match spec_parse_opt_string(s, j1) {
            None => None,
            Some(iso) => match spec_match_lit(s, iso.1, lit_geo_name_key()) {
                None => None,
                Some(j2) => match spec_parse_opt_string(s, j2) {
                    None => None,
                    Some(nm) => match spec_match_lit(s, nm.1, lit_geo_region_iso_key()) {
                        None => None,
                        Some(j3) => match spec_parse_opt_string(s, j3) {
                            None => None,
                            Some(ri) => match spec_match_lit(s, ri.1, lit_geo_region_name_key()) {
                                None => None,
                                Some(j4) => match spec_parse_opt_string(s, j4) {
                                    None => None,
                                    Some(rn) => match spec_match_lit(s, rn.1, lit_geo_city_key()) {
                                        None => None,
                                        Some(j5) => match spec_parse_opt_string(s, j5) {
                                            None => None,
                                            Some(cn) => {
                                                if cn.1 < s.len() && s[cn.1] == 125 {
                                                    Some(
                                                        (
                                                            DecGeo {
                                                                iso_code: iso.0,
                                                                name: nm.0,
                                                                region_iso_code: ri.0,
                                                                region_name: rn.0,
                                                                city_name: cn.0,
                                                            },
                                                            cn.1 + 1,
                                                        ),
                                                    )
                                                } else {
                                                    None
                                                }
                                            },
                                        },
                                    },
                                },
                            },
                        },
                    },
                },
            },
        },
    }
}

/// Reads a whole proxy record; the record must fill the input exactly.
/// Reads the opening of a record: the ip key and the address string.
pub open spec fn spec_decode_head(s: Seq<u8>) -> Option<(Ipv4, int)> {
    match spec_match_lit(s, 0, lit_ip_key() + seq![34u8]) {
        None => None,
        Some(j0) => match spec_scan_string(s, j0) {
            None => None,
            Some(ips) => match spec_parse_ipv4(ips.0) {
                None => None,
                Some(ip) => Some((ip, ips.1)),
            },
        },
    }
}

/// Reads the port field (key and value) at `i`.
pub open spec fn spec_decode_port(s: Seq<u8>, i: int) -> Option<(u16, int)> {
    match spec_match_lit(s, i, lit_port_key()) {
        None => None,
        Some(j1) => match spec_parse_u64(s, j1) {
            None => None,
            Some(pp) => if pp.0 <= 65535 {
                Some((pp.0 as u16, pp.1))
            } else {
                None
            },
        },
    }
}

/// Reads the geo field (key and object) at `i`.
pub open spec fn spec_decode_geo_field(s: Seq<u8>, i: int) -> Option<(DecGeo, int)> {
    match spec_match_lit(s, i, lit_geo_key()) {
        None => None,
        Some(j2) => spec_parse_geo(s, j2),
    }
}

/// Reads the average field (key and decimal) at `i`.
pub open spec fn spec_decode_avg(s: Seq<u8>, i: int) -> Option<(u64, int)> {
    match spec_match_lit(s, i, lit_avg_key()) {
        None => None,
        Some(j3) => spec_parse_decimal(s, j3, 6),
    }
}

/// Reads the types field (key and array) at `i`.
pub open spec fn spec_decode_types(s: Seq<u8>, i: int) -> Option<(Seq<JsonProxyType>, int)> {
    match spec_match_lit(s, i, lit_types_key()) {
        None => None,
        Some(j4) => spec_parse_types(s, j4),
    }
}

/// Reads a whole proxy record; the record must fill the input exactly.
pub open spec fn spec_decode_proxy(s: Seq<u8>) -> Option<DecProxy> {
    match spec_decode_head(s) {
        None => None,
        Some(hd) => match spec_decode_port(s, hd.1) {
            None => None,
            Some(pp) => match spec_decode_geo_field(s, pp.1) {
                None => None,
                Some(gp) => match spec_decode_avg(s, gp.1) {
                    None => None,
                    Some(ap) => match spec_decode_types(s, ap.1) {
                        None => None,
                        Some(tp) => if tp.1 + 1 == s.len() && 0 <= tp.1 < s.len() && s[tp.1] == 125 {
                            Some(
                                DecProxy {
                                    ip: hd.0,
                                    port: pp.0,
                                    geo: gp.0,
                                    average_response_time: ap.0,
                                    types: tp.0,
                                },
                            )
                        } else {
                            None
                        },
                    },
                },
            },
        },
    }
}

/// Matches a literal at `i`.
fn match_lit(s: &[u8], i: usize, lit: &[u8]) -> (r: Option<usize>)
    ensures
        match r {
            Some(j) => spec_match_lit(s@, i as int, lit@) == Some(j as int),
            None => spec_match_lit(s@, i as int, lit@) is None,
        },
{
    if i > s.len() || lit.len() > s.len() - i {
        return None;
    }
    let sl = s.len();
    let ll = lit.len();
    let mut k: usize = 0;
    let ghost part = s@.subrange(i as int, i + lit@.len());
    while k < ll
        invariant
            sl == s@.len(),
            ll == lit@.len(),
            i + lit@.len() <= s@.len(),
            0 <= k <= lit@.len(),
            part == s@.subrange(i as int, i + lit@.len()),
            forall|j: int| 0 <= j < k ==> s@[i + j] == lit@[j],
        decreases lit@.len() - k,
    {
        if s[i + k] != lit[k] {
            proof {
                assert(part[k as int] == s@[i + k]);
                assert(part != lit@) by {
                    if part == lit@ {
                        assert(part[k as int] == lit@[k as int]);
                    }
                }
            }
            return None;
        }
        k = k + 1;
    }
    proof {
        assert(part =~= lit@);
    }
    Some(i + lit.len())
}

/// Reads a hexadecimal digit.
fn hex_val_at(b: u8) -> (r: Option<u8>)
    ensures
        match r {
            Some(v) => hex_val(b) == Some(v as int),
            None => hex_val(b) is None,
        },
{
    if 48 <= b && b <= 57 {
        Some(b - 48)
    } else if 97 <= b && b <= 102 {
        Some(b - 87)
    } else {
        None
    }
}

/// Scans a JSON string body from `i`, undoing the escapes.
fn scan_string(s: &[u8], i: usize) -> (r: Option<(Vec<u8>, usize)>)
    ensures
        match r {
            Some(p) => spec_scan_string(s@, i as int) == Some((p.0@, p.1 as int)),
            None => spec_scan_string(s@, i as int) is None,
        },
    decreases s@.len() - i,
{
    if i >= s.len() {
        return None;
    }
    let b = s[i];
    if b == 34 {
        let empty: Vec<u8> = Vec::new();
        proof {
            assert(empty@ =~= Seq::<u8>::empty());
        }
        return Some((empty, i + 1));
    }
    if b == 92 {
        if s.len() - i <= 1 {
            return None;
        }
        let c = s[i + 1];
        if c == 34 || c == 92 {
            match scan_string(s, i + 2) {
                Some((t, j)) => {
                    let mut t2 = t;
                    t2.insert(0, c);
                    proof {
                        assert(t2@ =~= seq![s@[i + 1]] + spec_scan_string(s@, i + 2)->Some_0.0);
                    }
                    return Some((t2, j));
                },
                None => {
                    return None;
                },
            }
        }
        if c == 117 {
            if s.len() - i <= 5 {
                return None;
            }
            if s[i + 2] != 48 || s[i + 3] != 48 {
                return None;
            }
            let hi = match hex_val_at(s[i + 4]) {
                Some(v) => v,
                None => {
                    return None;
                },
            };
            let lo = match hex_val_at(s[i + 5]) {
                Some(v) => v,
                None => {
                    return None;
                },
            };
            match scan_string(s, i + 6) {
                Some((t, j)) => {
                    let mut t2 = t;
                    t2.insert(0, hi * 16 + lo);
                    proof {
                        assert(t2@ =~= seq![(hex_val(s@[i + 4])->Some_0 * 16 + hex_val(
                            s@[i + 5],
                        )->Some_0) as u8] + spec_scan_string(s@, i + 6)->Some_0.0);
                    }
                    return Some((t2, j));
                },
                None => {
                    return None;
                },
            }
        }
        return None;
    }
    match scan_string(s, i + 1) {
        Some((t, j)) => {
            let mut t2 = t;
            t2.insert(0, b);
            proof {
                assert(t2@ =~= seq![s@[i as int]] + spec_scan_string(s@, i + 1)->Some_0.0);
            }
            Some((t2, j))
        },
        None => None,
    }
}

/// Finds the first non-digit at or after `i`.
fn scan_digits_end(s: &[u8], i: usize) -> (r: usize)
    requires
        i <= s@.len(),
    ensures
        r == spec_scan_digits_end(s@, i as int),
        i <= r <= s@.len(),
    decreases s@.len() - i,
{
    if i >= s.len() {
        return i;
    }
    let b = s[i];
    if 48 <= b && b <= 57 {
        scan_digits_end(s, i + 1)
    } else {
        i
    }
}

/// Reads a decimal number at `i`.
fn parse_u64_at(s: &[u8], i: usize) -> (r: Option<(u64, usize)>)
    requires
        i <= s@.len(),
    ensures
        match r {
            Some(p) => spec_parse_u64(s@, i as int) == Some((p.0, p.1 as int)),
            None => spec_parse_u64(s@, i as int) is None,
        },
{
    let j = scan_digits_end(s, i);
    if i < j && j - i <= 19 {
        proof {
            lemma_scan_digits_range(s@, i as int);
        }
        let v = crate::text::digits_value_u64(s, i, j);
        Some((v, j))
    } else {
        None
    }
}

/// Every byte the digit scan passed over is a digit.
proof fn lemma_scan_digits_range(s: Seq<u8>, i: int)
    requires
        0 <= i <= s.len(),
    ensures
        i <= spec_scan_digits_end(s, i) <= s.len(),
        all_digits(s.subrange(i, spec_scan_digits_end(s, i))),
        spec_scan_digits_end(s, i) < s.len() ==> !is_digit(s[spec_scan_digits_end(s, i)]),
    decreases s.len() - i,
{
    if i < s.len() && is_digit(s[i]) {
        lemma_scan_digits_range(s, i + 1);
        let e = spec_scan_digits_end(s, i);
        assert forall|k: int| 0 <= k < e - i implies is_digit(
            #[trigger] s.subrange(i, e)[k],
        ) by {
            if k == 0 {
                assert(s.subrange(i, e)[0] == s[i]);
            } else {
                assert(s.subrange(i + 1, e)[k - 1] == s.subrange(i, e)[k]);
            }
        }
    }
}

/// Reads a decimal with a fraction of exactly `w` digits at `i`.
fn parse_decimal_at(s: &[u8], i: usize, w: usize) -> (r: Option<(u64, usize)>)
    requires
        i <= s@.len(),
        w <= 9,
    ensures
        match r {
            Some(p) => spec_parse_decimal(s@, i as int, w as nat) == Some((p.0, p.1 as int)),
            None => spec_parse_decimal(s@, i as int, w as nat) is None,
        },
{
    let (units, j) = match parse_u64_at(s, i) {
        Some(p) => p,
        None => {
            return None;
        },
    };
    if j >= s.len() || s[j] != 46 {
        return None;
    }
    let k = scan_digits_end(s, j + 1);
    if k - (j + 1) != w {
        return None;
    }
    proof {
        lemma_scan_digits_range(s@, j + 1);
    }
    let frac = crate::text::digits_value_u32(s, j + 1, k);
    let p10 = crate::text::pow10_u64(w);
    proof {
        crate::text::lemma_pow10_vals();
        crate::text::lemma_pow10_vals_big();
        crate::text::lemma_pow10_increases(w as nat, 9);
    }
    proof {
        assert(p10 <= 1000000000);
        assert((units as u128) * (p10 as u128) + (frac as u128) <= (18446744073709551615u128)
            * 1000000000u128 + 4294967295u128) by (nonlinear_arith)
            requires
                units <= 18446744073709551615u128,
                p10 <= 1000000000,
                frac <= 4294967295u128,
        ;
    }
    let total = (units as u128) * (p10 as u128) + (frac as u128);
    if total > u64::MAX as u128 {
        return None;
    }
    Some((total as u64, k))
}

/// Reads a protocol at `i`.
fn parse_protocol_at(s: &[u8], i: usize) -> (r: Option<(Protocol, usize)>)
    requires
        i <= s@.len(),
    ensures
        match r {
            Some(p) => spec_parse_protocol(s@, i as int) == Some((p.0, p.1 as int)),
            None => spec_parse_protocol(s@, i as int) is None,
        },
{
    if i >= s.len() {
        return None;
    }
    let b = s[i];
    if b == 34 {
        let (name, j) = match scan_string(s, i + 1) {
            Some(p) => p,
            None => {
                return None;
            },
        };
        let tok_https: Vec<u8> = vec![72u8, 116u8, 116u8, 112u8, 115u8];
        let tok_socks4: Vec<u8> = vec![83u8, 111u8, 99u8, 107u8, 115u8, 52u8];
        let tok_socks5: Vec<u8> = vec![83u8, 111u8, 99u8, 107u8, 115u8, 53u8];
        proof {
            assert(tok_https@ =~= seq![72u8, 116u8, 116u8, 112u8, 115u8]);
            assert(tok_socks4@ =~= seq![83u8, 111u8, 99u8, 107u8, 115u8, 52u8]);
            assert(tok_socks5@ =~= seq![83u8, 111u8, 99u8, 107u8, 115u8, 53u8]);
        }
        if bytes_eq(name.as_slice(), tok_https.as_slice()) {
            return Some((Protocol::Https, j));
        }
        if bytes_eq(name.as_slice(), tok_socks4.as_slice()) {
            return Some((Protocol::Socks4, j));
        }
        if bytes_eq(name.as_slice(), tok_socks5.as_slice()) {
            return Some((Protocol::Socks5, j));
        }
        return None;
    }
    if b != 123 {
        return None;
    }
    let lit_http: Vec<u8> = vec![123u8, 34u8, 72u8, 116u8, 116u8, 112u8, 34u8, 58u8, 34u8];
    let lit_connect: Vec<u8> = vec![
        123u8,
        34u8,
        67u8,
        111u8,
        110u8,
        110u8,
        101u8,
        99u8,
        116u8,
        34u8,
        58u8,
    ];
    proof {
        assert(lit_http@ =~= seq![123u8, 34u8, 72u8, 116u8, 116u8, 112u8, 34u8, 58u8, 34u8]);
        assert(lit_connect@ =~= seq![
            123u8,
            34u8,
            67u8,
            111u8,
            110u8,
            110u8,
            101u8,
            99u8,
            116u8,
            34u8,
            58u8,
        ]);
    }
    match match_lit(s, i, lit_http.as_slice()) {
        Some(_) => {
            let (name, j) = match scan_string(s, i + 9) {
                Some(p) => p,
                None => {
                    return None;
                },
            };
            let level = match anon_name(name.as_slice()) {
                Some(a) => a,
                None => {
                    return None;
                },
            };
            if j < s.len() && s[j] == 125 {
                Some((Protocol::Http(level), j + 1))
            } else {
                None
            }
        },
        None => {
            match match_lit(s, i, lit_connect.as_slice()) {
                Some(_) => {
                    let (port, j) = match parse_u64_at(s, i + 11) {
                        Some(p) => p,
                        None => {
                            return None;
                        },
                    };
                    if port <= 65535 && j < s.len() && s[j] == 125 {
                        Some((Protocol::Connect(port as u16), j + 1))
                    } else {
                        None
                    }
                },
                None => None,
            }
        },
    }
}

/// Whether two byte strings are equal.
fn bytes_eq(a: &[u8], b: &[u8]) -> (r: bool)
    ensures
        r == (a@ == b@),
{
    if a.len() != b.len() {
        proof {
            assert(a@.len() != b@.len());
        }
        return false;
    }
    let mut k: usize = 0;
    while k < a.len()
        invariant
            a@.len() == b@.len(),
            0 <= k <= a@.len(),
            forall|j: int| 0 <= j < k ==> a@[j] == b@[j],
        decreases a@.len() - k,
    {
        if a[k] != b[k] {
            proof {
                assert(a@ != b@) by {
                    if a@ == b@ {
                        assert(a@[k as int] == b@[k as int]);
                    }
                }
            }
            return false;
        }
        k = k + 1;
    }
    proof {
        assert(a@ =~= b@);
    }
    true
}

/// Reads an anonymity level by its variant name.
fn anon_name(x: &[u8]) -> (r: Option<Anonymity>)
    ensures
        r == spec_anon_name(x@),
{
    let tok_elite: Vec<u8> = vec![69u8, 108u8, 105u8, 116u8, 101u8];
    let tok_transparent: Vec<u8> = vec![
        84u8,
        114u8,
        97u8,
        110u8,
        115u8,
        112u8,
        97u8,
        114u8,
        101u8,
        110u8,
        116u8,
    ];
    let tok_anonymous: Vec<u8> = vec![65u8, 110u8, 111u8, 110u8, 121u8, 109u8, 111u8, 117u8, 115u8];
    let tok_unknown: Vec<u8> = vec![85u8, 110u8, 107u8, 110u8, 111u8, 119u8, 110u8];
    proof {
        assert(tok_elite@ =~= Anonymity::Elite.spec_label());
        assert(tok_transparent@ =~= Anonymity::Transparent.spec_label());
        assert(tok_anonymous@ =~= Anonymity::Anonymous.spec_label());
        assert(tok_unknown@ =~= Anonymity::Unknown.spec_label());
    }
    if bytes_eq(x, tok_elite.as_slice()) {
        Some(Anonymity::Elite)
    } else if bytes_eq(x, tok_transparent.as_slice()) {
        Some(Anonymity::Transparent)
    } else if bytes_eq(x, tok_anonymous.as_slice()) {
        Some(Anonymity::Anonymous)
    } else if bytes_eq(x, tok_unknown.as_slice()) {
        Some(Anonymity::Unknown)
    } else {
        None
    }
}

/// Reads one proxy-type object at `i`.
fn parse_ptype_at(s: &[u8], i: usize) -> (r: Option<(JsonProxyType, usize)>)
    requires
        i <= s@.len(),
    ensures
        match r {
            Some(p) => spec_parse_ptype(s@, i as int) == Some((p.0, p.1 as int)),
            None => spec_parse_ptype(s@, i as int) is None,
        },
{
    let key1: Vec<u8> = vec![
        123u8,
        34u8,
        112u8,
        114u8,
        111u8,
        116u8,
        111u8,
        99u8,
        111u8,
        108u8,
        34u8,
        58u8,
    ];
    proof {
        reveal_keys();
        assert(key1@ =~= lit_protocol_key());
    }
    let j1 = match match_lit(s, i, key1.as_slice()) {
        Some(j) => j,
        None => {
            return None;
        },
    };
    proof {
        assert(j1 <= s@.len());
    }
    let (protocol, j2) = match parse_protocol_at(s, j1) {
        Some(p) => p,
        None => {
            return None;
        },
    };
    proof {
        lemma_parse_protocol_in_range(s@, j1 as int);
    }
    let key2: Vec<u8> = vec![44u8, 34u8, 99u8, 104u8, 101u8, 99u8, 107u8, 101u8, 100u8, 34u8, 58u8];
    proof {
        assert(key2@ =~= lit_checked_key());
    }
    let j3 = match match_lit(s, j2, key2.as_slice()) {
        Some(j) => j,
        None => {
            return None;
        },
    };
    let tv: Vec<u8> = vec![116u8, 114u8, 117u8, 101u8];
    let fv: Vec<u8> = vec![102u8, 97u8, 108u8, 115u8, 101u8];
    proof {
        assert(tv@ =~= seq![116u8, 114u8, 117u8, 101u8]);
        assert(fv@ =~= seq![102u8, 97u8, 108u8, 115u8, 101u8]);
    }
    let (checked, j4) = match match_lit(s, j3, tv.as_slice()) {
        Some(j) => (true, j),
        None => {
            match match_lit(s, j3, fv.as_slice()) {
                Some(j) => (false, j),
                None => {
                    return None;
                },
            }
        },
    };
    let key3: Vec<u8> = vec![
        44u8,
        34u8,
        99u8,
        104u8,
        101u8,
        99u8,
        107u8,
        101u8,
        100u8,
        95u8,
        111u8,
        110u8,
        34u8,
        58u8,
    ];
    proof {
        assert(key3@ =~= lit_checked_on_key());
    }
    let j5 = match match_lit(s, j4, key3.as_slice()) {
        Some(j) => j,
        None => {
            return None;
        },
    };
    let (checked_on, j6) = match parse_decimal_at(s, j5, 3) {
        Some(p) => p,
        None => {
            return None;
        },
    };
    proof {
        lemma_parse_decimal_in_range(s@, j5 as int, 3);
    }
    if j6 < s.len() && s[j6] == 125 {
        Some((JsonProxyType { protocol, checked, checked_on }, j6 + 1))
    } else {
        None
    }
}

/// A parsed protocol ends inside the input.
proof fn lemma_parse_protocol_in_range(s: Seq<u8>, i: int)
    ensures
        spec_parse_protocol(s, i) matches Some(p) ==> i < p.1 <= s.len(),
{
    if spec_parse_protocol(s, i) is Some {
        lemma_scan_string_in_range(s, i + 1);
        lemma_scan_string_in_range(s, i + 9);
        lemma_scan_digits_in_range(s, i + 11);
    }
}

/// A scanned string ends inside the input.
proof fn lemma_scan_string_in_range(s: Seq<u8>, i: int)
    ensures
        spec_scan_string(s, i) matches Some(p) ==> i < p.1 <= s.len(),
    decreases s.len() - i,
{
    if 0 <= i < s.len() {
        if s[i] == 34 {
        } else if s[i] == 92 {
            if i + 2 <= s.len() {
                lemma_scan_string_in_range(s, i + 2);
            }
            if i + 6 <= s.len() {
                lemma_scan_string_in_range(s, i + 6);
            }
        } else {
            lemma_scan_string_in_range(s, i + 1);
        }
    }
}

/// The digit scan ends inside the input.
proof fn lemma_scan_digits_in_range(s: Seq<u8>, i: int)
    ensures
        0 <= i <= s.len() ==> i <= spec_scan_digits_end(s, i) <= s.len(),
    decreases s.len() - i,
{
    if 0 <= i < s.len() && is_digit(s[i]) {
        lemma_scan_digits_in_range(s, i + 1);
    }
}

/// A parsed decimal ends inside the input.
proof fn lemma_parse_decimal_in_range(s: Seq<u8>, i: int, w: nat)
    ensures
        spec_parse_decimal(s, i, w) matches Some(p) ==> p.1 <= s.len(),
{
    if spec_parse_decimal(s, i, w) is Some {
        let j = spec_parse_u64(s, i)->Some_0.1;
        lemma_scan_digits_in_range(s, j + 1);
    }
}

/// Reads the comma-separated items of a non-empty types array.
fn parse_types_items(s: &[u8], i: usize, fuel: usize) -> (r: Option<(Vec<JsonProxyType>, usize)>)
    requires
        i <= s@.len(),
    ensures
        match r {
            Some(p) => spec_parse_types_items(s@, i as int, fuel as nat) == Some(
                (p.0@, p.1 as int),
            ),
            None => spec_parse_types_items(s@, i as int, fuel as nat) is None,
        },
    decreases fuel,
{
    if fuel == 0 {
        return None;
    }
    let (v, j) = match parse_ptype_at(s, i) {
        Some(p) => p,
        None => {
            return None;
        },
    };
    if j < s.len() && s[j] == 93 {
        let mut out: Vec<JsonProxyType> = Vec::new();
        out.push(v);
        proof {
            assert(out@ =~= seq![v]);
        }
        return Some((out, j + 1));
    }
    if j < s.len() && s[j] == 44 {
        proof {
            assert(j + 1 <= s@.len());
        }
        match parse_types_items(s, j + 1, fuel - 1) {
            Some((rest, k)) => {
                let mut out = rest;
                out.insert(0, v);
                proof {
                    assert(out@ =~= seq![v] + spec_parse_types_items(
                        s@,
                        j + 1,
                        (fuel - 1) as nat,
                    )->Some_0.0);
                }
                return Some((out, k));
            },
            None => {
                return None;
            },
        }
    }
    None
}

/// Reads the types array at `i`.
fn parse_types_at(s: &[u8], i: usize) -> (r: Option<(Vec<JsonProxyType>, usize)>)
    requires
        i <= s@.len(),
    ensures
        match r {
            Some(p) => spec_parse_types(s@, i as int) == Some((p.0@, p.1 as int)),
            None => spec_parse_types(s@, i as int) is None,
        },
{
    if i >= s.len() || s[i] != 91 {
        return None;
    }
    if i + 1 < s.len() && s[i + 1] == 93 {
        let empty: Vec<JsonProxyType> = Vec::new();
        proof {
            assert(empty@ =~= Seq::<JsonProxyType>::empty());
        }
        return Some((empty, i + 2));
    }
    parse_types_items(s, i + 1, s.len())
}

/// Reads a string or `null` at `i`.
fn parse_opt_string_at(s: &[u8], i: usize) -> (r: Option<(Option<Vec<u8>>, usize)>)
    requires
        i <= s@.len(),
    ensures
        match r {
            Some(p) => match p.0 {
                Some(v) => spec_parse_opt_string(s@, i as int) == Some(
                    (Some(v@), p.1 as int),
                ),
                None => spec_parse_opt_string(s@, i as int) == Some(
                    (None::<Seq<u8>>, p.1 as int),
                ),
            },
            None => spec_parse_opt_string(s@, i as int) is None,
        },
{
    if i < s.len() && s[i] == 34 {
        match scan_string(s, i + 1) {
            Some((t, j)) => Some((Some(t), j)),
            None => None,
        }
    } else {
        let null_lit: Vec<u8> = vec![110u8, 117u8, 108u8, 108u8];
        proof {
            assert(null_lit@ =~= seq![110u8, 117u8, 108u8, 108u8]);
        }
        match match_lit(s, i, null_lit.as_slice()) {
            Some(j) => Some((None, j)),
            None => None,
        }
    }
}

/// Reads the geo object at `i`.
#[verifier::rlimit(100)]
fn parse_geo_at(s: &[u8], i: usize) -> (r: Option<(JsonGeo, usize)>)
    requires
        i <= s@.len(),
    ensures
        match r {
            Some(p) => spec_parse_geo(s@, i as int) == Some((dec_geo_view(p.0), p.1 as int)),
            None => spec_parse_geo(s@, i as int) is None,
        },
{
    let k1: Vec<u8> = vec![
        123u8,
        34u8,
        105u8,
        115u8,
        111u8,
        95u8,
        99u8,
        111u8,
        100u8,
        101u8,
        34u8,
        58u8,
    ];
    proof {
        reveal_keys();
        assert(k1@ =~= lit_geo_iso_key());
    }
    let j1 = match match_lit(s, i, k1.as_slice()) {
        Some(j) => j,
        None => {
            return None;
        },
    };
    let (iso_code, e1) = match parse_opt_string_at(s, j1) {
        Some(p) => p,
        None => {
            return None;
        },
    };
    proof {
        lemma_parse_opt_string_in_range(s@, j1 as int);
    }
    let k2: Vec<u8> = vec![44u8, 34u8, 110u8, 97u8, 109u8, 101u8, 34u8, 58u8];
    proof {
        assert(k2@ =~= lit_geo_name_key());
    }
    let j2 = match match_lit(s, e1, k2.as_slice()) {
        Some(j) => j,
        None => {
            return None;
        },
    };
    let (name, e2) = match parse_opt_string_at(s, j2) {
        Some(p) => p,
        None => {
            return None;
        },
    };
    proof {
        lemma_parse_opt_string_in_range(s@, j2 as int);
    }
    let k3: Vec<u8> = vec![
        44u8,
        34u8,
        114u8,
        101u8,
        103u8,
        105u8,
        111u8,
        110u8,
        95u8,
        105u8,
        115u8,
        111u8,
        95u8,
        99u8,
        111u8,
        100u8,
        101u8,
        34u8,
        58u8,
    ];
    proof {
        assert(k3@ =~= lit_geo_region_iso_key());
    }
    let j3 = match match_lit(s, e2, k3.as_slice()) {
        Some(j) => j,
        None => {
            return None;
        },
    };
    let (region_iso_code, e3) = match parse_opt_string_at(s, j3) {
        Some(p) => p,
        None => {
            return None;
        },
    };
    proof {
        lemma_parse_opt_string_in_range(s@, j3 as int);
    }
    let k4: Vec<u8> = vec![
        44u8,
        34u8,
        114u8,
        101u8,
        103u8,
        105u8,
        111u8,
        110u8,
        95u8,
        110u8,
        97u8,
        109u8,
        101u8,
        34u8,
        58u8,
    ];
    proof {
        assert(k4@ =~= lit_geo_region_name_key());
    }
    let j4 = match match_lit(s, e3, k4.as_slice()) {
        Some(j) => j,
        None => {
            return None;
        },
    };
    let (region_name, e4) = match parse_opt_string_at(s, j4) {
        Some(p) => p,
        None => {
            return None;
        },
    };
    proof {
        lemma_parse_opt_string_in_range(s@, j4 as int);
    }
    let k5: Vec<u8> = vec![
        44u8,
        34u8,
        99u8,
        105u8,
        116u8,
        121u8,
        95u8,
        110u8,
        97u8,
        109u8,
        101u8,
        34u8,
        58u8,
    ];
    proof {
        assert(k5@ =~= lit_geo_city_key());
    }
    let j5 = match match_lit(s, e4, k5.as_slice()) {
        Some(j) => j,
        None => {
            return None;
        },
    };
    let (city_name, e5) = match parse_opt_string_at(s, j5) {
        Some(p) => p,
        None => {
            return None;
        },
    };
    if e5 < s.len() && s[e5] == 125 {
        Some((JsonGeo { iso_code, name, region_iso_code, region_name, city_name }, e5 + 1))
    } else {
        None
    }
}

/// A parsed optional string ends inside the input.
proof fn lemma_parse_opt_string_in_range(s: Seq<u8>, i: int)
    ensures
        spec_parse_opt_string(s, i) matches Some(p) ==> p.1 <= s.len(),
{
    lemma_scan_string_in_range(s, i + 1);
}

/// Reads the opening of a record: the ip key and the address string.
fn decode_head(s: &[u8]) -> (r: Option<(Ipv4, usize)>)
    ensures
        match r {
            Some(p) => spec_decode_head(s@) == Some((p.0, p.1 as int)) && p.1 <= s@.len(),
            None => spec_decode_head(s@) is None,
        },
{
    let head_lit: Vec<u8> = vec![123u8, 34u8, 105u8, 112u8, 34u8, 58u8, 34u8];
    proof {
        reveal_keys();
        assert(head_lit@ =~= lit_ip_key() + seq![34u8]);
    }
    let j0 = match match_lit(s, 0, head_lit.as_slice()) {
        Some(j) => j,
        None => {
            return None;
        },
    };
    let (ip_text, e0) = match scan_string(s, j0) {
        Some(p) => p,
        None => {
            return None;
        },
    };
    proof {
        lemma_scan_string_in_range(s@, j0 as int);
    }
    match crate::addr::parse_ipv4(ip_text.as_slice()) {
        Some(v) => Some((v, e0)),
        None => None,
    }
}

/// Reads the port field at `i`.
fn decode_port(s: &[u8], i: usize) -> (r: Option<(u16, usize)>)
    requires
        i <= s@.len(),
    ensures
        match r {
            Some(p) => spec_decode_port(s@, i as int) == Some((p.0, p.1 as int)) && p.1
                <= s@.len(),
            None => spec_decode_port(s@, i as int) is None,
        },
{
    let port_lit: Vec<u8> = vec![44u8, 34u8, 112u8, 111u8, 114u8, 116u8, 34u8, 58u8];
    proof {
        reveal_keys();
        assert(port_lit@ =~= lit_port_key());
    }
    let j1 = match match_lit(s, i, port_lit.as_slice()) {
        Some(j) => j,
        None => {
            return None;
        },
    };
    let (port64, e1) = match parse_u64_at(s, j1) {
        Some(p) => p,
        None => {
            return None;
        },
    };
    proof {
        lemma_scan_digits_in_range(s@, j1 as int);
    }
    if port64 > 65535 {
        return None;
    }
    Some((port64 as u16, e1))
}

/// Reads the geo field at `i`.
fn decode_geo_field(s: &[u8], i: usize) -> (r: Option<(JsonGeo, usize)>)
    requires
        i <= s@.len(),
    ensures
        match r {
            Some(p) => spec_decode_geo_field(s@, i as int) == Some(
                (dec_geo_view(p.0), p.1 as int),
            ) && p.1 <= s@.len(),
            None => spec_decode_geo_field(s@, i as int) is None,
        },
{
    let geo_lit: Vec<u8> = vec![44u8, 34u8, 103u8, 101u8, 111u8, 34u8, 58u8];
    proof {
        reveal_keys();
        assert(geo_lit@ =~= lit_geo_key());
    }
    let j2 = match match_lit(s, i, geo_lit.as_slice()) {
        Some(j) => j,
        None => {
            return None;
        },
    };
    let r = parse_geo_at(s, j2);
    proof {
        lemma_parse_geo_in_range(s@, j2 as int);
    }
    r
}

/// Reads the average field at `i`.
fn decode_avg(s: &[u8], i: usize) -> (r: Option<(u64, usize)>)
    requires
        i <= s@.len(),
    ensures
        match r {
            Some(p) => spec_decode_avg(s@, i as int) == Some((p.0, p.1 as int)) && p.1
                <= s@.len(),
            None => spec_decode_avg(s@, i as int) is None,
        },
{
    let avg_lit: Vec<u8> = vec![
        44u8,
        34u8,
        97u8,
        118u8,
        101u8,
        114u8,
        97u8,
        103u8,
        101u8,
        95u8,
        114u8,
        101u8,
        115u8,
        112u8,
        111u8,
        110u8,
        115u8,
        101u8,
        95u8,
        116u8,
        105u8,
        109u8,
        101u8,
        34u8,
        58u8,
    ];
    proof {
        reveal_keys();
        assert(avg_lit@ =~= lit_avg_key());
    }
    let j3 = match match_lit(s, i, avg_lit.as_slice()) {
        Some(j) => j,
        None => {
            return None;
        },
    };
    let r = parse_decimal_at(s, j3, 6);
    proof {
        lemma_parse_decimal_in_range(s@, j3 as int, 6);
    }
    r
}

/// Reads the types field at `i`.
fn decode_types_field(s: &[u8], i: usize) -> (r: Option<(Vec<JsonProxyType>, usize)>)
    requires
        i <= s@.len(),
    ensures
        match r {
            Some(p) => spec_decode_types(s@, i as int) == Some((p.0@, p.1 as int)) && p.1
                <= s@.len(),
            None => spec_decode_types(s@, i as int) is None,
        },
{
    let types_lit: Vec<u8> = vec![44u8, 34u8, 116u8, 121u8, 112u8, 101u8, 115u8, 34u8, 58u8];
    proof {
        reveal_keys();
        assert(types_lit@ =~= lit_types_key());
    }
    let j4 = match match_lit(s, i, types_lit.as_slice()) {
        Some(j) => j,
        None => {
            return None;
        },
    };
    let r = parse_types_at(s, j4);
    proof {
        lemma_parse_types_in_range(s@, j4 as int);
    }
    r
}

/// Reads a whole proxy record out of its JSON bytes; the record must
/// fill the input exactly.
#[verifier::rlimit(100)]
#[verifier::spinoff_prover]
pub fn decode_json(s: &[u8]) -> (r: Option<JsonProxy>)
    ensures
        match r {
            Some(p) => spec_decode_proxy(s@) == Some(dec_view(p)),
            None => spec_decode_proxy(s@) is None,
        },
{
    let (ip, e0) = match decode_head(s) {
        Some(p) => p,
        None => {
            return None;
        },
    };
    let (port, e1) = match decode_port(s, e0) {
        Some(p) => p,
        None => {
            return None;
        },
    };
    let (geo, e2) = match decode_geo_field(s, e1) {
        Some(p) => p,
        None => {
            return None;
        },
    };
    let (avg, e3) = match decode_avg(s, e2) {
        Some(p) => p,
        None => {
            return None;
        },
    };
    let (types, e4) = match decode_types_field(s, e3) {
        Some(p) => p,
        None => {
            return None;
        },
    };
    if e4 < s.len() && e4 + 1 == s.len() && s[e4] == 125 {
        Some(JsonProxy { ip, port, geo, average_response_time: avg, types })
    } else {
        None
    }
}

/// A parsed geo object ends inside the input.
proof fn lemma_parse_geo_in_range(s: Seq<u8>, i: int)
    ensures
        spec_parse_geo(s, i) matches Some(p) ==> p.1 <= s.len(),
{
}

/// A parsed types array ends inside the input.
proof fn lemma_parse_types_in_range(s: Seq<u8>, i: int)
    ensures
        spec_parse_types(s, i) matches Some(p) ==> p.1 <= s.len(),
{
    lemma_parse_types_items_in_range(s, i + 1, s.len() as nat);
}

/// Parsed array items end inside the input.
proof fn lemma_parse_types_items_in_range(s: Seq<u8>, i: int, fuel: nat)
    ensures
        spec_parse_types_items(s, i, fuel) matches Some(p) ==> p.1 <= s.len(),
    decreases fuel,
{
    if fuel > 0 {
        match spec_parse_ptype(s, i) {
            Some(vp) => {
                lemma_parse_types_items_in_range(s, vp.1 + 1, (fuel - 1) as nat);
            },
            None => {},
        }
    }
}

/// Escaping leaves a string of plain bytes unchanged.
proof fn lemma_escape_plain(x: Seq<u8>)
    requires
        forall|k: int| 0 <= k < x.len() ==> 32 <= #[trigger] x[k] && x[k] != 34 && x[k] != 92,
    ensures
        spec_escape(x) == x,
    decreases x.len(),
{
    if x.len() == 0 {
        assert(spec_escape(x) =~= x);
    } else {
        lemma_escape_plain(x.drop_first());
        assert(esc_byte(x[0]) =~= seq![x[0]]);
        assert(spec_escape(x) =~= x);
    }
}

/// Scanning undoes escaping: with the escaped body of `x` at `i` and the
/// closing quote right after it, the scan yields `x` and stops past the
/// quote.
proof fn lemma_scan_escaped(x: Seq<u8>, s: Seq<u8>, i: int)
    requires
        0 <= i,
        i + spec_escape(x).len() + 1 <= s.len(),
        s.subrange(i, i + spec_escape(x).len()) == spec_escape(x),
        s[i + spec_escape(x).len()] == 34,
    ensures
        spec_scan_string(s, i) == Some((x, i + spec_escape(x).len() + 1)),
    decreases x.len(),
{
    let e = spec_escape(x);
    if x.len() == 0 {
        assert(e =~= Seq::<u8>::empty());
        assert(s[i] == 34);
    } else {
        let b = x[0];
        let eb = esc_byte(b);
        let rest = x.drop_first();
        let erest = spec_escape(rest);
        assert(e == eb + erest);
        assert forall|k: int| 0 <= k < eb.len() implies s[i + k] == eb[k] by {
            assert(s.subrange(i, i + e.len())[k] == s[i + k]);
            assert(e[k] == eb[k]);
        }
        assert(s[i] == eb[0]) by {
            assert(s[i + 0] == eb[0]);
        }
        assert(s.subrange(i + eb.len(), i + eb.len() + erest.len()) =~= erest) by {
            assert forall|k: int| 0 <= k < erest.len() implies s.subrange(
                i + eb.len(),
                i + eb.len() + erest.len(),
            )[k] == erest[k] by {
                assert(s.subrange(i + eb.len(), i + eb.len() + erest.len())[k] == s[i + eb.len()
                    + k]);
                assert(s.subrange(i, i + e.len())[eb.len() + k] == s[i + eb.len() + k]);
                assert(e[eb.len() + k] == erest[k]);
            }
        }
        assert(s[i + eb.len() + erest.len()] == 34);
        lemma_scan_escaped(rest, s, i + eb.len());
        if b == 34 {
            assert(s[i] == 92 && s[i + 1] == 34);
            assert(seq![s[i + 1]] + rest =~= x);
        } else if b == 92 {
            assert(s[i] == 92 && s[i + 1] == 92);
            assert(seq![s[i + 1]] + rest =~= x);
        } else if b < 32 {
            assert(s[i] == 92 && s[i + 1] == 117 && s[i + 2] == 48 && s[i + 3] == 48);
            assert(s[i + 4] == hex_digit(b as int / 16));
            assert(s[i + 5] == hex_digit(b as int % 16));
            assert(hex_val(hex_digit(b as int / 16)) == Some(b as int / 16));
            assert(hex_val(hex_digit(b as int % 16)) == Some(b as int % 16));
            assert((b as int / 16) * 16 + b as int % 16 == b as int);
            assert(seq![(hex_val(s[i + 4])->Some_0 * 16 + hex_val(s[i + 5])->Some_0) as u8] + rest
                =~= x);
        } else {
            assert(s[i] == b);
            assert(b != 34 && b != 92);
            assert(seq![s[i]] + rest =~= x);
        }
    }
}

/// A JSON string at `i` scans back to its content.
proof fn lemma_scan_json_string(x: Seq<u8>, s: Seq<u8>, i: int)
    requires
        0 <= i,
        i + spec_json_string(x).len() <= s.len(),
        s.subrange(i, i + spec_json_string(x).len()) == spec_json_string(x),
    ensures
        s[i] == 34,
        spec_scan_string(s, i + 1) == Some((x, i + spec_json_string(x).len())),
{
    let e = spec_escape(x);
    let enc = spec_json_string(x);
    assert(s[i] == 34) by {
        assert(s.subrange(i, i + enc.len())[0] == s[i]);
        assert(enc[0] == 34);
    }
    assert forall|k: int| 0 <= k < e.len() implies s.subrange(i + 1, i + 1 + e.len())[k]
        == e[k] by {
        assert(s.subrange(i + 1, i + 1 + e.len())[k] == s[i + 1 + k]);
        assert(s.subrange(i, i + enc.len())[1 + k] == s[i + 1 + k]);
        assert(enc[1 + k] == e[k]);
    }
    assert(s.subrange(i + 1, i + 1 + e.len()) =~= e);
    assert(s[i + 1 + e.len()] == 34) by {
        assert(s.subrange(i, i + enc.len())[1 + e.len() as int] == s[i + 1 + e.len()]);
        assert(enc[1 + e.len() as int] == 34);
    }
    lemma_scan_escaped(x, s, i + 1);
}

/// A digit run at `i`, followed by a non-digit, is exactly what the
/// digit scan passes over.
proof fn lemma_scan_digits_at(s: Seq<u8>, i: int, d: Seq<u8>)
    requires
        0 <= i,
        i + d.len() <= s.len(),
        s.subrange(i, i + d.len()) == d,
        all_digits(d),
        i + d.len() == s.len() || !is_digit(s[i + d.len()]),
    ensures
        spec_scan_digits_end(s, i) == i + d.len(),
    decreases d.len(),
{
    if d.len() == 0 {
    } else {
        assert(s[i] == d[0]) by {
            assert(s.subrange(i, i + d.len())[0] == s[i]);
        }
        assert(is_digit(d[0]));
        assert(s.subrange(i + 1, i + d.len()) =~= d.drop_first()) by {
            assert forall|k: int| 0 <= k < d.len() - 1 implies s.subrange(i + 1, i + d.len())[k]
                == d.drop_first()[k] by {
                assert(s.subrange(i, i + d.len())[k + 1] == s[i + 1 + k]);
            }
        }
        lemma_scan_digits_at(s, i + 1, d.drop_first());
    }
}

/// The decimal rendering of `n` at `i`, followed by a non-digit, parses
/// back to `n`.
proof fn lemma_parse_u64_render(s: Seq<u8>, i: int, n: u64)
    requires
        n < crate::text::pow10(19),
        0 <= i,
        i + spec_render_nat(n as nat).len() <= s.len(),
        s.subrange(i, i + spec_render_nat(n as nat).len()) == spec_render_nat(n as nat),
        i + spec_render_nat(n as nat).len() == s.len() || !is_digit(
            s[i + spec_render_nat(n as nat).len()],
        ),
    ensures
        spec_parse_u64(s, i) == Some((n, i + spec_render_nat(n as nat).len())),
{
    let d = spec_render_nat(n as nat);
    crate::text::lemma_render_nat_digits(n as nat);
    crate::text::lemma_pow10_vals_big();
    crate::text::lemma_render_nat_len(n as nat, crate::text::pow10(19), 19);
    lemma_scan_digits_at(s, i, d);
    assert(digits_val(s.subrange(i, i + d.len())) == n as nat);
}

/// The padded digits spell the low digits of the value.
proof fn lemma_pad_digits(n: nat, w: nat)
    ensures
        spec_pad(n, w).len() == w,
        all_digits(spec_pad(n, w)),
        digits_val(spec_pad(n, w)) == n % crate::text::pow10(w),
    decreases w,
{
    if w == 0 {
        assert(n % 1 == 0) by {
            vstd::arithmetic::div_mod::lemma_mod_multiples_basic(n as int, 1int);
        }
    } else {
        lemma_pad_digits(n / 10, (w - 1) as nat);
        crate::text::lemma_digits_val_push(spec_pad(n / 10, (w - 1) as nat), (48 + n % 10) as u8);
        let pw1 = crate::text::pow10((w - 1) as nat);
        assert(pw1 >= 1) by {
            crate::text::lemma_pow10_increases(0, (w - 1) as nat);
        }
        assert(crate::text::pow10(w) == pw1 * 10);
        vstd::arithmetic::div_mod::lemma_breakdown(n as int, 10, pw1 as int);
        assert((n as int) % (10 * pw1 as int) == 10 * (((n as int) / 10) % (pw1 as int)) + (
        n as int) % 10);
        assert(pw1 * 10 == 10 * pw1) by (nonlinear_arith);
        assert(all_digits(spec_pad(n, w))) by {
            assert(forall|k: int|
                0 <= k < w - 1 ==> spec_pad(n, w)[k] == spec_pad(n / 10, (w - 1) as nat)[k]);
        }
    }
}

/// An encoded decimal at `i`, followed by a non-digit, parses back to
/// `units * 10^w + frac`.
proof fn lemma_parse_decimal_enc(s: Seq<u8>, i: int, units: u64, frac: u64, w: nat)
    requires
        0 <= i,
        1 <= w,
        frac < crate::text::pow10(w),
        (units as nat) * crate::text::pow10(w) + frac <= u64::MAX,
        i + spec_json_decimal(units as nat, frac as nat, w).len() <= s.len(),
        s.subrange(i, i + spec_json_decimal(units as nat, frac as nat, w).len())
            == spec_json_decimal(units as nat, frac as nat, w),
        i + spec_json_decimal(units as nat, frac as nat, w).len() == s.len() || !is_digit(
            s[i + spec_json_decimal(units as nat, frac as nat, w).len()],
        ),
    ensures
        spec_parse_decimal(s, i, w) == Some(
            (((units as nat) * crate::text::pow10(w) + frac) as u64, i + spec_json_decimal(
                units as nat,
                frac as nat,
                w,
            ).len()),
        ),
{
    let ru = spec_render_nat(units as nat);
    let pd = spec_pad(frac as nat, w);
    let enc = spec_json_decimal(units as nat, frac as nat, w);
    lemma_pad_digits(frac as nat, w);
    assert forall|k: int| 0 <= k < enc.len() implies s[i + k] == enc[k] by {
        assert(s.subrange(i, i + enc.len())[k] == s[i + k]);
    }
    assert(s.subrange(i, i + ru.len()) =~= ru) by {
        assert(forall|k: int| 0 <= k < ru.len() ==> #[trigger] enc[k] == ru[k]);
    }
    assert(s[i + ru.len()] == 46) by {
        assert((ru + seq![46u8])[ru.len() as int] == 46);
        assert(enc[ru.len() as int] == (ru + seq![46u8])[ru.len() as int]);
    }
    assert(units < crate::text::pow10(19)) by {
        crate::text::lemma_pow10_vals();
        crate::text::lemma_pow10_vals_big();
        crate::text::lemma_pow10_increases(1, w);
        assert((units as nat) * crate::text::pow10(w) >= (units as nat) * 10) by (nonlinear_arith)
            requires
                crate::text::pow10(w) >= 10,
        ;
    }
    lemma_parse_u64_render(s, i, units);
    let j = i + ru.len();
    assert forall|k: int| 0 <= k < w implies s.subrange(j + 1, j + 1 + w as int)[k] == pd[k] by {
        assert(s.subrange(j + 1, j + 1 + w as int)[k] == s[j + 1 + k]);
        assert(s[i + (ru.len() + 1 + k)] == enc[ru.len() as int + 1 + k]);
        assert(((ru + seq![46u8]) + pd)[ru.len() as int + 1 + k] == pd[k]);
    }
    assert(s.subrange(j + 1, j + 1 + w as int) =~= pd);
    lemma_scan_digits_at(s, j + 1, pd);
    assert(digits_val(s.subrange(j + 1, j + 1 + w as int)) == frac as nat % crate::text::pow10(w));
    assert(frac as nat % crate::text::pow10(w) == frac as nat) by (nonlinear_arith)
        requires
            0 <= frac < crate::text::pow10(w),
    ;
}

/// A part of an encoding placed at `i` stands at its offset in `s`.
proof fn lemma_part_at(s: Seq<u8>, i: int, enc: Seq<u8>, off: int, part: Seq<u8>)
    requires
        0 <= i,
        i + enc.len() <= s.len(),
        s.subrange(i, i + enc.len()) == enc,
        0 <= off,
        off + part.len() <= enc.len(),
        enc.subrange(off, off + part.len()) == part,
    ensures
        s.subrange(i + off, i + off + part.len()) == part,
{
    assert forall|k: int| 0 <= k < part.len() implies s.subrange(
        i + off,
        i + off + part.len(),
    )[k] == part[k] by {
        assert(s.subrange(i + off, i + off + part.len())[k] == s[i + off + k]);
        assert(s.subrange(i, i + enc.len())[off + k] == s[i + off + k]);
        assert(enc.subrange(off, off + part.len())[k] == enc[off + k]);
    }
    assert(s.subrange(i + off, i + off + part.len()) =~= part);
}

/// A concatenation placed at `i` splits into its halves in place.
proof fn lemma_split2(s: Seq<u8>, i: int, a: Seq<u8>, b: Seq<u8>)
    requires
        0 <= i,
        i + a.len() + b.len() <= s.len(),
        s.subrange(i, i + a.len() + b.len()) == a + b,
    ensures
        s.subrange(i, i + a.len()) == a,
        s.subrange(i + a.len(), i + a.len() + b.len()) == b,
{
    let w = s.subrange(i, i + a.len() + b.len());
    assert forall|k: int| 0 <= k < a.len() implies s.subrange(i, i + a.len())[k] == a[k] by {
        assert(s.subrange(i, i + a.len())[k] == s[i + k]);
        assert(w[k] == s[i + k]);
        assert((a + b)[k] == a[k]);
    }
    assert(s.subrange(i, i + a.len()) =~= a);
    assert forall|k: int| 0 <= k < b.len() implies s.subrange(
        i + a.len(),
        i + a.len() + b.len(),
    )[k] == b[k] by {
        assert(s.subrange(i + a.len(), i + a.len() + b.len())[k] == s[i + a.len() + k]);
        assert(w[a.len() + k] == s[i + a.len() + k]);
        assert((a + b)[a.len() + k] == b[k]);
    }
    assert(s.subrange(i + a.len(), i + a.len() + b.len()) =~= b);
}

/// A byte of an encoding placed at `i` stands at its offset in `s`.
proof fn lemma_byte_at(s: Seq<u8>, i: int, enc: Seq<u8>, off: int)
    requires
        0 <= i,
        i + enc.len() <= s.len(),
        s.subrange(i, i + enc.len()) == enc,
        0 <= off < enc.len(),
    ensures
        s[i + off] == enc[off],
{
    assert(s.subrange(i, i + enc.len())[off] == s[i + off]);
}

/// An encoded protocol at `i` parses back to itself.
#[verifier::rlimit(100)]
proof fn lemma_protocol_rt(s: Seq<u8>, i: int, p: Protocol)
    requires
        0 <= i,
        i + spec_json_protocol(p).len() <= s.len(),
        s.subrange(i, i + spec_json_protocol(p).len()) == spec_json_protocol(p),
    ensures
        spec_parse_protocol(s, i) == Some((p, i + spec_json_protocol(p).len())),
{
    let enc = spec_json_protocol(p);
    crate::text::lemma_pow10_vals();
    crate::text::lemma_pow10_vals_big();
    match p {
        Protocol::Https => {
            let name = seq![72u8, 116u8, 116u8, 112u8, 115u8];
            lemma_escape_plain(name);
            assert(enc =~= spec_json_string(name));
            lemma_scan_json_string(name, s, i);
        },
        Protocol::Socks4 => {
            let name = seq![83u8, 111u8, 99u8, 107u8, 115u8, 52u8];
            lemma_escape_plain(name);
            assert(enc =~= spec_json_string(name));
            lemma_scan_json_string(name, s, i);
        },
        Protocol::Socks5 => {
            let name = seq![83u8, 111u8, 99u8, 107u8, 115u8, 53u8];
            lemma_escape_plain(name);
            assert(enc =~= spec_json_string(name));
            lemma_scan_json_string(name, s, i);
        },
        Protocol::Http(a) => {
            let lit = seq![123u8, 34u8, 72u8, 116u8, 116u8, 112u8, 34u8, 58u8, 34u8];
            let label = a.spec_label();
            lemma_byte_at(s, i, enc, 0);
            assert(enc.subrange(0, 9) =~= lit);
            lemma_part_at(s, i, enc, 0, lit);
            assert(spec_match_lit(s, i, lit) == Some(i + 9));
            lemma_escape_plain(label);
            assert(enc.subrange(9, 9 + label.len() as int) =~= label);
            lemma_part_at(s, i, enc, 9, label);
            lemma_byte_at(s, i, enc, 9 + label.len() as int);
            assert(enc[9 + label.len() as int] == 34);
            lemma_scan_escaped(label, s, i + 9);
            assert(spec_anon_name(label) == Some(a));
            lemma_byte_at(s, i, enc, enc.len() - 1);
            assert(enc[enc.len() - 1] == 125);
        },
        Protocol::Connect(port) => {
            let lit = seq![123u8, 34u8, 67u8, 111u8, 110u8, 110u8, 101u8, 99u8, 116u8, 34u8, 58u8];
            let rp = spec_render_nat(port as nat);
            lemma_byte_at(s, i, enc, 0);
            lemma_byte_at(s, i, enc, 2);
            assert(enc[2] == 67);
            assert(spec_match_lit(
                s,
                i,
                seq![123u8, 34u8, 72u8, 116u8, 116u8, 112u8, 34u8, 58u8, 34u8],
            ) is None) by {
                if spec_match_lit(
                    s,
                    i,
                    seq![123u8, 34u8, 72u8, 116u8, 116u8, 112u8, 34u8, 58u8, 34u8],
                ) is Some {
                    assert(s.subrange(i, i + 9)[2] == s[i + 2]);
                }
            }
            assert(enc.subrange(0, 11) =~= lit);
            lemma_part_at(s, i, enc, 0, lit);
            assert(spec_match_lit(s, i, lit) == Some(i + 11));
            assert(enc.subrange(11, 11 + rp.len() as int) =~= rp);
            lemma_part_at(s, i, enc, 11, rp);
            lemma_byte_at(s, i, enc, enc.len() - 1);
            assert(enc[enc.len() - 1] == 125);
            assert(!is_digit(s[i + 11 + rp.len()]));
            lemma_parse_u64_render(s, i + 11, port as u64);
        },
    }
}

/// What a proxy type decodes to.
pub open spec fn jtype_of(t: ProxyType) -> JsonProxyType {
    JsonProxyType { protocol: t.protocol, checked: t.checked, checked_on: t.checked_on }
}

/// An encoded proxy type at `i` parses back to itself.
#[verifier::rlimit(100)]
#[verifier::spinoff_prover]
proof fn lemma_ptype_rt(s: Seq<u8>, i: int, t: ProxyType)
    requires
        0 <= i,
        i + spec_json_ptype(t).len() <= s.len(),
        s.subrange(i, i + spec_json_ptype(t).len()) == spec_json_ptype(t),
    ensures
        spec_parse_ptype(s, i) == Some((jtype_of(t), i + spec_json_ptype(t).len())),
{
    let enc = spec_json_ptype(t);
    let pe = spec_json_protocol(t.protocol);
    let be: Seq<u8> = if t.checked {
        seq![116u8, 114u8, 117u8, 101u8]
    } else {
        seq![102u8, 97u8, 108u8, 115u8, 101u8]
    };
    let de = spec_json_decimal(t.checked_on as nat / 1000, t.checked_on as nat % 1000, 3);
    let o1 = lit_protocol_key().len() as int;
    let o2 = o1 + pe.len();
    let o3 = o2 + lit_checked_key().len();
    let o4 = o3 + be.len();
    let o5 = o4 + lit_checked_on_key().len();
    let o6 = o5 + de.len();
    assert(enc.len() == o6 + 1);
    assert(enc.subrange(0, o1) =~= lit_protocol_key());
    lemma_part_at(s, i, enc, 0, lit_protocol_key());
    assert(spec_match_lit(s, i, lit_protocol_key()) == Some(i + o1));
    assert(enc.subrange(o1, o2) =~= pe);
    lemma_part_at(s, i, enc, o1, pe);
    lemma_protocol_rt(s, i + o1, t.protocol);
    assert(enc.subrange(o2, o3) =~= lit_checked_key());
    lemma_part_at(s, i, enc, o2, lit_checked_key());
    assert(spec_match_lit(s, i + o2, lit_checked_key()) == Some(i + o3));
    assert(enc.subrange(o3, o4) =~= be);
    lemma_part_at(s, i, enc, o3, be);
    if t.checked {
        assert(spec_match_lit(s, i + o3, seq![116u8, 114u8, 117u8, 101u8]) == Some(i + o4));
    } else {
        assert(spec_match_lit(s, i + o3, seq![116u8, 114u8, 117u8, 101u8]) is None) by {
            if spec_match_lit(s, i + o3, seq![116u8, 114u8, 117u8, 101u8]) is Some {
                assert(s.subrange(i + o3, i + o3 + 4)[0] == s[i + o3]);
                lemma_byte_at(s, i, enc, o3);
                assert(enc[o3] == 102);
            }
        }
        assert(spec_match_lit(s, i + o3, seq![102u8, 97u8, 108u8, 115u8, 101u8]) == Some(i + o4));
    }
    assert(enc.subrange(o4, o5) =~= lit_checked_on_key());
    lemma_part_at(s, i, enc, o4, lit_checked_on_key());
    assert(spec_match_lit(s, i + o4, lit_checked_on_key()) == Some(i + o5));
    assert(enc.subrange(o5, o6) =~= de);
    lemma_part_at(s, i, enc, o5, de);
    lemma_byte_at(s, i, enc, o6);
    assert(enc[o6] == 125);
    crate::text::lemma_pow10_vals();
    let units = t.checked_on / 1000;
    let frac = t.checked_on % 1000;
    assert((units as nat) * 1000 + frac == t.checked_on) by (nonlinear_arith)
        requires
            units == t.checked_on / 1000,
            frac == t.checked_on % 1000,
    ;
    lemma_parse_decimal_enc(s, i + o5, units, frac, 3);
}

/// What a list of proxy types decodes to.
pub open spec fn jtypes_of(ts: Seq<ProxyType>) -> Seq<JsonProxyType> {
    ts.map_values(|t: ProxyType| jtype_of(t))
}

/// The encoded items are at least as long as the list.
proof fn lemma_items_len(ts: Seq<ProxyType>)
    ensures
        spec_json_types_items(ts).len() >= ts.len(),
        ts.len() > 0 ==> spec_json_types_items(ts)[0] == 123,
    decreases ts.len(),
{
    reveal_keys();
    if ts.len() == 0 {
    } else if ts.len() == 1 {
        assert(spec_json_ptype(ts[0])[0] == lit_protocol_key()[0]);
    } else {
        lemma_items_len(ts.drop_first());
        assert(spec_json_ptype(ts[0])[0] == lit_protocol_key()[0]);
        assert(spec_json_types_items(ts)[0] == spec_json_ptype(ts[0])[0]);
    }
}

/// Encoded items at `i`, with the closing bracket right after, parse
/// back to the list.
proof fn lemma_items_rt(s: Seq<u8>, i: int, ts: Seq<ProxyType>, fuel: nat)
    requires
        ts.len() >= 1,
        fuel >= ts.len(),
        0 <= i,
        i + spec_json_types_items(ts).len() + 1 <= s.len(),
        s.subrange(i, i + spec_json_types_items(ts).len()) == spec_json_types_items(ts),
        s[i + spec_json_types_items(ts).len()] == 93,
    ensures
        spec_parse_types_items(s, i, fuel) == Some(
            (jtypes_of(ts), i + spec_json_types_items(ts).len() + 1),
        ),
    decreases ts.len(),
{
    let items = spec_json_types_items(ts);
    let e0 = spec_json_ptype(ts[0]);
    if ts.len() == 1 {
        assert(items =~= e0);
        lemma_ptype_rt(s, i, ts[0]);
        assert(jtypes_of(ts) =~= seq![jtype_of(ts[0])]);
    } else {
        let rest = ts.drop_first();
        let irest = spec_json_types_items(rest);
        assert(items == e0 + seq![44u8] + irest);
        assert(items.subrange(0, e0.len() as int) =~= e0);
        lemma_part_at(s, i, items, 0, e0);
        lemma_ptype_rt(s, i, ts[0]);
        lemma_byte_at(s, i, items, e0.len() as int);
        assert(items[e0.len() as int] == 44) by {
            assert((e0 + seq![44u8])[e0.len() as int] == 44);
            assert(items[e0.len() as int] == (e0 + seq![44u8])[e0.len() as int]);
        }
        assert(items.subrange(e0.len() as int + 1, e0.len() as int + 1 + irest.len() as int)
            =~= irest);
        lemma_part_at(s, i, items, e0.len() as int + 1, irest);
        assert(s[i + e0.len() as int + 1 + irest.len() as int] == 93);
        lemma_items_rt(s, i + e0.len() as int + 1, rest, (fuel - 1) as nat);
        assert(jtypes_of(ts) =~= seq![jtype_of(ts[0])] + jtypes_of(rest));
    }
}

/// An encoded string field at `i` parses back to its content.
proof fn lemma_opt_string_rt(s: Seq<u8>, i: int, x: Option<Seq<u8>>)
    requires
        0 <= i,
        i + spec_json_opt_string(x).len() <= s.len(),
        s.subrange(i, i + spec_json_opt_string(x).len()) == spec_json_opt_string(x),
    ensures
        spec_parse_opt_string(s, i) == Some((x, i + spec_json_opt_string(x).len())),
{
    let enc = spec_json_opt_string(x);
    match x {
        Some(v) => {
            lemma_scan_json_string(v, s, i);
        },
        None => {
            lemma_byte_at(s, i, enc, 0);
            assert(enc[0] == 110);
            assert(spec_match_lit(s, i, seq![110u8, 117u8, 108u8, 108u8]) == Some(i + 4));
        },
    }
}

/// An encoded geo object at `i` parses back to its fields.
#[verifier::rlimit(100)]
#[verifier::spinoff_prover]
proof fn lemma_geo_rt(s: Seq<u8>, i: int, g: GeoData)
    requires
        0 <= i,
        i + spec_json_geo(g).len() <= s.len(),
        s.subrange(i, i + spec_json_geo(g).len()) == spec_json_geo(g),
    ensures
        spec_parse_geo(s, i) == Some(
            (
                DecGeo {
                    iso_code: opt_str_bytes(g.iso_code),
                    name: opt_str_bytes(g.name),
                    region_iso_code: opt_str_bytes(g.region_iso_code),
                    region_name: opt_str_bytes(g.region_name),
                    city_name: opt_str_bytes(g.city_name),
                },
                i + spec_json_geo(g).len(),
            ),
        ),
{
    let v1 = spec_json_opt_string(opt_str_bytes(g.iso_code));
    let v2 = spec_json_opt_string(opt_str_bytes(g.name));
    let v3 = spec_json_opt_string(opt_str_bytes(g.region_iso_code));
    let v4 = spec_json_opt_string(opt_str_bytes(g.region_name));
    let v5 = spec_json_opt_string(opt_str_bytes(g.city_name));
    let x1 = lit_geo_iso_key() + v1;
    let x2 = x1 + lit_geo_name_key();
    let x3 = x2 + v2;
    let x4 = x3 + lit_geo_region_iso_key();
    let x5 = x4 + v3;
    let x6 = x5 + lit_geo_region_name_key();
    let x7 = x6 + v4;
    let x8 = x7 + lit_geo_city_key();
    let x9 = x8 + v5;
    assert(spec_json_geo(g) == x9 + seq![125u8]);
    lemma_split2(s, i, x9, seq![125u8]);
    assert(s[i + x9.len()] == 125) by {
        assert(s.subrange(i + x9.len(), i + x9.len() + 1int)[0] == s[i + x9.len()]);
    }
    lemma_split2(s, i, x8, v5);
    lemma_split2(s, i, x7, lit_geo_city_key());
    lemma_split2(s, i, x6, v4);
    lemma_split2(s, i, x5, lit_geo_region_name_key());
    lemma_split2(s, i, x4, v3);
    lemma_split2(s, i, x3, lit_geo_region_iso_key());
    lemma_split2(s, i, x2, v2);
    lemma_split2(s, i, x1, lit_geo_name_key());
    lemma_split2(s, i, lit_geo_iso_key(), v1);
    assert(spec_match_lit(s, i, lit_geo_iso_key()) == Some(i + lit_geo_iso_key().len()));
    lemma_opt_string_rt(s, i + lit_geo_iso_key().len(), opt_str_bytes(g.iso_code));
    assert(spec_match_lit(s, i + x1.len(), lit_geo_name_key()) == Some(i + x2.len()));
    lemma_opt_string_rt(s, i + x2.len(), opt_str_bytes(g.name));
    assert(spec_match_lit(s, i + x3.len(), lit_geo_region_iso_key()) == Some(i + x4.len()));
    lemma_opt_string_rt(s, i + x4.len(), opt_str_bytes(g.region_iso_code));
    assert(spec_match_lit(s, i + x5.len(), lit_geo_region_name_key()) == Some(i + x6.len()));
    lemma_opt_string_rt(s, i + x6.len(), opt_str_bytes(g.region_name));
    assert(spec_match_lit(s, i + x7.len(), lit_geo_city_key()) == Some(i + x8.len()));
    lemma_opt_string_rt(s, i + x8.len(), opt_str_bytes(g.city_name));
}

/// An encoded types array at `i` parses back to the list.
#[verifier::rlimit(100)]
#[verifier::spinoff_prover]
proof fn lemma_types_arr_rt(s: Seq<u8>, i: int, ts: Seq<ProxyType>)
    requires
        0 <= i,
        i + spec_json_types(ts).len() <= s.len(),
        s.subrange(i, i + spec_json_types(ts).len()) == spec_json_types(ts),
    ensures
        spec_parse_types(s, i) == Some((jtypes_of(ts), i + spec_json_types(ts).len())),
{
    let items = spec_json_types_items(ts);
    let te = spec_json_types(ts);
    assert(te == seq![91u8] + items + seq![93u8]);
    lemma_split2(s, i, seq![91u8] + items, seq![93u8]);
    lemma_split2(s, i, seq![91u8], items);
    assert(s[i] == 91) by {
        assert(s.subrange(i, i + 1)[0] == s[i]);
    }
    assert(s[i + 1 + items.len()] == 93) by {
        assert(s.subrange(i + 1 + items.len() as int, i + 2 + items.len() as int)[0] == s[i + 1
            + items.len() as int]);
    }
    if ts.len() == 0 {
        assert(items =~= Seq::<u8>::empty());
        assert(s[i + 1] == 93);
        assert(jtypes_of(ts) =~= Seq::<JsonProxyType>::empty());
    } else {
        lemma_items_len(ts);
        assert(s[i + 1] == items[0]) by {
            assert(s.subrange(i + 1, i + 1 + items.len())[0] == s[i + 1]);
        }
        assert(s[i + 1] != 93);
        lemma_items_rt(s, i + 1, ts, s.len() as nat);
    }
}

/// Offsets of the fields inside an encoded proxy record.
pub open spec fn off_port(p: Proxy) -> int {
    (lit_ip_key() + seq![34u8] + p.ip.spec_render() + seq![34u8]).len() as int
}

/// Offset of the geo field.
pub open spec fn off_geo(p: Proxy) -> int {
    off_port(p) + lit_port_key().len() + spec_render_nat(p.port as nat).len()
}

/// Offset of the average field.
pub open spec fn off_avg(p: Proxy) -> int {
    off_geo(p) + lit_geo_key().len() + spec_json_geo(p.geo).len()
}

/// Offset of the types field.
pub open spec fn off_types(p: Proxy) -> int {
    off_avg(p) + lit_avg_key().len() + spec_json_decimal(
        spec_avg_us(p) / 1000000,
        spec_avg_us(p) % 1000000,
        6,
    ).len()
}

/// Offset of the closing brace.
pub open spec fn off_end(p: Proxy) -> int {
    off_types(p) + lit_types_key().len() + spec_json_types(p.types@).len()
}

/// The geo record a decoded proxy carries.
pub open spec fn dec_geo_of(g: GeoData) -> DecGeo {
    DecGeo {
        iso_code: opt_str_bytes(g.iso_code),
        name: opt_str_bytes(g.name),
        region_iso_code: opt_str_bytes(g.region_iso_code),
        region_name: opt_str_bytes(g.region_name),
        city_name: opt_str_bytes(g.city_name),
    }
}

/// The address of an encoded record reads back.
#[verifier::rlimit(100)]
#[verifier::spinoff_prover]
proof fn lemma_json_rt_head(p: Proxy)
    ensures
        spec_decode_head(spec_json_proxy(p)) == Some((p.ip, off_port(p))),
{
    reveal_keys();
    let s = spec_json_proxy(p);
    let ipr = p.ip.spec_render();
    let rp = spec_render_nat(p.port as nat);
    let ge = spec_json_geo(p.geo);
    let avg = spec_avg_us(p);
    let de = spec_json_decimal(avg / 1000000, avg % 1000000, 6);
    let te = spec_json_types(p.types@);
    let x1 = lit_ip_key() + seq![34u8];
    let x2 = x1 + ipr;
    let x3 = x2 + seq![34u8];
    let x4 = x3 + lit_port_key();
    let x5 = x4 + rp;
    let x6 = x5 + lit_geo_key();
    let x7 = x6 + ge;
    let x8 = x7 + lit_avg_key();
    let x9 = x8 + de;
    let x10 = x9 + lit_types_key();
    let x11 = x10 + te;
    assert(s == x11 + seq![125u8]);
    assert(s.subrange(0, s.len() as int) =~= s);
    crate::text::lemma_pow10_vals();
    crate::text::lemma_pow10_vals_big();
    lemma_split2(s, 0, x11, seq![125u8]);
    lemma_split2(s, 0, x10, te);
    lemma_split2(s, 0, x9, lit_types_key());
    lemma_split2(s, 0, x8, de);
    lemma_split2(s, 0, x7, lit_avg_key());
    lemma_split2(s, 0, x6, ge);
    lemma_split2(s, 0, x5, lit_geo_key());
    lemma_split2(s, 0, x4, rp);
    lemma_split2(s, 0, x3, lit_port_key());
    lemma_split2(s, 0, x2, seq![34u8]);
    lemma_split2(s, 0, x1, ipr);

    assert(spec_match_lit(s, 0, lit_ip_key() + seq![34u8]) == Some(x1.len() as int));
    assert forall|k: int| 0 <= k < ipr.len() implies 32 <= #[trigger] ipr[k] && ipr[k] != 34
        && ipr[k] != 92 by {
        crate::addr::lemma_ipv4_render_bytes(p.ip, k);
    }
    lemma_escape_plain(ipr);
    assert(s[x2.len() as int] == 34) by {
        assert(s.subrange(x2.len() as int, x2.len() as int + 1)[0] == s[x2.len() as int]);
    }
    lemma_scan_escaped(ipr, s, x1.len() as int);
    crate::addr::lemma_ipv4_round_trip(p.ip);
}

/// The port of an encoded record reads back.
#[verifier::rlimit(100)]
#[verifier::spinoff_prover]
proof fn lemma_json_rt_port(p: Proxy)
    ensures
        spec_decode_port(spec_json_proxy(p), off_port(p)) == Some((p.port, off_geo(p))),
{
    reveal_keys();
    let s = spec_json_proxy(p);
    let ipr = p.ip.spec_render();
    let rp = spec_render_nat(p.port as nat);
    let ge = spec_json_geo(p.geo);
    let avg = spec_avg_us(p);
    let de = spec_json_decimal(avg / 1000000, avg % 1000000, 6);
    let te = spec_json_types(p.types@);
    let x1 = lit_ip_key() + seq![34u8];
    let x2 = x1 + ipr;
    let x3 = x2 + seq![34u8];
    let x4 = x3 + lit_port_key();
    let x5 = x4 + rp;
    let x6 = x5 + lit_geo_key();
    let x7 = x6 + ge;
    let x8 = x7 + lit_avg_key();
    let x9 = x8 + de;
    let x10 = x9 + lit_types_key();
    let x11 = x10 + te;
    assert(s == x11 + seq![125u8]);
    assert(s.subrange(0, s.len() as int) =~= s);
    crate::text::lemma_pow10_vals();
    crate::text::lemma_pow10_vals_big();
    lemma_split2(s, 0, x11, seq![125u8]);
    lemma_split2(s, 0, x10, te);
    lemma_split2(s, 0, x9, lit_types_key());
    lemma_split2(s, 0, x8, de);
    lemma_split2(s, 0, x7, lit_avg_key());
    lemma_split2(s, 0, x6, ge);
    lemma_split2(s, 0, x5, lit_geo_key());
    lemma_split2(s, 0, x4, rp);
    lemma_split2(s, 0, x3, lit_port_key());
    lemma_split2(s, 0, x2, seq![34u8]);
    lemma_split2(s, 0, x1, ipr);

    assert(spec_match_lit(s, x3.len() as int, lit_port_key()) == Some(x4.len() as int));
    assert(s[x5.len() as int] == 44) by {
        assert(s.subrange(x5.len() as int, x5.len() as int + lit_geo_key().len() as int)[0]
            == s[x5.len() as int]);
        assert(lit_geo_key()[0] == 44);
    }
    assert(p.port < crate::text::pow10(19));
    lemma_parse_u64_render(s, x4.len() as int, p.port as u64);
}

/// The geo fields of an encoded record read back.
#[verifier::rlimit(100)]
#[verifier::spinoff_prover]
proof fn lemma_json_rt_geo(p: Proxy)
    ensures
        spec_decode_geo_field(spec_json_proxy(p), off_geo(p)) == Some(
            (dec_geo_of(p.geo), off_avg(p)),
        ),
{
    reveal_keys();
    let s = spec_json_proxy(p);
    let ipr = p.ip.spec_render();
    let rp = spec_render_nat(p.port as nat);
    let ge = spec_json_geo(p.geo);
    let avg = spec_avg_us(p);
    let de = spec_json_decimal(avg / 1000000, avg % 1000000, 6);
    let te = spec_json_types(p.types@);
    let x1 = lit_ip_key() + seq![34u8];
    let x2 = x1 + ipr;
    let x3 = x2 + seq![34u8];
    let x4 = x3 + lit_port_key();
    let x5 = x4 + rp;
    let x6 = x5 + lit_geo_key();
    let x7 = x6 + ge;
    let x8 = x7 + lit_avg_key();
    let x9 = x8 + de;
    let x10 = x9 + lit_types_key();
    let x11 = x10 + te;
    assert(s == x11 + seq![125u8]);
    assert(s.subrange(0, s.len() as int) =~= s);
    lemma_split2(s, 0, x11, seq![125u8]);
    lemma_split2(s, 0, x10, te);
    lemma_split2(s, 0, x9, lit_types_key());
    lemma_split2(s, 0, x8, de);
    lemma_split2(s, 0, x7, lit_avg_key());
    lemma_split2(s, 0, x6, ge);
    lemma_split2(s, 0, x5, lit_geo_key());
    assert(spec_match_lit(s, x5.len() as int, lit_geo_key()) == Some(x6.len() as int));
    lemma_geo_rt(s, x6.len() as int, p.geo);
}

/// The average of an encoded record reads back.
#[verifier::rlimit(100)]
#[verifier::spinoff_prover]
proof fn lemma_json_rt_avg(p: Proxy)
    requires
        spec_sum(p.runtimes@) <= u64::MAX,
    ensures
        spec_decode_avg(spec_json_proxy(p), off_avg(p)) == Some(
            (spec_avg_us(p) as u64, off_types(p)),
        ),
{
    reveal_keys();
    let s = spec_json_proxy(p);
    let ipr = p.ip.spec_render();
    let rp = spec_render_nat(p.port as nat);
    let ge = spec_json_geo(p.geo);
    let avg = spec_avg_us(p);
    let de = spec_json_decimal(avg / 1000000, avg % 1000000, 6);
    let te = spec_json_types(p.types@);
    let x1 = lit_ip_key() + seq![34u8];
    let x2 = x1 + ipr;
    let x3 = x2 + seq![34u8];
    let x4 = x3 + lit_port_key();
    let x5 = x4 + rp;
    let x6 = x5 + lit_geo_key();
    let x7 = x6 + ge;
    let x8 = x7 + lit_avg_key();
    let x9 = x8 + de;
    let x10 = x9 + lit_types_key();
    let x11 = x10 + te;
    assert(s == x11 + seq![125u8]);
    assert(s.subrange(0, s.len() as int) =~= s);
    crate::text::lemma_pow10_vals();
    crate::text::lemma_pow10_vals_big();
    lemma_split2(s, 0, x11, seq![125u8]);
    lemma_split2(s, 0, x10, te);
    lemma_split2(s, 0, x9, lit_types_key());
    lemma_split2(s, 0, x8, de);
    lemma_split2(s, 0, x7, lit_avg_key());
    lemma_split2(s, 0, x6, ge);
    lemma_split2(s, 0, x5, lit_geo_key());
    lemma_split2(s, 0, x4, rp);
    lemma_split2(s, 0, x3, lit_port_key());
    lemma_split2(s, 0, x2, seq![34u8]);
    lemma_split2(s, 0, x1, ipr);

    assert(spec_match_lit(s, x7.len() as int, lit_avg_key()) == Some(x8.len() as int));
    assert(s[x9.len() as int] == 44) by {
        assert(s.subrange(x9.len() as int, x9.len() as int + lit_types_key().len() as int)[0]
            == s[x9.len() as int]);
        assert(lit_types_key()[0] == 44);
    }
    lemma_avg_bounds(p);
    lemma_parse_decimal_enc(s, x8.len() as int, (avg / 1000000) as u64, (avg % 1000000) as u64, 6);
}

/// The types of an encoded record read back.
#[verifier::rlimit(100)]
#[verifier::spinoff_prover]
proof fn lemma_json_rt_types(p: Proxy)
    ensures
        spec_decode_types(spec_json_proxy(p), off_types(p)) == Some(
            (jtypes_of(p.types@), off_end(p)),
        ),
        spec_json_proxy(p).len() == off_end(p) + 1,
        spec_json_proxy(p)[off_end(p)] == 125,
{
    reveal_keys();
    let s = spec_json_proxy(p);
    let ipr = p.ip.spec_render();
    let rp = spec_render_nat(p.port as nat);
    let ge = spec_json_geo(p.geo);
    let avg = spec_avg_us(p);
    let de = spec_json_decimal(avg / 1000000, avg % 1000000, 6);
    let te = spec_json_types(p.types@);
    let x1 = lit_ip_key() + seq![34u8];
    let x2 = x1 + ipr;
    let x3 = x2 + seq![34u8];
    let x4 = x3 + lit_port_key();
    let x5 = x4 + rp;
    let x6 = x5 + lit_geo_key();
    let x7 = x6 + ge;
    let x8 = x7 + lit_avg_key();
    let x9 = x8 + de;
    let x10 = x9 + lit_types_key();
    let x11 = x10 + te;
    assert(s == x11 + seq![125u8]);
    assert(s.subrange(0, s.len() as int) =~= s);
    crate::text::lemma_pow10_vals();
    crate::text::lemma_pow10_vals_big();
    lemma_split2(s, 0, x11, seq![125u8]);
    lemma_split2(s, 0, x10, te);
    lemma_split2(s, 0, x9, lit_types_key());
    lemma_split2(s, 0, x8, de);
    lemma_split2(s, 0, x7, lit_avg_key());
    lemma_split2(s, 0, x6, ge);
    lemma_split2(s, 0, x5, lit_geo_key());
    lemma_split2(s, 0, x4, rp);
    lemma_split2(s, 0, x3, lit_port_key());
    lemma_split2(s, 0, x2, seq![34u8]);
    lemma_split2(s, 0, x1, ipr);

    assert(spec_match_lit(s, x9.len() as int, lit_types_key()) == Some(x10.len() as int));
    lemma_types_arr_rt(s, x10.len() as int, p.types@);
    assert(s[x11.len() as int] == 125) by {
        assert(s.subrange(x11.len() as int, x11.len() as int + 1)[0] == s[x11.len() as int]);
    }
}

/// Decoding inverts encoding: the JSON form of a proxy reads back with
/// the same address and port, the same geo fields, the same average
/// response time, and the same protocol types with their checked marks
/// and timestamps. The raw timing samples are not preserved, only their
/// average.
#[verifier::rlimit(100)]
#[verifier::spinoff_prover]
pub proof fn lemma_json_round_trip(p: Proxy)
    requires
        spec_sum(p.runtimes@) <= u64::MAX,
    ensures
        spec_decode_proxy(spec_json_proxy(p)) == Some(
            DecProxy {
                ip: p.ip,
                port: p.port,
                geo: dec_geo_of(p.geo),
                average_response_time: spec_avg_us(p) as u64,
                types: jtypes_of(p.types@),
            },
        ),
{
    lemma_json_rt_head(p);
    lemma_json_rt_port(p);
    lemma_json_rt_geo(p);
    lemma_json_rt_avg(p);
    lemma_json_rt_types(p);
}

/// The average fits the decimal form: the fraction has six digits and
/// the whole value fits a machine word.
proof fn lemma_avg_bounds(p: Proxy)
    requires
        spec_sum(p.runtimes@) <= u64::MAX,
    ensures
        spec_avg_us(p) <= u64::MAX,
        spec_avg_us(p) % 1000000 < crate::text::pow10(6),
        (spec_avg_us(p) / 1000000) * crate::text::pow10(6) + spec_avg_us(p) % 1000000
            == spec_avg_us(p),
        spec_avg_us(p) / 1000000 < crate::text::pow10(19),
{
    crate::text::lemma_pow10_vals();
    crate::text::lemma_pow10_vals_big();
    let avg = spec_avg_us(p);
    if p.runtimes@.len() == 0 {
    } else {
        crate::proxy::lemma_sum_nonneg(p.runtimes@);
        let sum = spec_sum(p.runtimes@);
        let len = p.runtimes@.len() as int;
        assert(sum / len <= sum) by (nonlinear_arith)
            requires
                len >= 1,
                sum >= 0,
        ;
    }
    assert((avg / 1000000) * 1000000 + avg % 1000000 == avg) by (nonlinear_arith);
}

/// Appends the geo object.
#[verifier::rlimit(100)]
fn push_json_geo(out: &mut Vec<u8>, g: &GeoData)
    ensures
        final(out)@ == old(out)@ + spec_json_geo(*g),
{
    proof {
        reveal_keys();
    }
    let k1: Vec<u8> = vec![
        123u8,
        34u8,
        105u8,
        115u8,
        111u8,
        95u8,
        99u8,
        111u8,
        100u8,
        101u8,
        34u8,
        58u8,
    ];
    push_bytes(out, k1);
    push_json_opt_string(out, &g.iso_code);
    let k2: Vec<u8> = vec![44u8, 34u8, 110u8, 97u8, 109u8, 101u8, 34u8, 58u8];
    push_bytes(out, k2);
    push_json_opt_string(out, &g.name);
    let k3: Vec<u8> = vec![
        44u8,
        34u8,
        114u8,
        101u8,
        103u8,
        105u8,
        111u8,
        110u8,
        95u8,
        105u8,
        115u8,
        111u8,
        95u8,
        99u8,
        111u8,
        100u8,
        101u8,
        34u8,
        58u8,
    ];
    push_bytes(out, k3);
    push_json_opt_string(out, &g.region_iso_code);
    let k4: Vec<u8> = vec![
        44u8,
        34u8,
        114u8,
        101u8,
        103u8,
        105u8,
        111u8,
        110u8,
        95u8,
        110u8,
        97u8,
        109u8,
        101u8,
        34u8,
        58u8,
    ];
    push_bytes(out, k4);
    push_json_opt_string(out, &g.region_name);
    let k5: Vec<u8> = vec![
        44u8,
        34u8,
        99u8,
        105u8,
        116u8,
        121u8,
        95u8,
        110u8,
        97u8,
        109u8,
        101u8,
        34u8,
        58u8,
    ];
    push_bytes(out, k5);
    push_json_opt_string(out, &g.city_name);
    out.push(125);
    proof {
        assert(final(out)@ =~= old(out)@ + spec_json_geo(*g));
    }
}

} // verus!

