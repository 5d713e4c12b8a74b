//! The `Proxy` record: the unit the pipeline moves around, with its
//! declared and confirmed protocol types, the timing samples taken while
//! probing it, and its text and display forms.

use vstd::prelude::*;

use crate::addr::{spec_render_endpoint, Ipv4, render_endpoint};
use crate::geo::GeoData;
use crate::models::Protocol;
use crate::text::{ascii_chars, ascii_to_string, chars_to_bytes, push_u64, spec_render_nat};

verus! {

/// One protocol a proxy is believed or known to speak. `checked` flips
/// to true only when a probe confirmed the protocol; `checked_on` is
/// then the confirmation time in milliseconds since the epoch.
#[derive(Debug, Clone, Copy, PartialEq, Eq, Structural)]
pub struct ProxyType {
    pub protocol: Protocol,
    pub checked: bool,
    pub checked_on: u64,
}

impl ProxyType {
    /// A declared, not yet confirmed type.
    pub fn new(protocol: Protocol) -> (r: ProxyType)
        ensures
            r == (ProxyType { protocol, checked: false, checked_on: 0 }),
    {
        ProxyType { protocol, checked: false, checked_on: 0 }
    }

    /// A confirmed type, stamped with the confirmation time.
    pub fn checked(protocol: Protocol, checked_on: u64) -> (r: ProxyType)
        ensures
            r == (ProxyType { protocol, checked: true, checked_on }),
    {
        ProxyType { protocol, checked: true, checked_on }
    }
}

/// The sum of a sequence of timing samples.
pub open spec fn spec_sum(s: Seq<u64>) -> int
    decreases s.len(),
{
    if s.len() == 0 {
        0
    } else {
        spec_sum(s.drop_last()) + s.last()
    }
}

/// One more sample extends the sum.
pub proof fn lemma_sum_take_step(s: Seq<u64>, i: int)
    requires
        0 <= i < s.len(),
    ensures
        spec_sum(s.take(i + 1)) == spec_sum(s.take(i)) + s[i],
{
    assert(s.take(i + 1).drop_last() =~= s.take(i));
    assert(s.take(i + 1).last() == s[i]);
}

/// Sums are non-negative and grow along prefixes.
pub proof fn lemma_sum_take_le(s: Seq<u64>, i: int)
    requires
        0 <= i <= s.len(),
    ensures
        0 <= spec_sum(s.take(i)) <= spec_sum(s),
    decreases s.len() - i,
{
    lemma_sum_nonneg(s.take(i));
    if i == s.len() {
        assert(s.take(i) =~= s);
    } else {
        lemma_sum_take_step(s, i);
        lemma_sum_take_le(s, i + 1);
    }
}

/// A sum of samples is never negative.
pub proof fn lemma_sum_nonneg(s: Seq<u64>)
    ensures
        spec_sum(s) >= 0,
    decreases s.len(),
{
    if s.len() > 0 {
        lemma_sum_nonneg(s.drop_last());
    }
}

/// A proxy endpoint as the pipeline carries it.
#[derive(Debug, Clone)]
pub struct Proxy {
    /// Address of the proxy; `(ip, port)` is its identity.
    pub ip: Ipv4,
    /// Port of the proxy.
    pub port: u16,
    /// Geographical data attached by the fetcher.
    pub geo: GeoData,
    /// Elapsed time of each timed network step, in microseconds,
    /// appended in the order the steps ran.
    pub runtimes: Vec<u64>,
    /// Protocols declared by the source or confirmed by the validator.
    pub types: Vec<ProxyType>,
    /// Protocols the validator still has to probe.
    pub expected_types: Vec<Protocol>,
}

impl Proxy {
    /// A proxy with the given address and declared types and nothing
    /// else.
    pub fn from_endpoint(ip: Ipv4, port: u16, types: Vec<ProxyType>) -> (r: Proxy)
        ensures
            r.ip == ip,
            r.port == port,
            r.geo == GeoData::spec_empty(),
            r.runtimes@ == Seq::<u64>::empty(),
            r.types == types,
            r.expected_types@ == Seq::<Protocol>::empty(),
    {
        Proxy {
            ip,
            port,
            geo: GeoData::empty(),
            runtimes: Vec::new(),
            types,
            expected_types: Vec::new(),
        }
    }

    /// The average of the timing samples, in microseconds; zero when no
    /// sample was taken.
    pub fn avg_response_time(&self) -> (r: u64)
        requires
            spec_sum(self.runtimes@) <= u64::MAX,
        ensures
            self.runtimes@.len() == 0 ==> r == 0,
            self.runtimes@.len() > 0 ==> r == spec_sum(self.runtimes@) / self.runtimes@.len() as int,
    {
        let len = self.runtimes.len();
        if len == 0 {
            return 0;
        }
        let mut sum: u64 = 0;
        let mut i: usize = 0;
        proof {
            assert(self.runtimes@.take(0) =~= Seq::<u64>::empty());
        }
        while i < len
            invariant
                0 <= i <= len,
                len == self.runtimes@.len(),
                spec_sum(self.runtimes@) <= u64::MAX,
                sum == spec_sum(self.runtimes@.take(i as int)),
            decreases len - i,
        {
            proof {
                lemma_sum_take_step(self.runtimes@, i as int);
                lemma_sum_take_le(self.runtimes@, i + 1);
            }
            sum = sum + self.runtimes[i];
            i = i + 1;
        }
        proof {
            assert(self.runtimes@.take(len as int) =~= self.runtimes@);
        }
        sum / (len as u64)
    }

    /// Appends the timing samples of one probe step to the proxy's own,
    /// leaving everything else unchanged.
    pub fn extend_runtimes(&mut self, extra: &Vec<u64>)
        ensures
            final(self).runtimes@ == old(self).runtimes@ + extra@,
            final(self).ip == old(self).ip,
            final(self).port == old(self).port,
            final(self).geo == old(self).geo,
            final(self).types == old(self).types,
            final(self).expected_types == old(self).expected_types,
    {
        proof {
            assert(old(self).runtimes@ + extra@.take(0) =~= old(self).runtimes@);
        }
        let mut i: usize = 0;
        while i < extra.len()
            invariant
                0 <= i <= extra@.len(),
                self.runtimes@ == old(self).runtimes@ + extra@.take(i as int),
                self.ip == old(self).ip,
                self.port == old(self).port,
                self.geo == old(self).geo,
                self.types == old(self).types,
                self.expected_types == old(self).expected_types,
            decreases extra@.len() - i,
        {
            self.runtimes.push(extra[i]);
            proof {
                assert(old(self).runtimes@ + extra@.take(i + 1) =~= (old(self).runtimes@
                    + extra@.take(i as int)).push(extra@[i as int]));
            }
            i = i + 1;
        }
        proof {
            assert(extra@.take(extra@.len() as int) =~= extra@);
        }
    }

    /// The `<ip>:<port>` text form of the proxy, as bytes.
    pub fn as_text_bytes(&self) -> (r: Vec<u8>)
        ensures
            r@ == spec_render_endpoint(self.ip, self.port),
    {
        render_endpoint(&self.ip, self.port)
    }

    /// The `<ip>:<port>` text form of the proxy.
    pub fn as_text(&self) -> (r: String)
        ensures
            ascii_chars(r@),
            chars_to_bytes(r@) == spec_render_endpoint(self.ip, self.port),
    {
        let bytes = self.as_text_bytes();
        proof {
            lemma_render_endpoint_ascii(self.ip, self.port);
        }
        ascii_to_string(bytes)
    }
}

/// Some type of the list is checked.
pub open spec fn spec_has_checked(ts: Seq<ProxyType>) -> bool {
    exists|i: int| 0 <= i < ts.len() && (#[trigger] ts[i]).checked
}

/// The checked protocols of the list, displayed and joined with
/// commas.
pub open spec fn spec_join_checked(ts: Seq<ProxyType>) -> Seq<u8>
    decreases ts.len(),
{
    if ts.len() == 0 {
        Seq::empty()
    } else {
        let front = spec_join_checked(ts.drop_last());
        if ts.last().checked {
            if spec_has_checked(ts.drop_last()) {
                front + seq![44u8, 32u8] + ts.last().protocol.spec_display()
            } else {
                front + ts.last().protocol.spec_display()
            }
        } else {
            front
        }
    }
}

/// The display form of a proxy:
/// `<Proxy <ISO|--> <avg>s [<checked protocols>] <ip>:<port>>`, with the
/// average of the timing samples in seconds, rounded half-up to two
/// decimals.
pub open spec fn spec_display_bytes(p: Proxy) -> Seq<u8> {
    let avg: int = if p.runtimes@.len() == 0 {
        0
    } else {
        spec_sum(p.runtimes@) / p.runtimes@.len() as int
    };
    let cs = (avg + 5000) / 10000;
    let iso: Seq<u8> = match p.geo.iso_code {
        Some(code) => vstd::utf8::encode_utf8(code@),
        None => seq![45u8, 45u8],
    };
    seq![60u8, 80u8, 114u8, 111u8, 120u8, 121u8, 32u8]  // "<Proxy "
     + iso + seq![32u8] + spec_render_nat((cs / 100) as nat) + seq![46u8] + seq![
        (48 + (cs / 10) % 10) as u8,
        (48 + cs % 10) as u8,
    ] + seq![115u8, 32u8, 91u8]  // "s ["
     + spec_join_checked(p.types@) + seq![93u8, 32u8]  // "] "
     + spec_render_endpoint(p.ip, p.port) + seq![62u8]  // ">"

}

impl Proxy {
    /// Renders the display form of the proxy.
    pub fn display_bytes(&self) -> (r: Vec<u8>)
        requires
            spec_sum(self.runtimes@) <= u64::MAX,
        ensures
            r@ == spec_display_bytes(*self),
    {
        let avg = self.avg_response_time();
        let cs = (((avg as u128) + 5000) / 10000) as u64;
        let mut out: Vec<u8> = vec![60u8, 80u8, 114u8, 111u8, 120u8, 121u8, 32u8];
        match &self.geo.iso_code {
            Some(code) => {
                let mut iso = code.as_str().as_bytes_vec();
                out.append(&mut iso);
            },
            None => {
                out.push(45);
                out.push(45);
            },
        }
        out.push(32);
        push_u64(&mut out, cs / 100);
        out.push(46);
        out.push(48 + ((cs / 10) % 10) as u8);
        out.push(48 + (cs % 10) as u8);
        out.push(115);
        out.push(32);
        out.push(91);
        let mut joined = join_checked(&self.types);
        out.append(&mut joined);
        out.push(93);
        out.push(32);
        let mut endpoint = self.as_text_bytes();
        out.append(&mut endpoint);
        out.push(62);
        proof {
            assert(out@ =~= spec_display_bytes(*self));
        }
        out
    }

    /// The display form as a string; a byte outside ASCII (possible only
    /// in the country code) shows as `?`.
    pub fn display_string(&self) -> (r: String)
        requires
            spec_sum(self.runtimes@) <= u64::MAX,
        ensures
            chars_to_bytes(r@) == spec_ascii_lossy(spec_display_bytes(*self)),
    {
        let bytes = self.display_bytes();
        let mut clean: Vec<u8> = Vec::new();
        let mut i: usize = 0;
        while i < bytes.len()
            invariant
                0 <= i <= bytes@.len(),
                clean@.len() == i,
                forall|j: int|
                    0 <= j < i ==> clean@[j] == spec_ascii_lossy(bytes@)[j] && clean@[j] < 128,
            decreases bytes@.len() - i,
        {
            let b = bytes[i];
            if b < 128 {
                clean.push(b);
            } else {
                clean.push(63);
            }
            i = i + 1;
        }
        proof {
            assert(clean@ =~= spec_ascii_lossy(bytes@));
        }
        ascii_to_string(clean)
    }
}

/// The sequence with every byte outside ASCII replaced by `?`.
pub open spec fn spec_ascii_lossy(s: Seq<u8>) -> Seq<u8> {
    Seq::new(s.len(), |i: int| if s[i] < 128 { s[i] } else { 63u8 })
}

/// Joins the display texts of the checked types with commas.
pub fn join_checked(ts: &Vec<ProxyType>) -> (r: Vec<u8>)
    ensures
        r@ == spec_join_checked(ts@),
{
    let mut out: Vec<u8> = Vec::new();
    let mut any = false;
    let mut i: usize = 0;
    proof {
        assert(ts@.take(0) =~= Seq::<ProxyType>::empty());
    }
    while i < ts.len()
        invariant
            0 <= i <= ts@.len(),
            out@ == spec_join_checked(ts@.take(i as int)),
            any == spec_has_checked(ts@.take(i as int)),
        decreases ts@.len() - i,
    {
        proof {
            assert(ts@.take(i + 1).drop_last() =~= ts@.take(i as int));
            assert(ts@.take(i + 1).last() == ts@[i as int]);
        }
        if ts[i].checked {
            if any {
                out.push(44);
                out.push(32);
            }
            ts[i].protocol.push_display(&mut out);
            any = true;
            proof {
                assert(ts@.take(i + 1)[i as int].checked);
                assert(spec_has_checked(ts@.take(i + 1)));
                assert(out@ =~= spec_join_checked(ts@.take(i + 1)));
            }
        } else {
            proof {
                if spec_has_checked(ts@.take(i + 1)) {
                    let k = choose|k: int|
                        0 <= k < ts@.take(i + 1).len() && (#[trigger] ts@.take(i + 1)[k]).checked;
                    assert(ts@.take(i as int)[k].checked);
                }
            }
        }
        i = i + 1;
    }
    proof {
        assert(ts@.take(ts@.len() as int) =~= ts@);
    }
    out
}

impl Default for Proxy {
    /// The default proxy sits at `0.0.0.0:0` with nothing declared.
    fn default() -> (r: Proxy)
        ensures
            r.ip == (Ipv4 { a: 0, b: 0, c: 0, d: 0 }),
            r.port == 0u16,
            r.geo == GeoData::spec_empty(),
            r.runtimes@ == Seq::<u64>::empty(),
            r.types@ == Seq::<ProxyType>::empty(),
            r.expected_types@ == Seq::<Protocol>::empty(),
    {
        Proxy {
            ip: Ipv4 { a: 0, b: 0, c: 0, d: 0 },
            port: 0,
            geo: GeoData::empty(),
            runtimes: Vec::new(),
            types: Vec::new(),
            expected_types: Vec::new(),
        }
    }
}

/// Every byte of a rendered endpoint is ASCII.
pub proof fn lemma_render_endpoint_ascii(ip: Ipv4, port: u16)
    ensures
        forall|j: int|
            0 <= j < spec_render_endpoint(ip, port).len() ==> (#[trigger] spec_render_endpoint(
                ip,
                port,
            )[j]) < 128,
{
    let s = spec_render_endpoint(ip, port);
    let ipr = ip.spec_render();
    let pr = spec_render_nat(port as nat);
    crate::text::lemma_render_nat_digits(port as nat);
    assert forall|j: int| 0 <= j < s.len() implies (#[trigger] s[j]) < 128 by {
        if j < ipr.len() {
            assert(s[j] == ipr[j]);
            crate::addr::lemma_ipv4_render_bytes(ip, j);
        } else if j == ipr.len() {
            assert(s[j] == 58);
        } else {
            assert(s[j] == pr[j - ipr.len() - 1]);
        }
    }
}

} // verus!
