//! Proxy sources: the fixed source lists of each provider, and the
//! scraper that turns a fetched body into proxy candidates. Fetching the
//! bodies over the network happens outside the library.

use vstd::prelude::*;

use crate::addr::{spec_parse_endpoint, Ipv4};
use crate::geo::GeoData;
use crate::models::{Anonymity, Protocol};
use crate::proxy::{Proxy, ProxyType};
use crate::text::{find_byte, find_byte_in};

verus! {

/// The protocols a source of unknown kind may announce.
pub open spec fn spec_all_protocols() -> Seq<Protocol> {
    seq![
        Protocol::Http(Anonymity::Unknown),
        Protocol::Https,
        Protocol::Socks4,
        Protocol::Socks5,
        Protocol::Connect(25),
        Protocol::Connect(80),
    ]
}

/// The protocols an HTTP-flavoured source announces.
pub open spec fn spec_http_protocols() -> Seq<Protocol> {
    seq![
        Protocol::Http(Anonymity::Unknown),
        Protocol::Https,
        Protocol::Connect(80),
        Protocol::Connect(25),
    ]
}

/// The protocols a SOCKS-flavoured source announces.
pub open spec fn spec_socks_protocols() -> Seq<Protocol> {
    seq![Protocol::Socks4, Protocol::Socks5]
}

/// A source of proxy candidates: a URL, the protocols its entries are
/// presumed to speak, and the fetch timeout in milliseconds.
#[derive(Debug, Clone)]
pub struct Source {
    pub url: String,
    pub default_types: Vec<Protocol>,
    pub timeout_ms: u64,
}

impl Source {
    /// A source with the given protocol candidates; an empty list means
    /// every protocol is plausible. The fetch timeout defaults to three
    /// seconds.
    pub fn new(url: &str, types: Vec<Protocol>) -> (r: Source)
        ensures
            r.url@ == url@,
            r.timeout_ms == 3000,
            types@.len() == 0 ==> r.default_types@ == spec_all_protocols(),
            types@.len() > 0 ==> r.default_types@ == types@,
    {
        let default_types = if types.len() == 0 {
            let all: Vec<Protocol> = vec![
                Protocol::Http(Anonymity::Unknown),
                Protocol::Https,
                Protocol::Socks4,
                Protocol::Socks5,
                Protocol::Connect(25),
                Protocol::Connect(80),
            ];
            proof {
                assert(all@ =~= spec_all_protocols());
            }
            all
        } else {
            types
        };
        Source { url: String::from_str(url), default_types, timeout_ms: 3000 }
    }

    /// A source whose entries may speak any protocol.
    pub fn all(url: &str) -> (r: Source)
        ensures
            r.url@ == url@,
            r.timeout_ms == 3000,
            r.default_types@ == spec_all_protocols(),
    {
        Source::new(url, Vec::new())
    }

    /// A source announcing the HTTP-flavoured protocols.
    pub fn http(url: &str) -> (r: Source)
        ensures
            r.url@ == url@,
            r.timeout_ms == 3000,
            r.default_types@ == spec_http_protocols(),
    {
        let types: Vec<Protocol> = vec![
            Protocol::Http(Anonymity::Unknown),
            Protocol::Https,
            Protocol::Connect(80),
            Protocol::Connect(25),
        ];
        proof {
            assert(types@ =~= spec_http_protocols());
        }
        Source::new(url, types)
    }

    /// A source announcing the SOCKS protocols.
    pub fn socks(url: &str) -> (r: Source)
        ensures
            r.url@ == url@,
            r.timeout_ms == 3000,
            r.default_types@ == spec_socks_protocols(),
    {
        let types: Vec<Protocol> = vec![Protocol::Socks4, Protocol::Socks5];
        proof {
            assert(types@ =~= spec_socks_protocols());
        }
        Source::new(url, types)
    }
}

/// Whether a byte counts as surrounding whitespace on a scraped line.
pub open spec fn is_space(b: u8) -> bool {
    b == 32 || 9 <= b <= 13
}

/// The line without leading whitespace.
pub open spec fn spec_trim_start(s: Seq<u8>) -> Seq<u8>
    decreases s.len(),
{
    if s.len() > 0 && is_space(s[0]) {
        spec_trim_start(s.drop_first())
    } else {
        s
    }
}

/// The line without trailing whitespace.
pub open spec fn spec_trim_end(s: Seq<u8>) -> Seq<u8>
    decreases s.len(),
{
    if s.len() > 0 && is_space(s.last()) {
        spec_trim_end(s.drop_last())
    } else {
        s
    }
}

/// The line without surrounding whitespace.
pub open spec fn spec_trim(s: Seq<u8>) -> Seq<u8> {
    spec_trim_end(spec_trim_start(s))
}

/// A whitespace-free prefix leaves `spec_trim_start` at the matching
/// suffix.
proof fn lemma_trim_start_at(s: Seq<u8>, i: int)
    requires
        0 <= i <= s.len(),
        forall|j: int| 0 <= j < i ==> is_space(#[trigger] s[j]),
        i < s.len() ==> !is_space(s[i]),
    ensures
        spec_trim_start(s) == s.subrange(i, s.len() as int),
    decreases i,
{
    if i == 0 {
        if s.len() > 0 {
            assert(spec_trim_start(s) == s);
        }
        assert(s.subrange(0, s.len() as int) =~= s);
    } else {
        let rest = s.drop_first();
        assert forall|j: int| 0 <= j < i - 1 implies is_space(#[trigger] rest[j]) by {
            assert(rest[j] == s[j + 1]);
        }
        assert(i - 1 < rest.len() ==> !is_space(rest[i - 1]));
        lemma_trim_start_at(rest, i - 1);
        assert(rest.subrange(i - 1, rest.len() as int) =~= s.subrange(i, s.len() as int));
    }
}

/// A whitespace-free suffix leaves `spec_trim_end` at the matching
/// prefix.
proof fn lemma_trim_end_at(s: Seq<u8>, i: int)
    requires
        0 <= i <= s.len(),
        forall|j: int| i <= j < s.len() ==> is_space(#[trigger] s[j]),
        i > 0 ==> !is_space(s[i - 1]),
    ensures
        spec_trim_end(s) == s.subrange(0, i),
    decreases s.len() - i,
{
    if i == s.len() {
        if i == 0 {
            assert(s.subrange(0, 0) =~= s);
        } else {
            assert(spec_trim_end(s) == s);
            assert(s.subrange(0, i) =~= s);
        }
    } else {
        let front = s.drop_last();
        assert forall|j: int| i <= j < front.len() implies is_space(#[trigger] front[j]) by {
            assert(front[j] == s[j]);
        }
        assert(i > 0 ==> !is_space(front[i - 1]));
        lemma_trim_end_at(front, i);
        assert(front.subrange(0, i) =~= s.subrange(0, i));
    }
}

/// Decides whether a byte counts as whitespace.
fn space_byte(b: u8) -> (r: bool)
    ensures
        r == is_space(b),
{
    b == 32 || (9 <= b && b <= 13)
}

/// Copies the range `[start, end)` of `s` into a fresh vector.
fn copy_range(s: &[u8], start: usize, end: usize) -> (r: Vec<u8>)
    requires
        0 <= start <= end <= s@.len(),
    ensures
        r@ == s@.subrange(start as int, end as int),
{
    let mut out: Vec<u8> = Vec::new();
    let mut i: usize = start;
    while i < end
        invariant
            start <= i <= end <= s@.len(),
            out@.len() == i - start,
            forall|j: int| 0 <= j < i - start ==> out@[j] == s@[start + j],
        decreases end - i,
    {
        out.push(s[i]);
        i = i + 1;
    }
    proof {
        assert(out@ =~= s@.subrange(start as int, end as int));
    }
    out
}

/// Trims surrounding whitespace off the range `[start, end)` of `s` and
/// copies what is left.
fn trim_range(s: &[u8], start: usize, end: usize) -> (r: Vec<u8>)
    requires
        0 <= start <= end <= s@.len(),
    ensures
        r@ == spec_trim(s@.subrange(start as int, end as int)),
{
    let ghost part = s@.subrange(start as int, end as int);
    let mut lo: usize = start;
    while lo < end && space_byte(s[lo])
        invariant
            start <= lo <= end <= s@.len(),
            forall|j: int| start <= j < lo ==> is_space(#[trigger] s@[j]),
        decreases end - lo,
    {
        lo = lo + 1;
    }
    let mut hi: usize = end;
    while hi > lo && space_byte(s[hi - 1])
        invariant
            start <= lo <= hi <= end <= s@.len(),
            forall|j: int| start <= j < lo ==> is_space(#[trigger] s@[j]),
            lo < end ==> !is_space(s@[lo as int]),
            forall|j: int| hi <= j < end ==> is_space(#[trigger] s@[j]),
        decreases hi,
    {
        hi = hi - 1;
    }
    proof {
        assert forall|j: int| 0 <= j < lo - start implies is_space(#[trigger] part[j]) by {
            assert(part[j] == s@[start + j]);
        }
        assert(lo - start < part.len() ==> !is_space(part[lo - start]));
        lemma_trim_start_at(part, lo - start);
        let trimmed_start = part.subrange(lo - start, part.len() as int);
        assert(trimmed_start =~= s@.subrange(lo as int, end as int));
        assert forall|j: int| hi - lo <= j < trimmed_start.len() implies is_space(
            #[trigger] trimmed_start[j],
        ) by {
            assert(trimmed_start[j] == s@[lo + j]);
        }
        assert(hi - lo > 0 ==> !is_space(trimmed_start[hi - lo - 1]));
        lemma_trim_end_at(trimmed_start, hi - lo);
        assert(trimmed_start.subrange(0, hi - lo) =~= s@.subrange(lo as int, hi as int));
    }
    copy_range(s, lo, hi)
}

/// The endpoints scraped out of a body: each newline-separated line is
/// trimmed and read as `<ip>:<port>`; lines that do not parse are
/// skipped.
pub open spec fn spec_scrape(s: Seq<u8>) -> Seq<(Ipv4, u16)>
    decreases s.len(),
    via spec_scrape_decreases
{
    match find_byte(s, 10) {
        None => spec_line_endpoints(s),
        Some(i) => spec_line_endpoints(s.subrange(0, i)) + spec_scrape(
            s.subrange(i + 1, s.len() as int),
        ),
    }
}

#[via_fn]
proof fn spec_scrape_decreases(s: Seq<u8>) {
    crate::text::lemma_find_byte(s, 10);
}

/// What one line contributes: one endpoint, or nothing.
pub open spec fn spec_line_endpoints(line: Seq<u8>) -> Seq<(Ipv4, u16)> {
    match spec_parse_endpoint(spec_trim(line)) {
        Some(e) => seq![e],
        None => Seq::empty(),
    }
}

/// Scrapes a fetched body into proxy candidates. Every candidate carries
/// the source's protocols, both as declared (unchecked) types and as the
/// protocols the validator still has to probe.
pub fn scrape_text(body: &[u8], protocols: &Vec<Protocol>) -> (r: Vec<Proxy>)
    ensures
        r@.len() == spec_scrape(body@).len(),
        forall|i: int|
            0 <= i < r@.len() ==> {
                let e = spec_scrape(body@)[i];
                &&& (#[trigger] r@[i]).ip == e.0
                &&& r@[i].port == e.1
                &&& r@[i].geo == GeoData::spec_empty()
                &&& r@[i].runtimes@ == Seq::<u64>::empty()
                &&& r@[i].types@ == protocols@.map_values(
                    |p: Protocol| ProxyType { protocol: p, checked: false, checked_on: 0 },
                )
                &&& r@[i].expected_types@ == protocols@
            },
{
    let mut out: Vec<Proxy> = Vec::new();
    let len = body.len();
    let mut pos: usize = 0;
    let ghost whole = body@;
    proof {
        assert(body@.subrange(0, len as int) =~= body@);
    }
    while pos < len
        invariant
            0 <= pos <= len,
            len == body@.len(),
            spec_scrape(body@) =~= out_pairs(out@) + spec_scrape(
                body@.subrange(pos as int, len as int),
            ),
            forall|i: int|
                0 <= i < out@.len() ==> {
                    &&& (#[trigger] out@[i]).geo == GeoData::spec_empty()
                    &&& out@[i].runtimes@ == Seq::<u64>::empty()
                    &&& out@[i].types@ == protocols@.map_values(
                        |p: Protocol| ProxyType { protocol: p, checked: false, checked_on: 0 },
                    )
                    &&& out@[i].expected_types@ == protocols@
                },
        decreases len - pos,
    {
        let ghost rem = body@.subrange(pos as int, len as int);
        let (line_end, next_pos) = match find_byte_in(body, 10, pos, len) {
            Some(i) => (i, i + 1),
            None => (len, len),
        };
        proof {
            if next_pos <= len && line_end < len {
                assert(rem.subrange(line_end - pos + 1, rem.len() as int) =~= body@.subrange(
                    next_pos as int,
                    len as int,
                ));
            }
            assert(rem.subrange(0, line_end - pos) =~= body@.subrange(pos as int, line_end as int));
        }
        let line = trim_range(body, pos, line_end);
        match crate::addr::parse_endpoint(line.as_slice()) {
            Some((ip, port)) => {
                let mut types: Vec<ProxyType> = Vec::new();
                let mut expected: Vec<Protocol> = Vec::new();
                let mut k: usize = 0;
                while k < protocols.len()
                    invariant
                        0 <= k <= protocols@.len(),
                        types@ =~= protocols@.take(k as int).map_values(
                            |p: Protocol| ProxyType { protocol: p, checked: false, checked_on: 0 },
                        ),
                        expected@ =~= protocols@.take(k as int),
                    decreases protocols@.len() - k,
                {
                    types.push(ProxyType { protocol: protocols[k], checked: false, checked_on: 0 });
                    expected.push(protocols[k]);
                    proof {
                        assert(protocols@.take(k + 1) =~= protocols@.take(k as int).push(
                            protocols@[k as int],
                        ));
                    }
                    k = k + 1;
                }
                proof {
                    assert(protocols@.take(protocols@.len() as int) =~= protocols@);
                }
                let proxy = Proxy {
                    ip,
                    port,
                    geo: GeoData::empty(),
                    runtimes: Vec::new(),
                    types,
                    expected_types: expected,
                };
                out.push(proxy);
            },
            None => {},
        }
        proof {
            if find_byte(rem, 10) is Some {
                assert(spec_scrape(rem) == spec_line_endpoints(rem.subrange(0, line_end - pos))
                    + spec_scrape(rem.subrange(line_end - pos + 1, rem.len() as int)));
            } else {
                assert(spec_scrape(rem) == spec_line_endpoints(rem));
                assert(rem.subrange(0, line_end - pos) =~= rem);
            }
            assert(out_pairs(out@) =~= out_pairs(out@));
        }
        pos = next_pos;
        proof {
            if pos >= len {
                assert(spec_scrape(body@.subrange(pos as int, len as int)) =~= Seq::<(
                    Ipv4,
                    u16,
                )>::empty());
            }
        }
    }
    proof {
        assert(spec_scrape(body@.subrange(pos as int, len as int)) =~= Seq::<(Ipv4, u16)>::empty());
        assert(spec_scrape(body@) =~= out_pairs(out@));
        assert forall|i: int| 0 <= i < out@.len() implies (#[trigger] out@[i]).ip == spec_scrape(
            body@,
        )[i].0 && out@[i].port == spec_scrape(body@)[i].1 by {
            assert(out_pairs(out@)[i] == (out@[i].ip, out@[i].port));
        }
    }
    out
}

/// The endpoints of a proxy list, in order.
pub open spec fn out_pairs(ps: Seq<Proxy>) -> Seq<(Ipv4, u16)> {
    ps.map_values(|p: Proxy| (p.ip, p.port))
}

/// A provider scraping the free-proxy-list family of sites.
#[derive(Debug, Clone, Copy)]
pub struct FreeProxyListProvider;

impl FreeProxyListProvider {
    /// The sources this provider crawls.
    pub fn sources(&self) -> (r: Vec<Source>)
        ensures
            r@.len() == 5,
            forall|i: int| 0 <= i < 4 ==> (#[trigger] r@[i]).default_types@ == spec_http_protocols(),
            r@[4].default_types@ == spec_socks_protocols(),
            r@[0].url@ == "https://www.sslproxies.org/"@,
            r@[1].url@ == "https://free-proxy-list.net/uk-proxy.html"@,
            r@[2].url@ == "https://www.us-proxy.org/"@,
            r@[3].url@ == "https://free-proxy-list.net/"@,
            r@[4].url@ == "https://socks-proxy.net/"@,
    {
        let mut out: Vec<Source> = Vec::new();
        out.push(Source::http("https://www.sslproxies.org/"));
        out.push(Source::http("https://free-proxy-list.net/uk-proxy.html"));
        out.push(Source::http("https://www.us-proxy.org/"));
        out.push(Source::http("https://free-proxy-list.net/"));
        out.push(Source::socks("https://socks-proxy.net/"));
        out
    }
}

/// A provider reading the single proxyscrape listing endpoint.
#[derive(Debug, Clone, Copy)]
pub struct ProxyscrapeProvider;

impl ProxyscrapeProvider {
    /// The sources this provider crawls.
    pub fn sources(&self) -> (r: Vec<Source>)
        ensures
            r@.len() == 1,
            r@[0].default_types@ == spec_all_protocols(),
            r@[0].url@
                == "https://api.proxyscrape.com/v4/free-proxy-list/get?request=display_proxies&proxy_format=ipport&format=text"@,
    {
        let mut out: Vec<Source> = Vec::new();
        out.push(
            Source::all(
                "https://api.proxyscrape.com/v4/free-proxy-list/get?request=display_proxies&proxy_format=ipport&format=text",
            ),
        );
        out
    }
}

/// A provider reading raw proxy lists out of GitHub repositories.
#[derive(Debug, Clone, Copy)]
pub struct GithubRepoProvider;

/// The raw-content URL of a repository path.
pub open spec fn spec_githubusercontent(path: Seq<char>) -> Seq<char> {
    "https://raw.githubusercontent.com/"@ + path
}

impl GithubRepoProvider {
    /// The raw-content URL of a repository path.
    pub fn githubusercontent(&self, path: &str) -> (r: String)
        ensures
            r@ == spec_githubusercontent(path@),
    {
        let mut out = String::from_str("https://raw.githubusercontent.com/");
        out.append(path);
        out
    }

    /// The sources this provider crawls: HTTP lists as HTTP-flavoured
    /// sources, SOCKS lists as SOCKS sources, and one mixed list.
    pub fn sources(&self) -> (r: Vec<Source>)
        ensures
            r@.len() == 21,
            forall|i: int|
                0 <= i < r@.len() ==> (#[trigger] r@[i]).url@ == spec_githubusercontent(
                    spec_github_paths()[i].0,
                ),
            forall|i: int|
                0 <= i < r@.len() ==> (#[trigger] r@[i]).default_types@ == (
                if spec_github_paths()[i].1 == 0 {
                    spec_http_protocols()
                } else if spec_github_paths()[i].1 == 1 {
                    spec_socks_protocols()
                } else {
                    spec_all_protocols()
                }),
    {
        let mut out: Vec<Source> = Vec::new();
        out.push(Source::http(self.githubusercontent("zevtyardt/proxy-list/main/http.txt").as_str()));
        out.push(
            Source::socks(self.githubusercontent("zevtyardt/proxy-list/main/socks4.txt").as_str()),
        );
        out.push(
            Source::socks(self.githubusercontent("zevtyardt/proxy-list/main/socks5.txt").as_str()),
        );
        out.push(
            Source::http(self.githubusercontent("TheSpeedX/SOCKS-List/master/http.txt").as_str()),
        );
        out.push(
            Source::socks(self.githubusercontent("TheSpeedX/SOCKS-List/master/socks4.txt").as_str()),
        );
        out.push(
            Source::socks(self.githubusercontent("TheSpeedX/SOCKS-List/master/socks5.txt").as_str()),
        );
        out.push(
            Source::http(
                self.githubusercontent("monosans/proxy-list/main/proxies/http.txt").as_str(),
            ),
        );
        out.push(
            Source::socks(
                self.githubusercontent("monosans/proxy-list/main/proxies/socks5.txt").as_str(),
            ),
        );
        out.push(
            Source::socks(
                self.githubusercontent("monosans/proxy-list/main/proxies/socks5.txt").as_str(),
            ),
        );
        out.push(
            Source::socks(self.githubusercontent("hookzof/socks5_list/master/proxy.txt").as_str()),
        );
        out.push(Source::http(self.githubusercontent("mmpx12/proxy-list/master/http.txt").as_str()));
        out.push(
            Source::http(self.githubusercontent("mmpx12/proxy-list/master/https.txt").as_str()),
        );
        out.push(
            Source::socks(self.githubusercontent("mmpx12/proxy-list/master/socks4.txt").as_str()),
        );
        out.push(
            Source::socks(self.githubusercontent("mmpx12/proxy-list/master/socks5.txt").as_str()),
        );
        out.push(
            Source::all(
                self.githubusercontent("proxifly/free-proxy-list/main/proxies/all/data.txt").as_str(),
            ),
        );
        out.push(
            Source::http(self.githubusercontent("MuRongPIG/Proxy-Master/main/http.txt").as_str()),
        );
        out.push(
            Source::socks(self.githubusercontent("MuRongPIG/Proxy-Master/main/socks4.txt").as_str()),
        );
        out.push(Source::http(self.githubusercontent("zloi-user/hideip.me/main/http.txt").as_str()));
        out.push(
            Source::http(self.githubusercontent("zloi-user/hideip.me/main/https.txt").as_str()),
        );
        out.push(
            Source::socks(self.githubusercontent("zloi-user/hideip.me/main/socks4.txt").as_str()),
        );
        out.push(
            Source::socks(self.githubusercontent("zloi-user/hideip.me/main/socks5.txt").as_str()),
        );
        out
    }
}

/// The repository paths this provider reads, each with its flavour:
/// `0` for HTTP-flavoured, `1` for SOCKS, `2` for mixed.
pub open spec fn spec_github_paths() -> Seq<(Seq<char>, int)> {
    seq![
        ("zevtyardt/proxy-list/main/http.txt"@, 0),
        ("zevtyardt/proxy-list/main/socks4.txt"@, 1),
        ("zevtyardt/proxy-list/main/socks5.txt"@, 1),
        ("TheSpeedX/SOCKS-List/master/http.txt"@, 0),
        ("TheSpeedX/SOCKS-List/master/socks4.txt"@, 1),
        ("TheSpeedX/SOCKS-List/master/socks5.txt"@, 1),
        ("monosans/proxy-list/main/proxies/http.txt"@, 0),
        ("monosans/proxy-list/main/proxies/socks5.txt"@, 1),
        ("monosans/proxy-list/main/proxies/socks5.txt"@, 1),
        ("hookzof/socks5_list/master/proxy.txt"@, 1),
        ("mmpx12/proxy-list/master/http.txt"@, 0),
        ("mmpx12/proxy-list/master/https.txt"@, 0),
        ("mmpx12/proxy-list/master/socks4.txt"@, 1),
        ("mmpx12/proxy-list/master/socks5.txt"@, 1),
        ("proxifly/free-proxy-list/main/proxies/all/data.txt"@, 2),
        ("MuRongPIG/Proxy-Master/main/http.txt"@, 0),
        ("MuRongPIG/Proxy-Master/main/socks4.txt"@, 1),
        ("zloi-user/hideip.me/main/http.txt"@, 0),
        ("zloi-user/hideip.me/main/https.txt"@, 0),
        ("zloi-user/hideip.me/main/socks4.txt"@, 1),
        ("zloi-user/hideip.me/main/socks5.txt"@, 1),
    ]
}

} // verus!
