//! The HTTP anonymity classifier and the judge endpoints it probes. A
//! judge echoes the request it saw; what its reply body contains decides
//! the anonymity level the proxy grants.

use vstd::prelude::*;

use crate::models::Anonymity;
use crate::text::{contains_bytes, spec_contains, spec_upper, to_upper};

verus! {

/// The proxy-indicator header names, upper-case: one of these in a judge
/// body betrays a proxy in the path.
pub open spec fn spec_indicators() -> Seq<Seq<u8>> {
    seq![
        // X-REAL-IP
        seq![88u8, 45u8, 82u8, 69u8, 65u8, 76u8, 45u8, 73u8, 80u8],
        // X-FORWARDED-FOR
        seq![
            88u8,
            45u8,
            70u8,
            79u8,
            82u8,
            87u8,
            65u8,
            82u8,
            68u8,
            69u8,
            68u8,
            45u8,
            70u8,
            79u8,
            82u8,
        ],
        // X-PROXY-ID
        seq![88u8, 45u8, 80u8, 82u8, 79u8, 88u8, 89u8, 45u8, 73u8, 68u8],
        // VIA
        seq![86u8, 73u8, 65u8],
        // FORWARDED-FOR
        seq![70u8, 79u8, 82u8, 87u8, 65u8, 82u8, 68u8, 69u8, 68u8, 45u8, 70u8, 79u8, 82u8],
        // X-FORWARDED
        seq![88u8, 45u8, 70u8, 79u8, 82u8, 87u8, 65u8, 82u8, 68u8, 69u8, 68u8],
        // HTTP-FORWARDED
        seq![72u8, 84u8, 84u8, 80u8, 45u8, 70u8, 79u8, 82u8, 87u8, 65u8, 82u8, 68u8, 69u8, 68u8],
        // CLIENT-IP
        seq![67u8, 76u8, 73u8, 69u8, 78u8, 84u8, 45u8, 73u8, 80u8],
        // FORWARDED-FOR-IP
        seq![
            70u8,
            79u8,
            82u8,
            87u8,
            65u8,
            82u8,
            68u8,
            69u8,
            68u8,
            45u8,
            70u8,
            79u8,
            82u8,
            45u8,
            73u8,
            80u8,
        ],
        // FORWARDED_FOR
        seq![70u8, 79u8, 82u8, 87u8, 65u8, 82u8, 68u8, 69u8, 68u8, 95u8, 70u8, 79u8, 82u8],
        // X_FORWARDED
        seq![88u8, 95u8, 70u8, 79u8, 82u8, 87u8, 65u8, 82u8, 68u8, 69u8, 68u8],
        // CLIENT_IP
        seq![67u8, 76u8, 73u8, 69u8, 78u8, 84u8, 95u8, 73u8, 80u8],
        // PROXY-CONNECTION
        seq![
            80u8,
            82u8,
            79u8,
            88u8,
            89u8,
            45u8,
            67u8,
            79u8,
            78u8,
            78u8,
            69u8,
            67u8,
            84u8,
            73u8,
            79u8,
            78u8,
        ],
        // X-PROXY-CONNECTION
        seq![
            88u8,
            45u8,
            80u8,
            82u8,
            79u8,
            88u8,
            89u8,
            45u8,
            67u8,
            79u8,
            78u8,
            78u8,
            69u8,
            67u8,
            84u8,
            73u8,
            79u8,
            78u8,
        ],
        // X-IMFORWARDS
        seq![88u8, 45u8, 73u8, 77u8, 70u8, 79u8, 82u8, 87u8, 65u8, 82u8, 68u8, 83u8],
    ]
}

/// Builds the indicator list for scanning.
pub fn indicators() -> (r: Vec<Vec<u8>>)
    ensures
        r@.len() == spec_indicators().len(),
        forall|i: int| 0 <= i < r@.len() ==> (#[trigger] r@[i])@ == spec_indicators()[i],
{
    let mut out: Vec<Vec<u8>> = Vec::new();
    // X-REAL-IP
    out.push(vec![88u8, 45u8, 82u8, 69u8, 65u8, 76u8, 45u8, 73u8, 80u8]);
    // X-FORWARDED-FOR
    out.push(
        vec![88u8, 45u8, 70u8, 79u8, 82u8, 87u8, 65u8, 82u8, 68u8, 69u8, 68u8, 45u8, 70u8, 79u8, 82u8],
    );
    // X-PROXY-ID
    out.push(vec![88u8, 45u8, 80u8, 82u8, 79u8, 88u8, 89u8, 45u8, 73u8, 68u8]);
    // VIA
    out.push(vec![86u8, 73u8, 65u8]);
    // FORWARDED-FOR
    out.push(vec![70u8, 79u8, 82u8, 87u8, 65u8, 82u8, 68u8, 69u8, 68u8, 45u8, 70u8, 79u8, 82u8]);
    // X-FORWARDED
    out.push(vec![88u8, 45u8, 70u8, 79u8, 82u8, 87u8, 65u8, 82u8, 68u8, 69u8, 68u8]);
    // HTTP-FORWARDED
    out.push(vec![72u8, 84u8, 84u8, 80u8, 45u8, 70u8, 79u8, 82u8, 87u8, 65u8, 82u8, 68u8, 69u8, 68u8]);
    // CLIENT-IP
    out.push(vec![67u8, 76u8, 73u8, 69u8, 78u8, 84u8, 45u8, 73u8, 80u8]);
    // FORWARDED-FOR-IP
    out.push(
        vec![
            70u8,
            79u8,
            82u8,
            87u8,
            65u8,
            82u8,
            68u8,
            69u8,
            68u8,
            45u8,
            70u8,
            79u8,
            82u8,
            45u8,
            73u8,
            80u8,
        ],
    );
    // FORWARDED_FOR
    out.push(vec![70u8, 79u8, 82u8, 87u8, 65u8, 82u8, 68u8, 69u8, 68u8, 95u8, 70u8, 79u8, 82u8]);
    // X_FORWARDED
    out.push(vec![88u8, 95u8, 70u8, 79u8, 82u8, 87u8, 65u8, 82u8, 68u8, 69u8, 68u8]);
    // CLIENT_IP
    out.push(vec![67u8, 76u8, 73u8, 69u8, 78u8, 84u8, 95u8, 73u8, 80u8]);
    // PROXY-CONNECTION
    out.push(
        vec![80u8, 82u8, 79u8, 88u8, 89u8, 45u8, 67u8, 79u8, 78u8, 78u8, 69u8, 67u8, 84u8, 73u8, 79u8, 78u8],
    );
    // X-PROXY-CONNECTION
    out.push(
        vec![
            88u8,
            45u8,
            80u8,
            82u8,
            79u8,
            88u8,
            89u8,
            45u8,
            67u8,
            79u8,
            78u8,
            78u8,
            69u8,
            67u8,
            84u8,
            73u8,
            79u8,
            78u8,
        ],
    );
    // X-IMFORWARDS
    out.push(vec![88u8, 45u8, 73u8, 77u8, 70u8, 79u8, 82u8, 87u8, 65u8, 82u8, 68u8, 83u8]);
    proof {
        assert forall|i: int| 0 <= i < out@.len() implies (#[trigger] out@[i])@
            == spec_indicators()[i] by {
            assert((out@[i])@ =~= spec_indicators()[i]);
        }
    }
    out
}

/// The upper-cased body carries a proxy-indicator header name, or the
/// proxy's own address text.
pub open spec fn spec_anonymous_marks(body: Seq<u8>, proxy_ip: Seq<u8>) -> bool {
    (exists|i: int|
        0 <= i < spec_indicators().len() && spec_contains(
            spec_upper(body),
            #[trigger] spec_indicators()[i],
        )) || spec_contains(spec_upper(body), proxy_ip)
}

/// What one judge body says about a proxy: nothing when the judge did
/// not echo our user agent; `Transparent` when the client's public
/// address shows; `Anonymous` when a proxy-indicator header or the
/// proxy's own address shows; `Elite` otherwise.
pub open spec fn spec_classify(
    body: Seq<u8>,
    user_agent: Seq<u8>,
    client_ip: Seq<u8>,
    proxy_ip: Seq<u8>,
) -> Option<Anonymity> {
    if !spec_contains(body, user_agent) {
        None
    } else if spec_contains(body, client_ip) {
        Some(Anonymity::Transparent)
    } else if spec_anonymous_marks(body, proxy_ip) {
        Some(Anonymity::Anonymous)
    } else {
        Some(Anonymity::Elite)
    }
}

/// Classifies one judge body. `client_ip` is the client's public address
/// text, `proxy_ip` the proxy's own address text; the indicator scan and
/// the proxy-address scan are case-insensitive.
pub fn classify_body(
    body: &[u8],
    user_agent: &[u8],
    client_ip: &[u8],
    proxy_ip: &[u8],
) -> (r: Option<Anonymity>)
    ensures
        r == spec_classify(body@, user_agent@, client_ip@, proxy_ip@),
{
    if !contains_bytes(body, user_agent) {
        return None;
    }
    if contains_bytes(body, client_ip) {
        return Some(Anonymity::Transparent);
    }
    let upper = to_upper(body);
    let marks = indicators();
    let mut i: usize = 0;
    let mut found = false;
    while i < marks.len()
        invariant
            marks@.len() == spec_indicators().len(),
            forall|k: int| 0 <= k < marks@.len() ==> (#[trigger] marks@[k])@ == spec_indicators()[k],
            upper@ == spec_upper(body@),
            0 <= i <= marks@.len(),
            !found ==> forall|k: int|
                0 <= k < i ==> !spec_contains(upper@, #[trigger] spec_indicators()[k]),
            found ==> spec_anonymous_marks(body@, proxy_ip@),
        decreases marks@.len() - i,
    {
        if contains_bytes(upper.as_slice(), marks[i].as_slice()) {
            found = true;
            proof {
                assert(spec_contains(spec_upper(body@), spec_indicators()[i as int]));
            }
        }
        i = i + 1;
    }
    if found {
        return Some(Anonymity::Anonymous);
    }
    if contains_bytes(upper.as_slice(), proxy_ip) {
        return Some(Anonymity::Anonymous);
    }
    proof {
        assert(!spec_anonymous_marks(body@, proxy_ip@));
    }
    Some(Anonymity::Elite)
}

/// The classifier is sound: a `Transparent` verdict means the body held
/// the client's public address, and an `Elite` verdict means it held
/// neither that address nor any proxy-indicator header, however cased.
pub proof fn lemma_classifier_soundness(
    body: Seq<u8>,
    user_agent: Seq<u8>,
    client_ip: Seq<u8>,
    proxy_ip: Seq<u8>,
)
    ensures
        spec_classify(body, user_agent, client_ip, proxy_ip) == Some(Anonymity::Transparent)
            ==> spec_contains(body, client_ip),
        spec_classify(body, user_agent, client_ip, proxy_ip) == Some(Anonymity::Elite) ==> {
            &&& !spec_contains(body, client_ip)
            &&& !spec_anonymous_marks(body, proxy_ip)
        },
{
}

/// The judge endpoints, in ring order.
pub open spec fn spec_http_judges() -> Seq<Seq<char>> {
    seq![
        "http://azenv.net/"@,
        "http://httpheader.net/azenv.php"@,
        "http://httpbin.org/get?show_env"@,
        "http://mojeip.net.pl/asdfa/azenv.php"@,
        "http://proxyjudge.us"@,
        "http://pascal.hoez.free.fr/azenv.php"@,
        "http://www.9ravens.com/env.cgi"@,
        "http://www3.wind.ne.jp/hassii/env.cgi"@,
        "http://shinh.org/env.cgi"@,
        "http://www2t.biglobe.ne.jp/~take52/test/env.cgi"@,
    ]
}

/// Builds the judge list.
pub fn http_judges() -> (r: Vec<String>)
    ensures
        r@.len() == spec_http_judges().len(),
        forall|i: int| 0 <= i < r@.len() ==> (#[trigger] r@[i])@ == spec_http_judges()[i],
{
    let mut out: Vec<String> = Vec::new();
    out.push(String::from_str("http://azenv.net/"));
    out.push(String::from_str("http://httpheader.net/azenv.php"));
    out.push(String::from_str("http://httpbin.org/get?show_env"));
    out.push(String::from_str("http://mojeip.net.pl/asdfa/azenv.php"));
    out.push(String::from_str("http://proxyjudge.us"));
    out.push(String::from_str("http://pascal.hoez.free.fr/azenv.php"));
    out.push(String::from_str("http://www.9ravens.com/env.cgi"));
    out.push(String::from_str("http://www3.wind.ne.jp/hassii/env.cgi"));
    out.push(String::from_str("http://shinh.org/env.cgi"));
    out.push(String::from_str("http://www2t.biglobe.ne.jp/~take52/test/env.cgi"));
    out
}

/// The judges one probe walks: exactly `max_attempts` of them, cycling
/// through the ring, so a probe with `max_attempts` of one tries exactly
/// one judge.
pub fn judge_ring(max_attempts: usize) -> (r: Vec<String>)
    ensures
        r@.len() == max_attempts,
        forall|i: int|
            0 <= i < r@.len() ==> (#[trigger] r@[i])@ == spec_http_judges()[i
                % spec_http_judges().len() as int],
{
    let judges = http_judges();
    let n = judges.len();
    let mut out: Vec<String> = Vec::new();
    let mut i: usize = 0;
    while i < max_attempts
        invariant
            n == spec_http_judges().len(),
            judges@.len() == n,
            forall|k: int|
                0 <= k < judges@.len() ==> (#[trigger] judges@[k])@ == spec_http_judges()[k],
            out@.len() == i,
            0 <= i <= max_attempts,
            forall|k: int|
                0 <= k < i ==> (#[trigger] out@[k])@ == spec_http_judges()[k
                    % spec_http_judges().len() as int],
        decreases max_attempts - i,
    {
        let judge = &judges[i % n];
        out.push(judge.clone());
        i = i + 1;
    }
    out
}

} // verus!
