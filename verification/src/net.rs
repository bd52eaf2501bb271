//! Outbound network rules: the endpoint URLs of the model providers, the host
//! allow-list, and the address classes no request may reach.

use vstd::prelude::*;

use crate::text::{chars_eq, chars_of, copy_range, extend_chars, push_text, str_eq, string_of};

verus! {

/// Trailing slashes removed.
pub open spec fn trim_slashes(s: Seq<char>) -> Seq<char>
    decreases s.len(),
{
    if s.len() > 0 && s.last() == '/' {
        trim_slashes(s.drop_last())
    } else {
        s
    }
}

pub open spec fn ends_with(s: Seq<char>, t: Seq<char>) -> bool {
    s.len() >= t.len() && s.subrange(s.len() - t.len(), s.len() as int) == t
}

/// The OpenAI-compatible API root: the base without trailing slashes, with
/// "/v1" added unless it already ends so.
pub open spec fn v1_base(base: Seq<char>) -> Seq<char> {
    let b = trim_slashes(base);
    if ends_with(b, "/v1"@) {
        b
    } else {
        b + "/v1"@
    }
}

/// The embedding endpoint: Ollama's "/api/embed" on the base as given (less
/// trailing slashes); every other provider the OpenAI-compatible
/// "/v1/embeddings".
pub open spec fn embed_url_of(provider: Seq<char>, base: Seq<char>) -> Seq<char> {
    if provider == "ollama"@ {
        trim_slashes(base) + "/api/embed"@
    } else {
        v1_base(base) + "/embeddings"@
    }
}

/// The chat endpoint: "/v1/chat/completions" under the base, "/v1" not doubled.
pub open spec fn chat_url_of(base: Seq<char>) -> Seq<char> {
    v1_base(base) + "/chat/completions"@
}

fn trimmed_slashes(s: &str) -> (r: Vec<char>)
    ensures
        r@ == trim_slashes(s@),
{
    let cs = chars_of(s);
    let mut e = cs.len();
    proof {
        assert(cs@.subrange(0, cs@.len() as int) =~= cs@);
    }
    while e > 0 && cs[e - 1] == '/'
        invariant
            e <= cs@.len(),
            cs@ == s@,
            trim_slashes(s@) == trim_slashes(cs@.subrange(0, e as int)),
        decreases e,
    {
        proof {
            assert(cs@.subrange(0, e as int).drop_last() =~= cs@.subrange(0, e - 1));
        }
        e = e - 1;
    }
    proof {
        assert(cs@.subrange(0, cs@.len() as int) =~= cs@);
    }
    copy_range(cs.as_slice(), 0, e)
}

fn ends_with_v1(b: &[char]) -> (r: bool)
    ensures
        r == ends_with(b@, "/v1"@),
{
    proof {
        reveal_strlit("/v1");
    }
    let n = b.len();
    if n < 3 {
        return false;
    }
    let r = b[n - 3] == '/' && b[n - 2] == 'v' && b[n - 1] == '1';
    proof {
        let t = b@.subrange(n - 3, n as int);
        if r {
            assert(t =~= "/v1"@);
        } else {
            assert(t[0] != '/' || t[1] != 'v' || t[2] != '1');
        }
    }
    r
}

fn v1_base_exec(base: &str) -> (r: Vec<char>)
    ensures
        r@ == v1_base(base@),
{
    let mut b = trimmed_slashes(base);
    if !ends_with_v1(b.as_slice()) {
        push_text(&mut b, "/v1");
    }
    b
}

/// The embedding endpoint of a provider.
pub fn embed_url_for(provider: &str, base_url: &str) -> (r: String)
    ensures
        r@ == embed_url_of(provider@, base_url@),
{
    if str_eq(provider, "ollama") {
        let mut b = trimmed_slashes(base_url);
        push_text(&mut b, "/api/embed");
        string_of(b.as_slice())
    } else {
        let mut b = v1_base_exec(base_url);
        push_text(&mut b, "/embeddings");
        string_of(b.as_slice())
    }
}

/// The chat-completions endpoint.
pub fn chat_url_for(base_url: &str) -> (r: String)
    ensures
        r@ == chat_url_of(base_url@),
{
    let mut b = v1_base_exec(base_url);
    push_text(&mut b, "/chat/completions");
    string_of(b.as_slice())
}

proof fn lemma_trim_slashes_push(s: Seq<char>)
    ensures
        trim_slashes(s.push('/')) == trim_slashes(s),
{
    assert(s.push('/').drop_last() =~= s);
}

/// Endpoints do not depend on trailing slashes of the base, and the chat and
/// embedding endpoints of an OpenAI-compatible provider share one API root.
pub proof fn lemma_endpoints_agree(provider: Seq<char>, base: Seq<char>)
    ensures
        embed_url_of(provider, base.push('/')) == embed_url_of(provider, base),
        chat_url_of(base.push('/')) == chat_url_of(base),
        provider != "ollama"@ ==> embed_url_of(provider, base) == v1_base(base) + "/embeddings"@
            && chat_url_of(base) == v1_base(base) + "/chat/completions"@,
{
    lemma_trim_slashes_push(base);
}

/// An IP address.
#[derive(Debug, Clone)]
pub enum IpAddress {
    V4(u8, u8, u8, u8),
    /// The eight 16-bit groups.
    V6(u16, u16, u16, u16, u16, u16, u16, u16),
}

/// Private (10/8, 172.16/12, 192.168/16), link-local (169.254/16) or
/// unspecified IPv4 addresses.
pub open spec fn v4_restricted(a: u8, b: u8, c: u8, d: u8) -> bool {
    ||| a == 10
    ||| (a == 172 && 16 <= b <= 31)
    ||| (a == 192 && b == 168)
    ||| (a == 169 && b == 254)
    ||| (a == 0 && b == 0 && c == 0 && d == 0)
}

/// Addresses no request may reach: private, link-local and unspecified ones,
/// IPv6 unique-local (fc00::/7) too, and IPv4-mapped IPv6 addresses by their
/// IPv4 class. Loopback is reachable (the local model server listens there).
pub open spec fn restricted(ip: IpAddress) -> bool {
    match ip {
        IpAddress::V4(a, b, c, d) => v4_restricted(a, b, c, d),
        IpAddress::V6(s0, s1, s2, s3, s4, s5, s6, s7) => {
            let loopback = s0 == 0 && s1 == 0 && s2 == 0 && s3 == 0 && s4 == 0 && s5 == 0 && s6 == 0 && s7 == 1;
            let unspecified = s0 == 0 && s1 == 0 && s2 == 0 && s3 == 0 && s4 == 0 && s5 == 0 && s6 == 0 && s7 == 0;
            let link_local = 0xfe80 <= s0 <= 0xfebf;
            let unique_local = 0xfc00 <= s0 <= 0xfdff;
            let mapped = s0 == 0 && s1 == 0 && s2 == 0 && s3 == 0 && s4 == 0 && s5 == 0xffff;
            !loopback && (unspecified || link_local || unique_local || (mapped && v4_restricted(
                (s6 / 256) as u8,
                (s6 % 256) as u8,
                (s7 / 256) as u8,
                (s7 % 256) as u8,
            )))
        },
    }
}

fn v4_restricted_exec(a: u8, b: u8, c: u8, d: u8) -> (r: bool)
    ensures
        r == v4_restricted(a, b, c, d),
{
    a == 10 || (a == 172 && 16 <= b && b <= 31) || (a == 192 && b == 168) || (a == 169 && b == 254) || (a == 0
        && b == 0 && c == 0 && d == 0)
}

/// Whether a request to the address must be refused.
pub fn is_restricted_ip(ip: &IpAddress) -> (r: bool)
    ensures
        r == restricted(*ip),
{
    match ip {
        IpAddress::V4(a, b, c, d) => v4_restricted_exec(*a, *b, *c, *d),
        IpAddress::V6(s0, s1, s2, s3, s4, s5, s6, s7) => {
            let prefix_zero = *s0 == 0 && *s1 == 0 && *s2 == 0 && *s3 == 0 && *s4 == 0;
            if prefix_zero && *s5 == 0 && *s6 == 0 && *s7 == 1 {
                return false;
            }
            let unspecified = prefix_zero && *s5 == 0 && *s6 == 0 && *s7 == 0;
            let link_local = 0xfe80 <= *s0 && *s0 <= 0xfebf;
            let unique_local = 0xfc00 <= *s0 && *s0 <= 0xfdff;
            let mapped = prefix_zero && *s5 == 0xffff;
            unspecified || link_local || unique_local || (mapped && v4_restricted_exec(
                (*s6 / 256) as u8,
                (*s6 % 256) as u8,
                (*s7 / 256) as u8,
                (*s7 % 256) as u8,
            ))
        },
    }
}

/// The first resolved address that must be refused, if any.
pub fn first_restricted(addrs: &Vec<IpAddress>) -> (r: Option<usize>)
    ensures
        match r {
            Some(i) => i < addrs@.len() && restricted(addrs@[i as int]) && forall|k: int|
                0 <= k < i ==> !restricted(#[trigger] addrs@[k]),
            None => forall|k: int| 0 <= k < addrs@.len() ==> !restricted(#[trigger] addrs@[k]),
        },
{
    let mut i: usize = 0;
    while i < addrs.len()
        invariant
            0 <= i <= addrs@.len(),
            forall|k: int| 0 <= k < i ==> !restricted(#[trigger] addrs@[k]),
        decreases addrs@.len() - i,
    {
        if is_restricted_ip(&addrs[i]) {
            return Some(i);
        }
        i = i + 1;
    }
    None
}

/// Why a host outside the allow-list is refused.
pub open spec fn host_refusal(host: Seq<char>) -> Seq<char> {
    "SSRF 防护：目标主机不在白名单: "@ + host
}

/// Whether a request may go to `host`: only hosts on the allow-list may be
/// reached.
pub fn check_allowed_host(allowed: &Vec<String>, host: &str) -> (r: Result<(), String>)
    ensures
        (exists|k: int| 0 <= k < allowed@.len() && #[trigger] allowed@[k]@ == host@) ==> r is Ok,
        !(exists|k: int| 0 <= k < allowed@.len() && #[trigger] allowed@[k]@ == host@) ==> (r matches Err(m) && m@
            == host_refusal(host@)),
{
    let mut i: usize = 0;
    while i < allowed.len()
        invariant
            0 <= i <= allowed@.len(),
            forall|k: int| 0 <= k < i ==> #[trigger] allowed@[k]@ != host@,
        decreases allowed@.len() - i,
    {
        if str_eq(allowed[i].as_str(), host) {
            return Ok(());
        }
        i = i + 1;
    }
    let mut m = chars_of("SSRF 防护：目标主机不在白名单: ");
    push_text(&mut m, host);
    Err(string_of(m.as_slice()))
}

/// What `url::Url::parse` followed by `host_str` gives for a text: the host,
/// none for a URL without one, or the parse error's message.
pub uninterp spec fn url_host_result(url: Seq<char>) -> Result<Option<Seq<char>>, Seq<char>>;

/// `url::Url::parse`, then `Url::host_str` on the parsed URL (an accessor of
/// the parse result). The claim: the outcome is `url_host_result` of the text,
/// host and error message copied into strings.
#[verifier::external_body]
fn parse_url_host(url: &str) -> (r: Result<Option<String>, String>)
    ensures
        match r {
            Ok(Some(h)) => url_host_result(url@) == Ok::<Option<Seq<char>>, Seq<char>>(Some(h@)),
            Ok(None) => url_host_result(url@) == Ok::<Option<Seq<char>>, Seq<char>>(None),
            Err(e) => url_host_result(url@) == Err::<Option<Seq<char>>, Seq<char>>(e@),
        },
{
    match url::Url::parse(url) {
        Ok(u) => Ok(u.host_str().map(|h| h.to_string())),
        Err(e) => Err(e.to_string()),
    }
}

/// The host of a parse outcome, or why there is none.
pub open spec fn host_outcome(parsed: Result<Option<Seq<char>>, Seq<char>>) -> Result<Seq<char>, Seq<char>> {
    match parsed {
        Ok(Some(h)) => Ok(h),
        Ok(None) => Err("URL 缺少 host"@),
        Err(e) => Err("URL 解析失败: "@ + e),
    }
}

pub open spec fn result_view(r: Result<String, String>) -> Result<Seq<char>, Seq<char>> {
    match r {
        Ok(s) => Ok(s@),
        Err(e) => Err(e@),
    }
}

/// The host from a parse outcome.
pub fn host_from_parsed(parsed: Result<Option<String>, String>) -> (r: Result<String, String>)
    ensures
        result_view(r) == host_outcome(
            match parsed {
                Ok(Some(h)) => Ok(Some(h@)),
                Ok(None) => Ok(None),
                Err(e) => Err(e@),
            },
        ),
{
    match parsed {
        Ok(Some(h)) => Ok(h),
        Ok(None) => Err("URL 缺少 host".to_string()),
        Err(e) => {
            let mut m = chars_of("URL 解析失败: ");
            push_text(&mut m, e.as_str());
            Err(string_of(m.as_slice()))
        },
    }
}

/// The host of a URL.
pub fn extract_host(url: &str) -> (r: Result<String, String>)
    ensures
        result_view(r) == host_outcome(url_host_result(url@)),
{
    let parsed = parse_url_host(url);
    host_from_parsed(parsed)
}

} // verus!
