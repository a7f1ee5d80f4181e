//! The connection health check: which proxy URL is tested, how each answer
//! of a public-IP provider is read, and the result reported to the user. The
//! requests themselves are made by the caller, which hands each answer in.

use vstd::prelude::*;
use crate::text::{
    chars_eq_str, chars_of, decimal, lowercase_span, push_decimal, push_str,
    span_string, spec_lowercase, string_from_chars, trim, trim_span,
};

verus! {

/// The services asked for the public IP address, in order.
pub fn public_ip_providers() -> (r: Vec<&'static str>)
    ensures
        r@.len() == 3,
        r@[0]@ == "https://api.ipify.org"@,
        r@[1]@ == "https://api64.ipify.org"@,
        r@[2]@ == "https://ifconfig.me/ip"@,
{
    let mut r: Vec<&'static str> = Vec::new();
    r.push("https://api.ipify.org");
    r.push("https://api64.ipify.org");
    r.push("https://ifconfig.me/ip");
    r
}

/// A cached public IP address is reused for five minutes.
pub fn ip_cache_is_fresh(age_secs: u64) -> (r: bool)
    ensures
        r == (age_secs < 300),
{
    age_secs < 300
}

/// The proxy URL tested for a profile: HTTP when its proxy type is `http` in
/// any case, else SOCKS5, on the local port.
pub open spec fn proxy_url_text(lowered_type: Seq<char>, port: u16) -> Seq<char> {
    (if lowered_type == "http"@ {
        "http"@
    } else {
        "socks5"@
    }) + "://127.0.0.1:"@ + decimal(port as nat)
}

/// The proxy URL tested, given the proxy type already in lowercase.
pub fn proxy_url_from_lowered(lowered_type: &Vec<char>, port: u16) -> (r: String)
    ensures
        r@ == proxy_url_text(lowered_type@, port),
{
    let mut out: Vec<char> = Vec::new();
    if chars_eq_str(lowered_type, "http") {
        push_str(&mut out, "http");
    } else {
        push_str(&mut out, "socks5");
    }
    push_str(&mut out, "://127.0.0.1:");
    push_decimal(&mut out, port as u64);
    assert(out@ =~= proxy_url_text(lowered_type@, port));
    string_from_chars(&out)
}

/// The proxy URL tested for a profile with the given proxy type and port.
pub fn proxy_url_for(proxy_type: &str, port: u16) -> (r: String)
    ensures
        r@ == proxy_url_text(spec_lowercase(proxy_type@), port),
{
    let v = chars_of(proxy_type);
    let lower = lowercase_span(&v, 0, v.len());
    assert(v@.subrange(0, v@.len() as int) =~= v@);
    proxy_url_from_lowered(&lower, port)
}

/// The outcome of a health check.
#[derive(Debug)]
pub struct ConnectionHealthResult {
    pub success: bool,
    pub tunnel_active: bool,
    pub exit_ip: String,
    pub local_ip: String,
    pub latency_ms: u64,
    pub error: String,
}

pub open spec fn health_is(
    r: ConnectionHealthResult,
    success: bool,
    tunnel_active: bool,
    exit_ip: Seq<char>,
    local_ip: Seq<char>,
    latency_ms: u64,
    error: Seq<char>,
) -> bool {
    &&& r.success == success
    &&& r.tunnel_active == tunnel_active
    &&& r.exit_ip@ == exit_ip
    &&& r.local_ip@ == local_ip
    &&& r.latency_ms == latency_ms
    &&& r.error@ == error
}

/// Traffic goes through the tunnel when both addresses are known and differ.
pub open spec fn tunnel_is_active(exit_ip: Seq<char>, local_ip: Seq<char>) -> bool {
    exit_ip.len() > 0 && local_ip.len() > 0 && exit_ip != local_ip
}

/// Whether traffic leaves through the tunnel, from the address seen through
/// the proxy and the address seen without it.
pub fn tunnel_active(exit_ip: &String, local_ip: &String) -> (r: bool)
    ensures
        r == tunnel_is_active(exit_ip@, local_ip@),
{
    let e = chars_of(exit_ip.as_str());
    let l = chars_of(local_ip.as_str());
    e.len() > 0 && l.len() > 0 && !(*exit_ip == *local_ip)
}

/// The result of a health check that stopped before any provider answered.
fn failed(local_ip: String, error: String) -> (r: ConnectionHealthResult)
    ensures
        health_is(r, false, false, Seq::empty(), local_ip@, 0, error@),
{
    let exit_ip = String::new();
    ConnectionHealthResult { success: false, tunnel_active: false, exit_ip, local_ip, latency_ms: 0, error }
}

/// The health check failed because the address without the proxy could not be had.
pub fn local_ip_unavailable(reason: &str) -> (r: ConnectionHealthResult)
    ensures
        health_is(r, false, false, Seq::empty(), Seq::empty(), 0, "Failed to fetch local public IP: "@ + reason@),
{
    let mut out: Vec<char> = Vec::new();
    push_str(&mut out, "Failed to fetch local public IP: ");
    push_str(&mut out, reason);
    failed(String::new(), string_from_chars(&out))
}

/// Why a health check stopped before asking the providers.
#[derive(Debug)]
pub enum HealthFailure {
    /// The profile's generated configuration does not exist.
    MissingConfig,
    /// The proxy URL was refused; holds the reason.
    ProxyUrl(String),
    /// The HTTP client could not be built; holds the reason.
    HttpClient(String),
}

pub open spec fn health_failure_text(f: HealthFailure) -> Seq<char> {
    match f {
        HealthFailure::MissingConfig => "Configuration file not found. Please regenerate configuration."@,
        HealthFailure::ProxyUrl(e) => "Failed to configure proxy URL: "@ + e@,
        HealthFailure::HttpClient(e) => "Failed to build HTTP client: "@ + e@,
    }
}

/// The result of a health check that stopped before asking the providers.
pub fn health_failure(local_ip: String, failure: HealthFailure) -> (r: ConnectionHealthResult)
    ensures
        health_is(r, false, false, Seq::empty(), local_ip@, 0, health_failure_text(failure)),
{
    let mut out: Vec<char> = Vec::new();
    match &failure {
        HealthFailure::MissingConfig => push_str(
            &mut out,
            "Configuration file not found. Please regenerate configuration.",
        ),
        HealthFailure::ProxyUrl(e) => {
            push_str(&mut out, "Failed to configure proxy URL: ");
            push_str(&mut out, e.as_str());
        },
        HealthFailure::HttpClient(e) => {
            push_str(&mut out, "Failed to build HTTP client: ");
            push_str(&mut out, e.as_str());
        },
    }
    failed(local_ip, string_from_chars(&out))
}

/// How a public-IP provider answered a request.
#[derive(Debug)]
pub enum ProviderReply {
    /// A success status with this body.
    Body(String),
    /// A success status whose body could not be read; holds the reason.
    BodyError(String),
    /// A status other than success, as text.
    Status(String),
    /// The request failed; holds the reason.
    RequestError(String),
}

/// The address a reply gives: its trimmed body, when that is not empty.
pub open spec fn reply_ip(reply: ProviderReply) -> Option<Seq<char>> {
    match reply {
        ProviderReply::Body(b) => if trim(b@).len() > 0 {
            Some(trim(b@))
        } else {
            None
        },
        _ => None,
    }
}

/// The last error of a health check after a reply that gave no address.
pub open spec fn probe_error(provider: Seq<char>, reply: ProviderReply, last_error: Seq<char>) -> Seq<char> {
    match reply {
        ProviderReply::Body(_) => last_error,
        ProviderReply::BodyError(e) => "Failed to read body from "@ + provider + ": "@ + e@,
        ProviderReply::Status(s) => "HTTP error from "@ + provider + ": status "@ + s@,
        ProviderReply::RequestError(e) => "Request to "@ + provider + " failed: "@ + e@,
    }
}

/// What a health check does after one provider's reply.
#[derive(Debug)]
pub enum ProbeStep {
    /// The health check is over with this result.
    Done(ConnectionHealthResult),
    /// Ask the next provider; holds the last error so far.
    Next(String),
}

/// The address in a reply, trimmed, when the reply has a non-empty body.
fn reply_address(reply: &ProviderReply) -> (r: Option<String>)
    ensures
        match reply_ip(*reply) {
            Some(ip) => r matches Some(s) && s@ == ip,
            None => r is None,
        },
{
    match reply {
        ProviderReply::Body(b) => {
            let v = chars_of(b.as_str());
            let (x, y) = trim_span(&v, 0, v.len());
            assert(v@.subrange(0, v@.len() as int) =~= v@);
            if x < y {
                Some(span_string(&v, x, y))
            } else {
                None
            }
        },
        _ => None,
    }
}

/// Reads one provider's reply to a request made through the proxy, `latency_ms`
/// after the first request. A non-empty body ends the health check with success,
/// its trimmed text as the exit address and the error "None"; any other reply
/// records why it failed (an empty body keeps the last error) and the health check
/// goes on.
pub fn probe_step(
    provider: &str,
    reply: ProviderReply,
    last_error: String,
    local_ip: &String,
    latency_ms: u64,
) -> (r: ProbeStep)
    ensures
        match reply_ip(reply) {
            Some(ip) => r matches ProbeStep::Done(h) && health_is(
                h,
                true,
                tunnel_is_active(ip, local_ip@),
                ip,
                local_ip@,
                latency_ms,
                "None"@,
            ),
            None => r matches ProbeStep::Next(e) && e@ == probe_error(provider@, reply, last_error@),
        },
{
    if let Some(exit_ip) = reply_address(&reply) {
        let tunnel = tunnel_active(&exit_ip, local_ip);
        return ProbeStep::Done(
            ConnectionHealthResult {
                success: true,
                tunnel_active: tunnel,
                exit_ip,
                local_ip: local_ip.clone(),
                latency_ms,
                error: "None".to_owned(),
            },
        );
    }
    let mut out: Vec<char> = Vec::new();
    match reply {
        ProviderReply::Body(_) => {
            return ProbeStep::Next(last_error);
        },
        ProviderReply::BodyError(e) => {
            push_str(&mut out, "Failed to read body from ");
            push_str(&mut out, provider);
            push_str(&mut out, ": ");
            push_str(&mut out, e.as_str());
        },
        ProviderReply::Status(s) => {
            push_str(&mut out, "HTTP error from ");
            push_str(&mut out, provider);
            push_str(&mut out, ": status ");
            push_str(&mut out, s.as_str());
        },
        ProviderReply::RequestError(e) => {
            push_str(&mut out, "Request to ");
            push_str(&mut out, provider);
            push_str(&mut out, " failed: ");
            push_str(&mut out, e.as_str());
        },
    }
    ProbeStep::Next(string_from_chars(&out))
}

pub open spec fn exhausted_text(last_error: Seq<char>) -> Seq<char> {
    if last_error.len() == 0 {
        "All connection providers failed to respond."@
    } else {
        last_error
    }
}

/// The result of a health check in which no provider gave an address.
pub fn providers_exhausted(local_ip: String, last_error: String) -> (r: ConnectionHealthResult)
    ensures
        health_is(r, false, false, Seq::empty(), local_ip@, 0, exhausted_text(last_error@)),
{
    let v = chars_of(last_error.as_str());
    let error = if v.len() == 0 {
        "All connection providers failed to respond.".to_owned()
    } else {
        last_error
    };
    failed(local_ip, error)
}

/// The tray status after a health check that reached the providers:
/// connected when traffic goes through the tunnel, else an error.
pub fn health_tray_status(r: &ConnectionHealthResult) -> (s: &'static str)
    ensures
        s@ == (if r.tunnel_active {
            "Connected"@
        } else {
            "Error"@
        }),
{
    if r.tunnel_active {
        "Connected"
    } else {
        "Error"
    }
}

/// What the public-IP lookup does after one provider's reply.
#[derive(Debug)]
pub enum IpLookupStep {
    /// The address was found.
    Found(String),
    /// Ask the next provider; holds the last error so far.
    Next(String),
}

/// The last error of the public-IP lookup after a reply that gave no address:
/// only a failed request is recorded.
pub open spec fn lookup_error(provider: Seq<char>, reply: ProviderReply, last_error: Seq<char>) -> Seq<char> {
    match reply {
        ProviderReply::RequestError(e) => "Request to "@ + provider + " failed: "@ + e@,
        _ => last_error,
    }
}

/// Reads one provider's reply to the direct public-IP lookup: a non-empty
/// body gives the address (trimmed); a failed request is recorded as the
/// last error; any other reply is passed over.
pub fn ip_lookup_step(provider: &str, reply: ProviderReply, last_error: String) -> (r: IpLookupStep)
    ensures
        match reply_ip(reply) {
            Some(ip) => r matches IpLookupStep::Found(s) && s@ == ip,
            None => r matches IpLookupStep::Next(e) && e@ == lookup_error(provider@, reply, last_error@),
        },
{
    if let Some(ip) = reply_address(&reply) {
        return IpLookupStep::Found(ip);
    }
    match reply {
        ProviderReply::RequestError(e) => {
            let mut out: Vec<char> = Vec::new();
            push_str(&mut out, "Request to ");
            push_str(&mut out, provider);
            push_str(&mut out, " failed: ");
            push_str(&mut out, e.as_str());
            IpLookupStep::Next(string_from_chars(&out))
        },
        _ => IpLookupStep::Next(last_error),
    }
}

/// The error of a public-IP lookup in which no provider gave an address.
pub fn ip_lookup_failed(last_error: &str) -> (r: String)
    ensures
        r@ == "Failed to fetch local public IP. Last error: "@ + last_error@,
{
    let mut out: Vec<char> = Vec::new();
    push_str(&mut out, "Failed to fetch local public IP. Last error: ");
    push_str(&mut out, last_error);
    string_from_chars(&out)
}

} // verus!
