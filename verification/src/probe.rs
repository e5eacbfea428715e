//! Classification of probe outcomes: which HTTP statuses count as reachable
//! for a target, and which kind of transport failure a request met.

use vstd::prelude::*;
use crate::text::{
    contains_seq, decimal, decimal_string, lower_chars, lower_contains, lower_seq,
    to_owned_string, upper_equals, upper_seq,
};

verus! {

/// One probe of one target through one node. `latency_ns` is the request
/// time in nanoseconds.
#[derive(Debug, Clone)]
pub struct ProbeResult {
    pub target: String,
    pub url: String,
    pub latency_ns: u64,
    pub status_code: Option<u16>,
    pub is_success: bool,
    pub failure_kind: Option<String>,
}

#[derive(Debug, Clone)]
pub struct Classification {
    pub is_success: bool,
}

/// The kind of the innermost I/O error behind a transport failure, as far
/// as the classification reads it.
#[derive(Debug, Clone, Copy, PartialEq, Eq)]
pub enum IoErrorKind {
    ConnectionReset,
    Other,
}

/// Whether `status_code` counts as success for `target`: BINANCE accepts
/// 200 and 403, OPENAI accepts 200, 401 and 403 (names compared in ASCII
/// upper case), every other target accepts 2xx and 3xx.
pub open spec fn spec_classify(target: Seq<char>, status_code: u16) -> bool {
    let t = upper_seq(target);
    if t =~= "BINANCE"@ {
        status_code == 200 || status_code == 403
    } else if t =~= "OPENAI"@ {
        status_code == 200 || status_code == 401 || status_code == 403
    } else {
        200 <= status_code < 400
    }
}

pub fn classify(target: &str, status_code: u16) -> (c: Classification)
    ensures
        c.is_success == spec_classify(target@, status_code),
{
    let is_success = if upper_equals(target, "BINANCE") {
        status_code == 200 || status_code == 403
    } else if upper_equals(target, "OPENAI") {
        status_code == 200 || status_code == 401 || status_code == 403
    } else {
        200 <= status_code && status_code < 400
    };
    Classification { is_success }
}

/// Which statuses count as success, target by target: exactly 200 and 403
/// for BINANCE, exactly 200, 401 and 403 for OPENAI (in any ASCII case), and
/// exactly the 2xx and 3xx statuses for every other target; and two names
/// that differ only in ASCII case are classified alike.
pub proof fn law_classify_statuses(target: Seq<char>, other: Seq<char>, status: u16)
    ensures
        upper_seq(target) == "BINANCE"@ ==> (spec_classify(target, status) <==> (status == 200 || status == 403)),
        upper_seq(target) == "OPENAI"@ ==> (spec_classify(target, status)
            <==> (status == 200 || status == 401 || status == 403)),
        upper_seq(target) != "BINANCE"@ && upper_seq(target) != "OPENAI"@
            ==> (spec_classify(target, status) <==> (200 <= status && status <= 399)),
        upper_seq(target) == upper_seq(other) ==> spec_classify(target, status) == spec_classify(other, status),
{
    let t = upper_seq(target);
    assert("OPENAI"@.len() != "BINANCE"@.len()) by {
        reveal_strlit("BINANCE");
        reveal_strlit("OPENAI");
    }
    if t =~= "BINANCE"@ {
        assert(t == "BINANCE"@);
    }
    if t =~= "OPENAI"@ {
        assert(t == "OPENAI"@);
    }
}

pub open spec fn mentions(message: Seq<char>, word: Seq<char>) -> bool {
    contains_seq(lower_seq(message), word)
}

/// The failure kind of a transport error: a timeout first, then a
/// connection reset (by I/O kind or by message), then a TLS failure (by
/// message), else a generic transport error. Messages are searched in
/// ASCII lower case.
pub open spec fn spec_transport_kind(is_timeout: bool, message: Seq<char>, io_kind: Option<IoErrorKind>) -> Seq<char> {
    if is_timeout {
        "timeout"@
    } else if io_kind == Some(IoErrorKind::ConnectionReset)
        || mentions(message, "connection reset"@)
        || mentions(message, "tcp reset"@) {
        "tcp_reset"@
    } else if mentions(message, "tls"@) || mentions(message, "ssl"@)
        || mentions(message, "certificate"@) || mentions(message, "handshake"@)
        || mentions(message, "x509"@) {
        "tls_fail"@
    } else {
        "transport_error"@
    }
}

/// The failure kind of a transport error: `timeout` for any timeout; else
/// `tcp_reset` for a connection reset, whether the I/O error says so or the
/// message mentions "connection reset" or "tcp reset" in any ASCII case;
/// else `tls_fail` when the message mentions tls, ssl, certificate,
/// handshake or x509 in any ASCII case; else `transport_error`.
pub proof fn law_transport_kinds(is_timeout: bool, message: Seq<char>, io_kind: Option<IoErrorKind>)
    ensures
        is_timeout ==> spec_transport_kind(is_timeout, message, io_kind) == "timeout"@,
        !is_timeout && (io_kind == Some(IoErrorKind::ConnectionReset)
            || contains_seq(lower_seq(message), "connection reset"@)
            || contains_seq(lower_seq(message), "tcp reset"@))
            ==> spec_transport_kind(is_timeout, message, io_kind) == "tcp_reset"@,
        !is_timeout && io_kind != Some(IoErrorKind::ConnectionReset)
            && !contains_seq(lower_seq(message), "connection reset"@)
            && !contains_seq(lower_seq(message), "tcp reset"@)
            && (contains_seq(lower_seq(message), "tls"@) || contains_seq(lower_seq(message), "ssl"@)
                || contains_seq(lower_seq(message), "certificate"@) || contains_seq(lower_seq(message), "handshake"@)
                || contains_seq(lower_seq(message), "x509"@))
            ==> spec_transport_kind(is_timeout, message, io_kind) == "tls_fail"@,
        !is_timeout && io_kind != Some(IoErrorKind::ConnectionReset)
            && !contains_seq(lower_seq(message), "connection reset"@)
            && !contains_seq(lower_seq(message), "tcp reset"@)
            && !contains_seq(lower_seq(message), "tls"@) && !contains_seq(lower_seq(message), "ssl"@)
            && !contains_seq(lower_seq(message), "certificate"@) && !contains_seq(lower_seq(message), "handshake"@)
            && !contains_seq(lower_seq(message), "x509"@)
            ==> spec_transport_kind(is_timeout, message, io_kind) == "transport_error"@,
{
}

pub fn classify_transport_error_parts(
    is_timeout: bool,
    message: &str,
    io_kind: Option<IoErrorKind>,
) -> (r: String)
    ensures
        r@ == spec_transport_kind(is_timeout, message@, io_kind),
{
    if is_timeout {
        return to_owned_string("timeout");
    }
    let lower = lower_chars(message);
    let reset_kind = match io_kind {
        Some(IoErrorKind::ConnectionReset) => true,
        _ => false,
    };
    if reset_kind || lower_contains(&lower, "connection reset") || lower_contains(&lower, "tcp reset") {
        return to_owned_string("tcp_reset");
    }
    if lower_contains(&lower, "tls") || lower_contains(&lower, "ssl")
        || lower_contains(&lower, "certificate") || lower_contains(&lower, "handshake")
        || lower_contains(&lower, "x509") {
        return to_owned_string("tls_fail");
    }
    to_owned_string("transport_error")
}

/// `"http_status_"` followed by the decimal status code.
pub open spec fn http_status_kind(status: u16) -> Seq<char> {
    "http_status_"@ + decimal(status as nat)
}

pub fn http_status_failure(status: u16) -> (r: String)
    ensures
        r@ == http_status_kind(status),
{
    let mut s = to_owned_string("http_status_");
    let d = decimal_string(status as u64);
    s.append(d.as_str());
    s
}

/// The result of a probe that got an HTTP response with `status`.
pub fn response_result(target: &str, url: &str, latency_ns: u64, status: u16) -> (r: ProbeResult)
    ensures
        r.target@ == target@,
        r.url@ == url@,
        r.latency_ns == latency_ns,
        r.status_code == Some(status),
        r.is_success == spec_classify(target@, status),
        r.is_success ==> r.failure_kind.is_none(),
        !r.is_success ==> (r.failure_kind matches Some(k) && k@ == http_status_kind(status)),
{
    let classification = classify(target, status);
    let failure_kind = if classification.is_success {
        None
    } else {
        Some(http_status_failure(status))
    };
    ProbeResult {
        target: to_owned_string(target),
        url: to_owned_string(url),
        latency_ns,
        status_code: Some(status),
        is_success: classification.is_success,
        failure_kind,
    }
}

/// The result of a probe whose request failed before any response.
pub fn transport_failure_result(
    target: &str,
    url: &str,
    latency_ns: u64,
    is_timeout: bool,
    message: &str,
    io_kind: Option<IoErrorKind>,
) -> (r: ProbeResult)
    ensures
        r.target@ == target@,
        r.url@ == url@,
        r.latency_ns == latency_ns,
        r.status_code.is_none(),
        !r.is_success,
        r.failure_kind matches Some(k) && k@ == spec_transport_kind(is_timeout, message@, io_kind),
{
    ProbeResult {
        target: to_owned_string(target),
        url: to_owned_string(url),
        latency_ns,
        status_code: None,
        is_success: false,
        failure_kind: Some(classify_transport_error_parts(is_timeout, message, io_kind)),
    }
}

} // verus!
