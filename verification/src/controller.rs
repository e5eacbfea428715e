//! The controller endpoint: where its API is reached, the URL of a proxy
//! group, and the checks before a switch request.

use vstd::prelude::*;
use crate::text::{is_blank_str, starts_with_str, to_owned_string, trim_seq, trim_string};

verus! {

/// How the controller's API is reached.
#[derive(Debug, Clone, PartialEq, Eq)]
pub enum ControllerEndpoint {
    /// Over the unix socket at `socket_path`.
    UnixSocket { socket_path: String },
    /// Over HTTP, below `base` (which ends in no `/`).
    Http { base: String },
}

pub enum EndpointView {
    UnixSocket { socket_path: Seq<char> },
    Http { base: Seq<char> },
}

impl View for ControllerEndpoint {
    type V = EndpointView;

    open spec fn view(&self) -> EndpointView {
        match self {
            ControllerEndpoint::UnixSocket { socket_path } => EndpointView::UnixSocket { socket_path: socket_path@ },
            ControllerEndpoint::Http { base } => EndpointView::Http { base: base@ },
        }
    }
}

/// Why a controller request was refused before it was sent.
#[derive(Debug, Clone, PartialEq, Eq)]
pub enum ControllerError {
    /// The base URL is empty once trimmed (or of slashes only).
    EmptyBaseUrl,
    /// A `unix://` base URL names no socket.
    EmptySocketPath,
    /// The group of a switch is blank.
    EmptyGroup,
    /// The node of a switch is blank.
    EmptyNode,
}

/// `s` without its trailing `/` characters.
pub open spec fn strip_trailing_slashes(s: Seq<char>) -> Seq<char>
    decreases s.len(),
{
    if s.len() > 0 && s.last() == '/' {
        strip_trailing_slashes(s.drop_last())
    } else {
        s
    }
}

pub open spec fn has_unix_scheme(raw: Seq<char>) -> bool {
    "unix://"@.len() <= raw.len() && raw.subrange(0, "unix://"@.len() as int) == "unix://"@
}

/// The endpoint a base URL names: after trimming, `unix://` and a socket
/// path (trimmed too), or an HTTP base without trailing slashes.
pub open spec fn spec_endpoint(base_url: Seq<char>) -> Result<EndpointView, ControllerError> {
    let raw = trim_seq(base_url);
    if raw.len() == 0 {
        Err(ControllerError::EmptyBaseUrl)
    } else if has_unix_scheme(raw) {
        let path = trim_seq(raw.skip("unix://"@.len() as int));
        if path.len() == 0 {
            Err(ControllerError::EmptySocketPath)
        } else {
            Ok(EndpointView::UnixSocket { socket_path: path })
        }
    } else {
        let base = strip_trailing_slashes(raw);
        if base.len() == 0 {
            Err(ControllerError::EmptyBaseUrl)
        } else {
            Ok(EndpointView::Http { base })
        }
    }
}

fn without_trailing_slashes(s: &str) -> (r: String)
    ensures
        r@ == strip_trailing_slashes(s@),
{
    let n = s.unicode_len();
    let mut b: usize = n;
    assert(s@.subrange(0, n as int) =~= s@);
    while b > 0 && s.get_char(b - 1) == '/'
        invariant
            n == s@.len(),
            b <= n,
            strip_trailing_slashes(s@.subrange(0, b as int)) == strip_trailing_slashes(s@),
        decreases b,
    {
        assert(s@.subrange(0, b as int).drop_last() =~= s@.subrange(0, b - 1));
        b = b - 1;
    }
    to_owned_string(s.substring_char(0, b))
}

/// Where the controller at `base_url` is reached.
pub fn controller_endpoint(base_url: &str) -> (r: Result<ControllerEndpoint, ControllerError>)
    ensures
        match (r, spec_endpoint(base_url@)) {
            (Ok(e), Ok(v)) => e@ == v,
            (Err(e), Err(f)) => e == f,
            _ => false,
        },
{
    let raw = trim_string(base_url);
    let raw_str = raw.as_str();
    if raw_str.unicode_len() == 0 {
        return Err(ControllerError::EmptyBaseUrl);
    }
    if starts_with_str(raw_str, "unix://") {
        let scheme = "unix://";
        let m = scheme.unicode_len();
        let rest = raw_str.substring_char(m, raw_str.unicode_len());
        assert(rest@ =~= raw@.skip(m as int));
        let path = trim_string(rest);
        if path.as_str().unicode_len() == 0 {
            return Err(ControllerError::EmptySocketPath);
        }
        return Ok(ControllerEndpoint::UnixSocket { socket_path: path });
    }
    let base = without_trailing_slashes(raw_str);
    if base.as_str().unicode_len() == 0 {
        return Err(ControllerError::EmptyBaseUrl);
    }
    Ok(ControllerEndpoint::Http { base })
}

/// The base of every request URL: `http://localhost` over a unix socket.
pub fn request_base(endpoint: &ControllerEndpoint) -> (r: String)
    ensures
        r@ == match endpoint@ {
            EndpointView::UnixSocket { .. } => "http://localhost"@,
            EndpointView::Http { base } => base,
        },
{
    match endpoint {
        ControllerEndpoint::UnixSocket { .. } => to_owned_string("http://localhost"),
        ControllerEndpoint::Http { base } => base.clone(),
    }
}

/// The URL of a proxy group: `{base}/proxies/{group}`.
pub fn group_url(base: &str, group: &str) -> (r: String)
    ensures
        r@ == base@ + "/proxies/"@ + group@,
{
    let mut s = to_owned_string(base);
    s.append("/proxies/");
    s.append(group);
    s
}

/// A switch names a group and a node, neither of them blank.
pub fn check_switch(group: &str, node: &str) -> (r: Result<(), ControllerError>)
    ensures
        match r {
            Ok(()) => trim_seq(group@).len() > 0 && trim_seq(node@).len() > 0,
            Err(e) => (trim_seq(group@).len() == 0 && e == ControllerError::EmptyGroup)
                || (trim_seq(group@).len() > 0 && trim_seq(node@).len() == 0 && e == ControllerError::EmptyNode),
        },
{
    if is_blank_str(group) {
        return Err(ControllerError::EmptyGroup);
    }
    if is_blank_str(node) {
        return Err(ControllerError::EmptyNode);
    }
    Ok(())
}

} // verus!
