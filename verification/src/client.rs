//! What a client of the store's server decides from what the server said.
//!
//! Sending requests is not done here. The functions of this module take the
//! plain facts of an answer, such as its status code, and say what they
//! mean: whether the server is healthy, whether a request succeeded,
//! whether something was newly made, and under which address a route lies.
use crate::text::{push_decimal, spec_decimal};
use vstd::prelude::*;
use vstd::string::StringExecFns;

verus! {

/// The status code of an answer that found things in order.
pub const STATUS_OK: u16 = 200;

/// The status code of an answer that made something new.
pub const STATUS_CREATED: u16 = 201;

/// How the probe of the server's health ended.
#[derive(Copy, Clone, Debug, PartialEq, Eq, Structural)]
pub enum Probe {
    /// The server answered, with this status code.
    Answered(u16),
    /// The request failed; the failure carried this status code, or none.
    Failed(Option<u16>),
}

/// What a probe of the server's health comes to.
#[derive(Copy, Clone, Debug, PartialEq, Eq, Structural)]
pub enum Health {
    /// The server can be used.
    Healthy,
    /// The server answered, but not that it is in order.
    NotHealthy(u16),
    /// The request itself failed and says no more.
    Unreachable,
}

/// Whether a status code stands for success: 200 up to 299.
pub open spec fn spec_is_success(code: u16) -> bool {
    200 <= code < 300
}

/// Whether a status code stands for success: 200 up to 299.
pub fn is_success(code: u16) -> (b: bool)
    ensures
        b == spec_is_success(code),
{
    300 > code && code >= 200
}

/// The status code again if it stands for success, and as a failure if not.
pub fn accept_status(code: u16) -> (r: Result<u16, u16>)
    ensures
        spec_is_success(code) ==> r == Ok::<u16, u16>(code),
        !spec_is_success(code) ==> r == Err::<u16, u16>(code),
{
    if is_success(code) {
        Ok(code)
    } else {
        Err(code)
    }
}

/// Whether the server made something new: yes for status 201, no for
/// status 200. The server gives no other status on success, and for any
/// other nothing is said.
pub fn created_from_status(code: u16) -> (r: Option<bool>)
    ensures
        code == STATUS_OK ==> r == Some(false),
        code == STATUS_CREATED ==> r == Some(true),
        code != STATUS_OK && code != STATUS_CREATED ==> r is None,
{
    if code == STATUS_OK {
        Some(false)
    } else if code == STATUS_CREATED {
        Some(true)
    } else {
        None
    }
}

/// What the answer to a request that may make something new comes to. A
/// status that does not stand for success is handed back as the failure.
/// On success it is said whether something new was made, as
/// [`created_from_status`] reads it.
pub fn created_after(code: u16) -> (r: Result<Option<bool>, u16>)
    ensures
        !spec_is_success(code) ==> r == Err::<Option<bool>, u16>(code),
        code == STATUS_OK ==> r == Ok::<Option<bool>, u16>(Some(false)),
        code == STATUS_CREATED ==> r == Ok::<Option<bool>, u16>(Some(true)),
        spec_is_success(code) && code != STATUS_OK && code != STATUS_CREATED ==> r == Ok::<
            Option<bool>,
            u16,
        >(None),
{
    match accept_status(code) {
        Ok(accepted) => Ok(created_from_status(accepted)),
        Err(refused) => Err(refused),
    }
}

/// What a probe of the server's health comes to. The server is healthy when
/// it answered with status 200, or when the request failed with that status
/// attached; it is not healthy under any other status; and a failure
/// without a status says only that the server was not reached.
pub fn judge_health(probe: Probe) -> (h: Health)
    ensures
        h == match probe {
            Probe::Answered(code) => if code == STATUS_OK {
                Health::Healthy
            } else {
                Health::NotHealthy(code)
            },
            Probe::Failed(Some(code)) => if code == STATUS_OK {
                Health::Healthy
            } else {
                Health::NotHealthy(code)
            },
            Probe::Failed(None) => Health::Unreachable,
        },
{
    match probe {
        Probe::Answered(code) => {
            if code != STATUS_OK {
                Health::NotHealthy(code)
            } else {
                Health::Healthy
            }
        },
        Probe::Failed(Some(code)) => {
            if code != STATUS_OK {
                Health::NotHealthy(code)
            } else {
                Health::Healthy
            }
        },
        Probe::Failed(None) => Health::Unreachable,
    }
}

/// The address of a route: `http://`, the host, a colon, the port in
/// decimal, and the route.
pub open spec fn spec_address(host: Seq<char>, port: u32, route: Seq<char>) -> Seq<char> {
    seq!['h', 't', 't', 'p', ':', '/', '/'] + host + seq![':'] + spec_decimal(port as nat) + route
}

/// The address of a route on the given host and port.
pub fn address(host: &str, port: u32, route: &str) -> (r: String)
    ensures
        r@ == spec_address(host@, port, route@),
{
    proof {
        reveal_strlit("http://");
        reveal_strlit(":");
    }
    let mut out = String::new();
    out.append("http://");
    out.append(host);
    out.append(":");
    push_decimal(&mut out, port as u128);
    out.append(route);
    assert(out@ =~= spec_address(host@, port, route@));
    out
}

/// The text of a flag as the server reads it in a query.
pub fn flag_text(flag: bool) -> (r: &'static str)
    ensures
        flag ==> r@ == seq!['t', 'r', 'u', 'e'],
        !flag ==> r@ == seq!['f', 'a', 'l', 's', 'e'],
{
    proof {
        reveal_strlit("true");
        reveal_strlit("false");
    }
    let r = if flag {
        "true"
    } else {
        "false"
    };
    assert(flag ==> r@ =~= seq!['t', 'r', 'u', 'e']);
    assert(!flag ==> r@ =~= seq!['f', 'a', 'l', 's', 'e']);
    r
}

} // verus!
