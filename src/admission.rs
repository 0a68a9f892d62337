use vstd::prelude::*;

use crate::rate_limiter::{RateLimiter, admits, lookup, record};

verus! {

/// The response given to a request turned away: its status and body text.
pub struct Rejection {
    pub status: u16,
    pub body: String,
}

/// What the pipeline does with a request.
pub enum Admission {
    /// Hand the request to the next stage and relay its response unchanged.
    Forward,
    /// Answer at once, without calling the next stage.
    Reject(Rejection),
}

/// The identifier a request is counted under: the address a proxy reported,
/// else the peer's address, else one shared bucket for unidentified clients.
pub open spec fn client_key(real_ip: Option<Seq<char>>, peer: Option<Seq<char>>) -> Seq<char> {
    match real_ip {
        Some(a) => a,
        None => match peer {
            Some(p) => p,
            None => "unknown"@,
        },
    }
}

/// The characters of an optional string.
pub open spec fn view_opt(s: Option<&str>) -> Option<Seq<char>> {
    match s {
        Some(v) => Some(v@),
        None => None,
    }
}

/// Picks the identifier a request is counted under.
pub fn client_identifier(real_ip: Option<&str>, peer: Option<&str>) -> (r: String)
    ensures
        r@ == client_key(view_opt(real_ip), view_opt(peer)),
{
    match real_ip {
        Some(a) => a.to_owned(),
        None => match peer {
            Some(p) => p.to_owned(),
            None => {
                proof {
                    reveal_strlit("unknown");
                }
                "unknown".to_owned()
            },
        },
    }
}

/// The response for a request over its client's limit: status 429 with a
/// fixed text.
pub fn too_many_requests() -> (r: Rejection)
    ensures
        r.status == 429,
        r.body@ == "Too many requests"@,
{
    proof {
        reveal_strlit("Too many requests");
    }
    Rejection { status: 429, body: "Too many requests".to_owned() }
}

impl RateLimiter {
    /// Decides a request's fate: counts it under its client's identifier and
    /// forwards it when admitted, or answers with 429 when the client is over
    /// its limit for the current window.
    pub fn intercept(&mut self, real_ip: Option<&str>, peer: Option<&str>, now: u64) -> (a: Admission)
        requires
            old(self).wf(),
        ensures
            final(self).wf(),
            final(self).max_requests() == old(self).max_requests(),
            final(self).window() == old(self).window(),
            final(self)@ == record(
                old(self).max_requests(),
                old(self).window(),
                old(self)@,
                client_key(view_opt(real_ip), view_opt(peer)),
                now as nat,
            ),
            match a {
                Admission::Forward => admits(
                    old(self).max_requests(),
                    old(self).window(),
                    lookup(old(self)@, client_key(view_opt(real_ip), view_opt(peer))),
                    now as nat,
                ),
                Admission::Reject(r) => !admits(
                    old(self).max_requests(),
                    old(self).window(),
                    lookup(old(self)@, client_key(view_opt(real_ip), view_opt(peer))),
                    now as nat,
                ) && r.status == 429 && r.body@ == "Too many requests"@,
            },
    {
        let id = client_identifier(real_ip, peer);
        if self.is_allowed(id.as_str(), now) {
            Admission::Forward
        } else {
            Admission::Reject(too_many_requests())
        }
    }
}

} // verus!
