//! The challenge coordinator: phase 02 verifies a browser-challenge proof
//! carried in the `rbzid` cookie before tagging; phase 01 issues a challenge
//! from the ACL's bot-denied branch. Both lean on the external `Grasshopper`
//! capability; its answers are never assumed, only acted on.

use vstd::prelude::*;
use crate::interface::{Action, ActionType, Decision, Initiator, Reason};
use crate::requestfields::RequestField;
use crate::tags::Tags;
use crate::utils::push_char;

verus! {

/// The external browser-verification capability. The pipeline holds it as an
/// optional handle; nothing is assumed of what its operations return.
pub trait Grasshopper {
    /// Whether the (cookie-safe re-encoded) `rbzid` proof verifies for this
    /// user agent; `None` when the verifier cannot answer.
    fn parse_rbzid(&self, token: &str, ua: &str) -> Option<bool>;

    /// The interstitial action that sets a challenge cookie for this user
    /// agent.
    fn issue_challenge(&self, ua: &str, tags: &Tags) -> Action;
}

/// The well-known path on which phase-02 verification runs.
pub open spec fn spec_challenge_uri(u: Seq<char>) -> bool {
    u == "/7060ac19f50208cbb6b45328ef94140a/"@
}

/// The cookie-safe re-encoding reversed: each `-` back to `=`.
pub open spec fn spec_dash_to_eq(s: Seq<char>) -> Seq<char> {
    s.map_values(
        |c: char|
            if c == '-' {
                '='
            } else {
                c
            },
    )
}

/// Reverse the cookie-safe re-encoding of a token: `-` back to `=`.
pub fn dash_to_eq(s: &str) -> (r: String)
    ensures
        r@ == spec_dash_to_eq(s@),
{
    let n = s.unicode_len();
    let mut out = String::new();
    let mut i: usize = 0;
    while i < n
        invariant
            n == s@.len(),
            i <= n,
            out@ == spec_dash_to_eq(s@.subrange(0, i as int)),
        decreases n - i,
    {
        let c = s.get_char(i);
        if c == '-' {
            push_char(&mut out, '=');
        } else {
            push_char(&mut out, c);
        }
        proof {
            assert(out@ =~= spec_dash_to_eq(s@.subrange(0, i as int + 1)));
        }
        i += 1;
    }
    proof {
        assert(s@.subrange(0, n as int) =~= s@);
    }
    out
}

/// Whether the request carries a proof the capability verifies: the `rbzid`
/// cookie, re-encoded, checked against the `user-agent` header. Without both
/// the cookie and the header this is `false`, whatever the capability would
/// say.
pub fn challenge_verified<GH: Grasshopper>(
    gh: &GH,
    cookies: &RequestField,
    headers: &RequestField,
) -> (r: bool)
    requires
        cookies.wf(),
        headers.wf(),
    ensures
        (!cookies@.contains_key("rbzid"@) || !headers@.contains_key("user-agent"@)) ==> !r,
{
    match cookies.get_str("rbzid") {
        None => false,
        Some(rbzid) => match headers.get_str("user-agent") {
            None => false,
            Some(ua) => {
                let token = dash_to_eq(rbzid);
                match gh.parse_rbzid(token.as_str(), ua) {
                    Some(b) => b,
                    None => false,
                }
            },
        },
    }
}

/// The action phase 02 emits on a verified proof: clear the challenge cookie
/// and redirect, bypassing every later stage.
pub open spec fn is_phase02_action(d: Decision) -> bool {
    &&& d matches Decision::Action(a)
    &&& a.atype == ActionType::Block
    &&& !a.ban
    &&& a.status == 302
    &&& a.headers matches Some(h)
    &&& h@.len() == 2
    &&& h@[0].0@ == "location"@
    &&& h@[0].1@ == "/"@
    &&& h@[1].0@ == "set-cookie"@
    &&& h@[1].1@ == "rbzid=; Path=/; Max-Age=0"@
    &&& a.reason.initiator == Initiator::Phase02
    &&& a.reason.action is None
    &&& a.reason.reason_tags@.len() == 0
    &&& a.reason.rule is None
    &&& a.reason.sig is None
    &&& a.reason.section is None
    &&& a.content@ == "challenge passed"@
    &&& a.extra_tags is None
}

/// Phase 02: when the URI is the well-known challenge path, the `rbzid`
/// cookie is present, the `user-agent` header is present, and the capability
/// verifies the re-encoded proof, emit the clearing redirect; else nothing.
pub fn challenge_phase02<GH: Grasshopper>(
    gh: &GH,
    uri: &str,
    cookies: &RequestField,
    headers: &RequestField,
) -> (r: Option<Decision>)
    requires
        cookies.wf(),
        headers.wf(),
    ensures
        r is Some ==> spec_challenge_uri(uri@) && cookies@.contains_key("rbzid"@)
            && headers@.contains_key("user-agent"@),
        !spec_challenge_uri(uri@) ==> r is None,
        !cookies@.contains_key("rbzid"@) ==> r is None,
        !headers@.contains_key("user-agent"@) ==> r is None,
        r matches Some(d) ==> is_phase02_action(d),
{
    let known: String = "/7060ac19f50208cbb6b45328ef94140a/".to_owned();
    let u: String = uri.to_owned();
    if !(u == known) {
        return None;
    }
    if cookies.get_str("rbzid").is_none() || headers.get_str("user-agent").is_none() {
        return None;
    }
    if !challenge_verified(gh, cookies, headers) {
        return None;
    }
    let mut hdrs: Vec<(String, String)> = Vec::new();
    hdrs.push(("location".to_owned(), "/".to_owned()));
    hdrs.push(("set-cookie".to_owned(), "rbzid=; Path=/; Max-Age=0".to_owned()));
    Some(
        Decision::Action(
            Action {
                atype: ActionType::Block,
                ban: false,
                status: 302,
                headers: Some(hdrs),
                reason: Reason {
                    initiator: Initiator::Phase02,
                    action: None,
                    reason_tags: Vec::new(),
                    rule: None,
                    sig: None,
                    section: None,
                },
                content: "challenge passed".to_owned(),
                extra_tags: None,
            },
        ),
    )
}

/// Phase 01: hand the bot-denied request to the capability, which sets a
/// challenge cookie and an interstitial page. The result is whatever action
/// the capability produced.
pub fn challenge_phase01<GH: Grasshopper>(gh: &GH, ua: &str, tags: Tags) -> (d: Decision)
    ensures
        d is Action,
{
    Decision::Action(gh.issue_challenge(ua, &tags))
}

} // verus!
