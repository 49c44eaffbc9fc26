//! The access-control resolver: evaluates the profile's four tag lists and
//! force flag against the request's tag set.

use vstd::prelude::*;
use crate::config::AclProfile;
use crate::tags::{has_match, spec_matching, Tags};

verus! {

/// One side of an ACL match: whether it allowed, and the tags that decided.
#[derive(Clone, Debug)]
pub struct AclDecision {
    pub allowed: bool,
    pub tags: Vec<String>,
}

/// The bot and human sub-results of an ACL match.
#[derive(Clone, Debug)]
pub struct BotHuman {
    pub bot: Option<AclDecision>,
    pub human: Option<AclDecision>,
}

/// What the resolver decides: a bypass that settles the request before the
/// WAF, or a match carrying bot and human sub-results.
#[derive(Clone, Debug)]
pub enum AclResult {
    Bypass(AclDecision),
    Match(BotHuman),
}

/// The six possible outcomes of the resolver, in precedence order.
#[derive(PartialEq, Eq, Structural, Clone, Copy, Debug)]
pub enum AclOutcome {
    ForceDenied,
    Denied,
    Allowed,
    BotDenied,
    BotAllowed,
    Neutral,
}

/// The outcome the profile assigns a tag set: `force_deny` over `deny` over
/// `allow` over the bot lists, `deny_bot` over `allow_bot`.
pub open spec fn spec_acl_outcome(t: Set<Seq<char>>, acl: AclProfile) -> AclOutcome {
    if has_match(t, acl.force_deny@) {
        AclOutcome::ForceDenied
    } else if has_match(t, acl.deny@) {
        AclOutcome::Denied
    } else if has_match(t, acl.allow@) {
        AclOutcome::Allowed
    } else if has_match(t, acl.deny_bot@) {
        AclOutcome::BotDenied
    } else if has_match(t, acl.allow_bot@) {
        AclOutcome::BotAllowed
    } else {
        AclOutcome::Neutral
    }
}

/// `r` is a human denial carrying exactly the deciding tags `ts`.
pub open spec fn is_human_denial(r: AclResult, ts: Seq<Seq<char>>) -> bool {
    &&& r matches AclResult::Match(bh)
    &&& bh.bot is None
    &&& bh.human matches Some(d)
    &&& !d.allowed
    &&& d.tags@.map_values(|s: String| s@) == ts
}

/// `r` is a bot sub-result (`allowed` says which) carrying exactly the
/// deciding tags `ts`, with no human sub-result.
pub open spec fn is_bot_decision(r: AclResult, allowed: bool, ts: Seq<Seq<char>>) -> bool {
    &&& r matches AclResult::Match(bh)
    &&& bh.human is None
    &&& bh.bot matches Some(d)
    &&& d.allowed == allowed
    &&& d.tags@.map_values(|s: String| s@) == ts
}

/// The shape `check_acl`'s result takes for each outcome, with the deciding
/// tags pinned to the matching entries of the deciding list.
pub open spec fn acl_result_describes(t: Set<Seq<char>>, acl: AclProfile, r: AclResult) -> bool {
    match spec_acl_outcome(t, acl) {
        AclOutcome::ForceDenied => is_human_denial(r, spec_matching(t, acl.force_deny@)),
        AclOutcome::Denied => is_human_denial(r, spec_matching(t, acl.deny@)),
        AclOutcome::Allowed => (r matches AclResult::Bypass(d) && d.allowed && d.tags@.len()
            == 0),
        AclOutcome::BotDenied => is_bot_decision(r, false, spec_matching(t, acl.deny_bot@)),
        AclOutcome::BotAllowed => is_bot_decision(r, true, spec_matching(t, acl.allow_bot@)),
        AclOutcome::Neutral => (r matches AclResult::Match(bh) && bh.bot is None
            && bh.human is None),
    }
}

/// Resolve the profile against the tag set, in precedence order.
pub fn check_acl(tags: &Tags, acl: &AclProfile) -> (r: AclResult)
    ensures
        acl_result_describes(tags@, *acl, r),
{
    let force = tags.matching(&acl.force_deny);
    if force.len() > 0 {
        return AclResult::Match(
            BotHuman { bot: None, human: Some(AclDecision { allowed: false, tags: force }) },
        );
    }
    let deny = tags.matching(&acl.deny);
    if deny.len() > 0 {
        return AclResult::Match(
            BotHuman { bot: None, human: Some(AclDecision { allowed: false, tags: deny }) },
        );
    }
    if tags.has_any(&acl.allow) {
        return AclResult::Bypass(AclDecision { allowed: true, tags: Vec::new() });
    }
    let deny_bot = tags.matching(&acl.deny_bot);
    if deny_bot.len() > 0 {
        return AclResult::Match(
            BotHuman { bot: Some(AclDecision { allowed: false, tags: deny_bot }), human: None },
        );
    }
    let allow_bot = tags.matching(&acl.allow_bot);
    if allow_bot.len() > 0 {
        return AclResult::Match(
            BotHuman { bot: Some(AclDecision { allowed: true, tags: allow_bot }), human: None },
        );
    }
    AclResult::Match(BotHuman { bot: None, human: None })
}

/// ACL precedence law: `force_deny` over `deny` over `allow` over the bot
/// lists, `deny_bot` over `allow_bot`. The outcome is a function of the tag
/// set and profile, so no two outcomes can both apply; each clause below says
/// exactly which lists decide it.
pub proof fn lemma_acl_precedence(t: Set<Seq<char>>, acl: AclProfile)
    ensures
        has_match(t, acl.force_deny@) ==> spec_acl_outcome(t, acl) == AclOutcome::ForceDenied,
        spec_acl_outcome(t, acl) == AclOutcome::Denied <==> !has_match(t, acl.force_deny@)
            && has_match(t, acl.deny@),
        spec_acl_outcome(t, acl) == AclOutcome::Allowed <==> !has_match(t, acl.force_deny@)
            && !has_match(t, acl.deny@) && has_match(t, acl.allow@),
        spec_acl_outcome(t, acl) == AclOutcome::BotDenied <==> !has_match(t, acl.force_deny@)
            && !has_match(t, acl.deny@) && !has_match(t, acl.allow@) && has_match(
            t,
            acl.deny_bot@,
        ),
        spec_acl_outcome(t, acl) == AclOutcome::BotAllowed <==> !has_match(t, acl.force_deny@)
            && !has_match(t, acl.deny@) && !has_match(t, acl.allow@) && !has_match(
            t,
            acl.deny_bot@,
        ) && has_match(t, acl.allow_bot@),
        spec_acl_outcome(t, acl) == AclOutcome::Neutral <==> !has_match(t, acl.force_deny@)
            && !has_match(t, acl.deny@) && !has_match(t, acl.allow@) && !has_match(
            t,
            acl.deny_bot@,
        ) && !has_match(t, acl.allow_bot@),
{
}

} // verus!
