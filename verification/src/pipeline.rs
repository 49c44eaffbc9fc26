//! The decision pipeline: URL-map match, phase-02 challenge verification,
//! tagging, rate limits, ACL dispatch, WAF scan — short-circuiting on the
//! first terminal outcome. Only the limit and WAF stages can block on their
//! own; the ACL can pass, block, or hand the request to the challenge
//! coordinator.

use vstd::prelude::*;
use crate::acl::{check_acl, spec_acl_outcome, AclDecision, AclOutcome,
    AclResult, BotHuman};
use crate::challenge::{challenge_phase01, challenge_phase02, challenge_verified,
    is_phase02_action, Grasshopper};
use crate::config::{Config, Signature, UrlMap};
use crate::interface::{acl_block, ActionType, Decision, Initiator};
use crate::limit::{is_limit_action, limit_check, spec_limit_scan, CounterStore};
use crate::tagging::{spec_base_tags, tag_request};
use crate::tags::spec_matching;
use crate::urlmap::{match_urlmap, spec_match_urlmap};
use crate::utils::RequestInfo;
use crate::waf::{section_label, spec_waf, waf_check, SecCause, WafVerdict};

verus! {

/// The tag set the limit stage receives: the tagger's global labels plus
/// the five qualified labels of the matched URL-map — a superset of what
/// the tagger alone attached.
pub open spec fn spec_tags_after_tagging(req: RequestInfo, nm: Seq<char>, um: UrlMap) -> Set<
    Seq<char>,
> {
    spec_base_tags(req).insert("urlmap"@ + ":"@ + nm).insert(
        "urlmap-entry"@ + ":"@ + um.name@,
    ).insert("aclid"@ + ":"@ + um.acl_profile.id@).insert(
        "aclname"@ + ":"@ + um.acl_profile.name@,
    ).insert("wafid"@ + ":"@ + um.waf_profile.name@)
}

/// The shape of an ACL denial: a 403 carrying the code and the deciding
/// tags, enforced or monitored per the URL-map's flag.
pub open spec fn is_acl_block(d: Decision, blocking: bool, code: u32, ts: Seq<Seq<char>>) -> bool {
    &&& d matches Decision::Action(a)
    &&& a.atype == (if blocking {
        ActionType::Block
    } else {
        ActionType::Monitor
    })
    &&& !a.ban
    &&& a.status == 403
    &&& a.headers is None
    &&& a.reason.initiator == Initiator::Acl
    &&& a.reason.action == Some(code)
    &&& a.reason.reason_tags@.map_values(|s: String| s@) == ts
    &&& a.reason.rule is None
    &&& a.reason.sig is None
    &&& a.reason.section is None
    &&& a.content@ == "access denied"@
    &&& a.extra_tags is None
}

/// The WAF stage's verdict rendered as a decision: pass, a block pinned by
/// `spec_waf`, or the fail-closed block when the database is unavailable.
pub open spec fn waf_decision_describes(
    req: RequestInfo,
    p: crate::config::WafProfile,
    db: Option<Seq<Signature>>,
    d: Decision,
) -> bool {
    match db {
        None => {
            &&& d matches Decision::Action(a)
            &&& a.atype == ActionType::Block
            &&& !a.ban
            &&& a.status == 403
            &&& a.headers is None
            &&& a.reason.initiator == Initiator::Waf
            &&& a.reason.action is None
            &&& a.reason.reason_tags@.len() == 0
            &&& a.reason.rule is None
            &&& a.reason.section matches Some(s)
            &&& s@ == "waf"@
            &&& a.reason.sig is None
            &&& a.content@ == "waf denied"@
            &&& a.extra_tags is None
        },
        Some(sigs) => match spec_waf(req, p, sigs) {
            WafVerdict::Pass => d is Pass,
            WafVerdict::Block { section, cause } => {
                &&& d matches Decision::Action(a)
                &&& a.atype == ActionType::Block
                &&& !a.ban
                &&& a.status == 403
                &&& a.headers is None
                &&& a.reason.initiator == Initiator::Waf
                &&& a.reason.action is None
                &&& a.reason.reason_tags@.len() == 0
                &&& a.reason.rule is None
                &&& a.reason.section matches Some(s)
                &&& s@ == section_label(section)
                &&& a.content@ == "waf denied"@
                &&& a.extra_tags is None
                &&& match cause {
                    SecCause::Sig { index } => a.reason.sig matches Some(sg) && 0 <= index
                        < sigs.len() && sg@ == sigs[index].id@,
                    _ => a.reason.sig is None,
                }
            },
        },
    }
}

/// What the stages after a successful URL-map match produce, given the
/// matched host-map name `nm` and URL-map `um`: the limit scan runs on the
/// tagged request from store `m0` and must account for the final store `m1`;
/// its hit, or else the ACL outcome, or else the WAF verdict, pins `d`.
/// Where the external challenge capability decides (the ACL's bot-denied
/// branch with a capability at hand), only the shape is pinned.
pub open spec fn spec_after_match(
    req: RequestInfo,
    nm: Seq<char>,
    um: UrlMap,
    m0: Map<Seq<char>, u64>,
    avail: bool,
    has_gh: bool,
    db: Option<Seq<Signature>>,
    d: Decision,
    m1: Map<Seq<char>, u64>,
) -> bool {
    let t1 = spec_tags_after_tagging(req, nm, um);
    let sc = spec_limit_scan(req, um.limits@, t1, m0, avail);
    &&& m1 == sc.store
    &&& match sc.hit {
        Some(rule) => is_limit_action(d, um.acl_active, rule),
        None => {
            let t2 = sc.tags;
            let acl = um.acl_profile;
            match spec_acl_outcome(t2, acl) {
                AclOutcome::ForceDenied => is_acl_block(
                    d,
                    um.acl_active,
                    5,
                    spec_matching(t2, acl.force_deny@),
                ),
                AclOutcome::Denied => is_acl_block(
                    d,
                    um.acl_active,
                    5,
                    spec_matching(t2, acl.deny@),
                ),
                AclOutcome::Allowed => d is Pass,
                AclOutcome::BotDenied => if !has_gh {
                    is_acl_block(d, um.acl_active, 3, spec_matching(t2, acl.deny_bot@))
                } else {
                    d is Action || waf_decision_describes(req, um.waf_profile, db, d)
                },
                AclOutcome::BotAllowed => waf_decision_describes(req, um.waf_profile, db, d),
                AclOutcome::Neutral => waf_decision_describes(req, um.waf_profile, db, d),
            }
        },
    }
}

/// The view of an optional signature database.
pub open spec fn db_view(sigdb: Option<&Vec<Signature>>) -> Option<Seq<Signature>> {
    match sigdb {
        None => None,
        Some(v) => Some(v@),
    }
}

/// Drive the pipeline over a request: URL-map match (no match passes),
/// phase-02 challenge verification, tagging, rate limits, ACL dispatch with
/// the bot challenge branch, then the WAF. For a fixed snapshot, counter
/// store and signature database the verdict is a function of the request,
/// except where the external challenge capability decides; counters move
/// only in the limit stage, so a verdict from an earlier stage leaves the
/// store untouched.
pub fn inspect_generic<GH: Grasshopper>(
    mgh: Option<&GH>,
    cfg: &Config,
    store: &mut CounterStore,
    sigdb: Option<&Vec<Signature>>,
    req: &RequestInfo,
) -> (d: Decision)
    requires
        req.wf(),
        old(store).wf(),
    ensures
        final(store).wf(),
        final(store).is_available() == old(store).is_available(),
        spec_match_urlmap(*cfg, req.authority@, req.path@) is None ==> d is Pass
            && final(store)@ == old(store)@,
        ({
            match spec_match_urlmap(*cfg, req.authority@, req.path@) {
                None => true,
                Some(ij) => {
                    let hm = cfg.hostmaps@[ij.0];
                    let um = hm.urlmaps@[ij.1];
                    (is_phase02_action(d) && mgh is Some && final(store)@ == old(store)@)
                        || spec_after_match(
                        *req,
                        hm.name@,
                        um,
                        old(store)@,
                        old(store).is_available(),
                        mgh is Some,
                        db_view(sigdb),
                        d,
                        final(store)@,
                    )
                },
            }
        }),
{
    let (nm, urlmap) = match match_urlmap(cfg, req.authority.as_str(), req.path.as_str()) {
        None => {
            return Decision::Pass;
        },
        Some(x) => x,
    };
    if let Some(gh) = mgh {
        if let Some(dec) = challenge_phase02(gh, req.uri.as_str(), &req.cookies, &req.headers) {
            return dec;
        }
    }
    let mut tags = tag_request(req);
    tags.insert_qualified("urlmap", nm.as_str());
    tags.insert_qualified("urlmap-entry", urlmap.name.as_str());
    tags.insert_qualified("aclid", urlmap.acl_profile.id.as_str());
    tags.insert_qualified("aclname", urlmap.acl_profile.name.as_str());
    tags.insert_qualified("wafid", urlmap.waf_profile.name.as_str());

    let limit_result = limit_check(req, &urlmap.limits, &mut tags, store, urlmap.acl_active);
    if let Decision::Action(a) = limit_result {
        return Decision::Action(a);
    }

    let acl_result = check_acl(&tags, &urlmap.acl_profile);
    match acl_result {
        AclResult::Bypass(dec) => {
            if dec.allowed {
                return Decision::Pass;
            } else {
                return acl_block(urlmap.acl_active, 0, dec.tags);
            }
        },
        AclResult::Match(BotHuman { bot: _, human: Some(AclDecision { allowed: false, tags: t }) }) => {
            return acl_block(urlmap.acl_active, 5, t);
        },
        AclResult::Match(BotHuman { bot: Some(AclDecision { allowed: false, tags: t }), human: _ }) => {
            match mgh {
                None => {
                    return acl_block(urlmap.acl_active, 3, t);
                },
                Some(gh) => {
                    if !challenge_verified(gh, &req.cookies, &req.headers) {
                        return match req.headers.get_str("user-agent") {
                            None => acl_block(urlmap.acl_active, 3, t),
                            Some(ua) => challenge_phase01(gh, ua, tags),
                        };
                    }
                },
            }
        },
        _ => (),
    }
    match waf_check(req, &urlmap.waf_profile, sigdb) {
        Ok(()) => Decision::Pass,
        Err(wb) => Decision::Action(wb.to_action()),
    }
}


/// Tag accumulation law across stages: the tagger's global labels are
/// contained in the set the limit stage receives, and that set is contained
/// in the set the ACL and WAF stages see — tags only accumulate.
pub proof fn lemma_tag_accumulation(
    req: RequestInfo,
    nm: Seq<char>,
    um: UrlMap,
    m: Map<Seq<char>, u64>,
    avail: bool,
)
    ensures
        spec_base_tags(req).subset_of(spec_tags_after_tagging(req, nm, um)),
        spec_tags_after_tagging(req, nm, um).subset_of(
            spec_limit_scan(req, um.limits@, spec_tags_after_tagging(req, nm, um), m, avail).tags,
        ),
{
    crate::limit::lemma_limit_scan_tags_monotonic(
        req,
        um.limits@,
        spec_tags_after_tagging(req, nm, um),
        m,
        avail,
    );
}

/// What the pipeline without the challenge capability promises of a verdict
/// `d` and final store `m1`, from snapshot `cfg`, request `req`, store `m0`
/// (availability `avail`) and signature database `db`: the main contract of
/// `inspect_generic` with no capability at hand.
pub open spec fn inspect_describes(
    cfg: Config,
    req: RequestInfo,
    m0: Map<Seq<char>, u64>,
    avail: bool,
    db: Option<Seq<Signature>>,
    d: Decision,
    m1: Map<Seq<char>, u64>,
) -> bool {
    match spec_match_urlmap(cfg, req.authority@, req.path@) {
        None => d is Pass && m1 == m0,
        Some(ij) => spec_after_match(
            req,
            cfg.hostmaps@[ij.0].name@,
            cfg.hostmaps@[ij.0].urlmaps@[ij.1],
            m0,
            avail,
            false,
            db,
            d,
            m1,
        ),
    }
}

/// What a decision looks like from outside: the variant and, for an action,
/// every wire-visible field by content.
#[verifier::ext_equal]
pub enum DecisionObs {
    Pass,
    Action {
        atype: ActionType,
        ban: bool,
        status: u32,
        headers: Option<Seq<(Seq<char>, Seq<char>)>>,
        initiator: Initiator,
        action: Option<u32>,
        reason_tags: Seq<Seq<char>>,
        rule: Option<Seq<char>>,
        sig: Option<Seq<char>>,
        section: Option<Seq<char>>,
        content: Seq<char>,
        extra_tags: Option<Seq<Seq<char>>>,
    },
}

/// The observation of a decision.
pub open spec fn decision_obs(d: Decision) -> DecisionObs {
    match d {
        Decision::Pass => DecisionObs::Pass,
        Decision::Action(a) => DecisionObs::Action {
            atype: a.atype,
            ban: a.ban,
            status: a.status,
            headers: match a.headers {
                None => None,
                Some(h) => Some(h@.map_values(|p: (String, String)| (p.0@, p.1@))),
            },
            initiator: a.reason.initiator,
            action: a.reason.action,
            reason_tags: a.reason.reason_tags@.map_values(|s: String| s@),
            rule: match a.reason.rule {
                None => None,
                Some(s) => Some(s@),
            },
            sig: match a.reason.sig {
                None => None,
                Some(s) => Some(s@),
            },
            section: match a.reason.section {
                None => None,
                Some(s) => Some(s@),
            },
            content: a.content@,
            extra_tags: match a.extra_tags {
                None => None,
                Some(t) => Some(t@.map_values(|s: String| s@)),
            },
        },
    }
}

/// Determinism law: with no challenge capability at hand, the verdict is a
/// pure function of the request, snapshot, counter store and signature
/// database — any two decisions and final stores the contract admits for
/// the same inputs are observably equal.
pub proof fn lemma_inspect_deterministic(
    cfg: Config,
    req: RequestInfo,
    m0: Map<Seq<char>, u64>,
    avail: bool,
    db: Option<Seq<Signature>>,
    d1: Decision,
    m1a: Map<Seq<char>, u64>,
    d2: Decision,
    m1b: Map<Seq<char>, u64>,
)
    requires
        inspect_describes(cfg, req, m0, avail, db, d1, m1a),
        inspect_describes(cfg, req, m0, avail, db, d2, m1b),
    ensures
        m1a == m1b,
        decision_obs(d1) == decision_obs(d2),
{
    assert(decision_obs(d1) =~~= decision_obs(d2));
}

} // verus!
