use curiefense::config::{
    AclProfile, Config, HostMap, LimitKeyPart, LimitRule, Pattern, Signature, UrlMap,
    WafProfile, WafSection,
};
use curiefense::interface::{Decision, Initiator};
use curiefense::limit::CounterStore;
use curiefense::pipeline::inspect_generic;
use curiefense::tags::Tags;
use curiefense::utils::map_request;

struct NoGh;

impl curiefense::challenge::Grasshopper for NoGh {
    fn parse_rbzid(&self, _token: &str, _ua: &str) -> Option<bool> {
        None
    }

    fn issue_challenge(&self, _ua: &str, _tags: &Tags) -> curiefense::interface::Action {
        unreachable!("never invoked in these tests")
    }
}

fn acl_with(deny: Vec<&str>) -> AclProfile {
    AclProfile {
        id: "a1".to_string(),
        name: "acl one".to_string(),
        allow: vec![],
        allow_bot: vec![],
        deny_bot: vec![],
        deny: deny.into_iter().map(|s| s.to_string()).collect(),
        force_deny: vec![],
    }
}

fn waf_off() -> WafProfile {
    WafProfile {
        name: "wafdefault".to_string(),
        ignore_alphanum: true,
        threshold: 0,
        headers: WafSection { max_count: 0, max_length: 0, names: vec![] },
        cookies: WafSection { max_count: 0, max_length: 0, names: vec![] },
        args: WafSection { max_count: 0, max_length: 0, names: vec![] },
    }
}

fn ip_rule(id: &str, threshold: u64) -> LimitRule {
    LimitRule {
        id: id.to_string(),
        window: 60,
        threshold,
        key_parts: vec![LimitKeyPart::Ip],
        include_tags: vec![],
        exclude_tags: vec![],
    }
}

fn config(acl: AclProfile, limits: Vec<LimitRule>) -> Config {
    Config {
        hostmaps: vec![HostMap {
            name: "hm".to_string(),
            authority_pattern: Pattern::Exact("api.x".to_string()),
            urlmaps: vec![UrlMap {
                name: "root".to_string(),
                path_pattern: Pattern::Regex("^/".to_string()),
                acl_profile: acl,
                acl_active: true,
                waf_profile: waf_off(),
                limits,
            }],
        }],
    }
}

fn request(authority: &str) -> curiefense::utils::RequestInfo {
    map_request(
        "5.5.5.5".to_string(),
        vec![
            (":authority".to_string(), authority.to_string()),
            (":path".to_string(), "/".to_string()),
        ],
    )
}

#[test]
fn same_inputs_same_decision() {
    // Two runs from identical stores and requests decide identically.
    let cfg = config(acl_with(vec!["ip:5.5.5.5"]), vec![ip_rule("r1", 10)]);
    let req = request("api.x");
    let mut s1 = CounterStore::new();
    let mut s2 = CounterStore::new();
    let sigs: Vec<Signature> = vec![];
    let d1 = inspect_generic::<NoGh>(None, &cfg, &mut s1, Some(&sigs), &req);
    let d2 = inspect_generic::<NoGh>(None, &cfg, &mut s2, Some(&sigs), &req);
    match (d1, d2) {
        (Decision::Action(a1), Decision::Action(a2)) => {
            assert_eq!(a1.status, a2.status);
            assert_eq!(a1.reason.action, a2.reason.action);
            assert_eq!(a1.reason.reason_tags, a2.reason.reason_tags);
            assert_eq!(a1.content, a2.content);
        }
        (Decision::Pass, Decision::Pass) => {}
        _ => panic!("equal inputs must decide equally"),
    }
}

#[test]
fn unmatched_request_leaves_counters_alone() {
    // A verdict before the limit stage has no counter side-effects.
    let cfg = config(acl_with(vec![]), vec![ip_rule("r1", 10)]);
    let req = request("other.x");
    let mut store = CounterStore::new();
    let sigs: Vec<Signature> = vec![];
    let d = inspect_generic::<NoGh>(None, &cfg, &mut store, Some(&sigs), &req);
    assert!(matches!(d, Decision::Pass));
    assert_eq!(store.read("r15.5.5.5"), 0);
}

#[test]
fn matched_request_bumps_its_counter() {
    let cfg = config(acl_with(vec![]), vec![ip_rule("r1", 10)]);
    let req = request("api.x");
    let mut store = CounterStore::new();
    let sigs: Vec<Signature> = vec![];
    let d = inspect_generic::<NoGh>(None, &cfg, &mut store, Some(&sigs), &req);
    assert!(matches!(d, Decision::Pass));
    // The counter key is the rule id followed by the configured parts.
    assert_eq!(store.read("r15.5.5.5"), 1);
}

#[test]
fn limit_hit_stops_later_rules() {
    // The first rule fires on the second request; the rule after it is not
    // evaluated and its counter does not move.
    let cfg = config(acl_with(vec![]), vec![ip_rule("r1", 1), ip_rule("r2", 100)]);
    let req = request("api.x");
    let mut store = CounterStore::new();
    let sigs: Vec<Signature> = vec![];
    let first = inspect_generic::<NoGh>(None, &cfg, &mut store, Some(&sigs), &req);
    assert!(matches!(first, Decision::Pass));
    assert_eq!(store.read("r25.5.5.5"), 1);
    let second = inspect_generic::<NoGh>(None, &cfg, &mut store, Some(&sigs), &req);
    match second {
        Decision::Action(a) => assert_eq!(a.reason.rule.as_deref(), Some("r1")),
        Decision::Pass => panic!("the first rule must fire"),
    }
    assert_eq!(store.read("r15.5.5.5"), 2);
    assert_eq!(store.read("r25.5.5.5"), 1);
}

#[test]
fn tags_added_by_limit_stage_reach_the_acl() {
    // The limit stage's fail-open tag is visible to the ACL resolver: tags
    // accumulate from stage to stage.
    let cfg = config(acl_with(vec!["limit-store-error"]), vec![ip_rule("r1", 0)]);
    let req = request("api.x");
    let mut store = CounterStore::unavailable();
    let sigs: Vec<Signature> = vec![];
    match inspect_generic::<NoGh>(None, &cfg, &mut store, Some(&sigs), &req) {
        Decision::Action(a) => {
            assert_eq!(a.reason.initiator, Initiator::Acl);
            assert_eq!(a.reason.reason_tags, vec!["limit-store-error".to_string()]);
        }
        Decision::Pass => panic!("the accumulated tag must reach the ACL"),
    }
}

#[test]
fn urlmap_tags_reach_the_acl() {
    // The five qualified tags of the matched URL-map are attached before
    // the ACL runs.
    let cfg = config(acl_with(vec!["aclid:a1"]), vec![]);
    let req = request("api.x");
    let mut store = CounterStore::new();
    let sigs: Vec<Signature> = vec![];
    match inspect_generic::<NoGh>(None, &cfg, &mut store, Some(&sigs), &req) {
        Decision::Action(a) => {
            assert_eq!(a.reason.reason_tags, vec!["aclid:a1".to_string()]);
        }
        Decision::Pass => panic!("the qualified tag must reach the ACL"),
    }
}
