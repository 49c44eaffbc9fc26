use curiefense::challenge::{Grasshopper, dash_to_eq};
use curiefense::config::{
    AclProfile, Config, HostMap, LimitKeyPart, LimitRule, Pattern, Signature, UrlMap,
    WafProfile, WafSection,
};
use curiefense::interface::{Action, ActionType, Decision, Initiator, Reason};
use curiefense::limit::CounterStore;
use curiefense::pipeline::inspect_generic;
use curiefense::tags::Tags;
use curiefense::utils::map_request;

struct MockGh {
    verdict: Option<bool>,
}

impl Grasshopper for MockGh {
    fn parse_rbzid(&self, token: &str, _ua: &str) -> Option<bool> {
        match self.verdict {
            Some(b) => Some(b && token == "tok=en"),
            None => None,
        }
    }

    fn issue_challenge(&self, _ua: &str, _tags: &Tags) -> Action {
        Action {
            atype: ActionType::Block,
            ban: false,
            status: 247,
            headers: None,
            reason: Reason {
                initiator: Initiator::Phase01,
                action: None,
                reason_tags: vec![],
                rule: None,
                sig: None,
                section: None,
            },
            content: "challenge page".to_string(),
            extra_tags: None,
        }
    }
}

fn acl(allow: Vec<&str>, deny: Vec<&str>, deny_bot: Vec<&str>) -> AclProfile {
    AclProfile {
        id: "a1".to_string(),
        name: "acl one".to_string(),
        allow: allow.into_iter().map(|s| s.to_string()).collect(),
        allow_bot: vec![],
        deny_bot: deny_bot.into_iter().map(|s| s.to_string()).collect(),
        deny: deny.into_iter().map(|s| s.to_string()).collect(),
        force_deny: vec![],
    }
}

fn waf(threshold: u64) -> WafProfile {
    WafProfile {
        name: "wafdefault".to_string(),
        ignore_alphanum: false,
        threshold,
        headers: WafSection { max_count: 0, max_length: 0, names: vec![] },
        cookies: WafSection { max_count: 0, max_length: 0, names: vec![] },
        args: WafSection { max_count: 0, max_length: 0, names: vec![] },
    }
}

fn one_map_config(acl_profile: AclProfile, waf_profile: WafProfile, limits: Vec<LimitRule>) -> Config {
    Config {
        hostmaps: vec![HostMap {
            name: "hm".to_string(),
            authority_pattern: Pattern::Exact("api.x".to_string()),
            urlmaps: vec![UrlMap {
                name: "root".to_string(),
                path_pattern: Pattern::Regex("^/".to_string()),
                acl_profile,
                acl_active: true,
                waf_profile,
                limits,
            }],
        }],
    }
}

fn request(ip: &str, headers: Vec<(&str, &str)>) -> curiefense::utils::RequestInfo {
    map_request(
        ip.to_string(),
        headers
            .into_iter()
            .map(|(k, v)| (k.to_string(), v.to_string()))
            .collect(),
    )
}

#[test]
fn no_hostmap_match_passes() {
    // A snapshot with no host-map for the authority: the pipeline passes
    // and never touches the counter store.
    let cfg = one_map_config(acl(vec![], vec![], vec![]), waf(0), vec![]);
    let mut store = CounterStore::new();
    let req = request("1.1.1.1", vec![(":authority", "other.x"), (":path", "/")]);
    let sigs: Vec<Signature> = vec![];
    let d = inspect_generic::<MockGh>(None, &cfg, &mut store, Some(&sigs), &req);
    assert!(matches!(d, Decision::Pass));
}

#[test]
fn acl_allow_bypasses() {
    let cfg = one_map_config(acl(vec!["ip:1.1.1.1"], vec![], vec![]), waf(0), vec![]);
    let mut store = CounterStore::new();
    let req = request(
        "1.1.1.1",
        vec![(":authority", "api.x"), (":path", "/"), ("x-forwarded-for", "1.1.1.1")],
    );
    let sigs: Vec<Signature> = vec![];
    let d = inspect_generic::<MockGh>(None, &cfg, &mut store, Some(&sigs), &req);
    assert!(matches!(d, Decision::Pass));
}

#[test]
fn acl_deny_blocks_with_code_five() {
    let cfg = one_map_config(acl(vec![], vec!["ip:1.1.1.1"], vec![]), waf(0), vec![]);
    let mut store = CounterStore::new();
    let req = request("1.1.1.1", vec![(":authority", "api.x"), (":path", "/")]);
    let sigs: Vec<Signature> = vec![];
    match inspect_generic::<MockGh>(None, &cfg, &mut store, Some(&sigs), &req) {
        Decision::Action(a) => {
            assert_eq!(a.status, 403);
            assert_eq!(a.reason.initiator, Initiator::Acl);
            assert_eq!(a.reason.action, Some(5));
            assert_eq!(a.reason.reason_tags, vec!["ip:1.1.1.1".to_string()]);
        }
        Decision::Pass => panic!("deny must block"),
    }
}

#[test]
fn limit_threshold_blocks_second_request() {
    let rule = LimitRule {
        id: "r1".to_string(),
        window: 60,
        threshold: 1,
        key_parts: vec![LimitKeyPart::Ip],
        include_tags: vec![],
        exclude_tags: vec![],
    };
    let cfg = one_map_config(acl(vec![], vec![], vec![]), waf(0), vec![rule]);
    let mut store = CounterStore::new();
    let req = request("2.2.2.2", vec![(":authority", "api.x"), (":path", "/")]);
    let sigs: Vec<Signature> = vec![];
    let first = inspect_generic::<MockGh>(None, &cfg, &mut store, Some(&sigs), &req);
    assert!(matches!(first, Decision::Pass));
    match inspect_generic::<MockGh>(None, &cfg, &mut store, Some(&sigs), &req) {
        Decision::Action(a) => {
            assert_eq!(a.reason.initiator, Initiator::Limit);
            assert_eq!(a.reason.rule.as_deref(), Some("r1"));
            assert!(matches!(a.atype, ActionType::Block));
        }
        Decision::Pass => panic!("second request must hit the limit"),
    }
}

#[test]
fn limit_store_error_fails_open() {
    let rule = LimitRule {
        id: "r1".to_string(),
        window: 60,
        threshold: 0,
        key_parts: vec![LimitKeyPart::Ip],
        include_tags: vec![],
        exclude_tags: vec![],
    };
    let cfg = one_map_config(acl(vec![], vec![], vec![]), waf(0), vec![rule]);
    let mut store = CounterStore::unavailable();
    let req = request("2.2.2.2", vec![(":authority", "api.x"), (":path", "/")]);
    let sigs: Vec<Signature> = vec![];
    let d = inspect_generic::<MockGh>(None, &cfg, &mut store, Some(&sigs), &req);
    assert!(matches!(d, Decision::Pass));
}

#[test]
fn counter_store_counts() {
    let mut store = CounterStore::new();
    assert_eq!(store.read("k"), 0);
    assert_eq!(store.incr("k", 60), Some(1));
    assert_eq!(store.incr("k", 60), Some(2));
    assert_eq!(store.read("k"), 2);
    let mut down = CounterStore::unavailable();
    assert_eq!(down.incr("k", 60), None);
}

#[test]
fn bot_deny_without_grasshopper_blocks_code_three() {
    let cfg = one_map_config(acl(vec![], vec![], vec!["ip:1.1.1.1"]), waf(0), vec![]);
    let mut store = CounterStore::new();
    let req = request(
        "1.1.1.1",
        vec![(":authority", "api.x"), (":path", "/"), ("user-agent", "curl/8")],
    );
    let sigs: Vec<Signature> = vec![];
    match inspect_generic::<MockGh>(None, &cfg, &mut store, Some(&sigs), &req) {
        Decision::Action(a) => {
            assert_eq!(a.reason.initiator, Initiator::Acl);
            assert_eq!(a.reason.action, Some(3));
        }
        Decision::Pass => panic!("bot deny without capability must block"),
    }
}

#[test]
fn bot_deny_with_grasshopper_issues_challenge() {
    let cfg = one_map_config(acl(vec![], vec![], vec!["ip:1.1.1.1"]), waf(0), vec![]);
    let mut store = CounterStore::new();
    let req = request(
        "1.1.1.1",
        vec![(":authority", "api.x"), (":path", "/"), ("user-agent", "curl/8")],
    );
    let sigs: Vec<Signature> = vec![];
    let gh = MockGh { verdict: Some(false) };
    match inspect_generic(Some(&gh), &cfg, &mut store, Some(&sigs), &req) {
        Decision::Action(a) => {
            assert_eq!(a.status, 247);
            assert_eq!(a.reason.initiator, Initiator::Phase01);
            assert_eq!(a.content, "challenge page");
        }
        Decision::Pass => panic!("bot deny with capability must challenge"),
    }
}

#[test]
fn bot_deny_without_user_agent_blocks_code_three() {
    let cfg = one_map_config(acl(vec![], vec![], vec!["ip:1.1.1.1"]), waf(0), vec![]);
    let mut store = CounterStore::new();
    let req = request("1.1.1.1", vec![(":authority", "api.x"), (":path", "/")]);
    let sigs: Vec<Signature> = vec![];
    let gh = MockGh { verdict: Some(false) };
    match inspect_generic(Some(&gh), &cfg, &mut store, Some(&sigs), &req) {
        Decision::Action(a) => {
            assert_eq!(a.reason.action, Some(3));
        }
        Decision::Pass => panic!("bot deny without user agent must block"),
    }
}

#[test]
fn waf_signature_matches_base64_shadow() {
    // A header `x: YWRtaW4=` is shadowed as `x_base64: admin`; a signature
    // on "admin" fires on the shadow entry.
    let sig = Signature {
        id: "100042".to_string(),
        operand: "admin".to_string(),
        severity: 5,
    };
    let cfg = one_map_config(acl(vec![], vec![], vec![]), waf(5), vec![]);
    let mut store = CounterStore::new();
    let req = request(
        "1.1.1.1",
        vec![(":authority", "api.x"), (":path", "/"), ("x", "YWRtaW4=")],
    );
    let sigs = vec![sig];
    match inspect_generic::<MockGh>(None, &cfg, &mut store, Some(&sigs), &req) {
        Decision::Action(a) => {
            assert_eq!(a.reason.initiator, Initiator::Waf);
            assert_eq!(a.reason.sig.as_deref(), Some("100042"));
            assert_eq!(a.reason.section.as_deref(), Some("headers"));
        }
        Decision::Pass => panic!("signature must block"),
    }
}

#[test]
fn waf_unavailable_fails_closed() {
    let cfg = one_map_config(acl(vec![], vec![], vec![]), waf(0), vec![]);
    let mut store = CounterStore::new();
    let req = request("1.1.1.1", vec![(":authority", "api.x"), (":path", "/")]);
    match inspect_generic::<MockGh>(None, &cfg, &mut store, None, &req) {
        Decision::Action(a) => {
            assert_eq!(a.reason.initiator, Initiator::Waf);
            assert_eq!(a.reason.section.as_deref(), Some("waf"));
            assert!(a.reason.sig.is_none());
        }
        Decision::Pass => panic!("a poisoned signature database must block"),
    }
}

#[test]
fn dash_to_eq_reencodes() {
    assert_eq!(dash_to_eq("tok-en"), "tok=en");
    assert_eq!(dash_to_eq("abc"), "abc");
    assert_eq!(dash_to_eq("--"), "==");
}

#[test]
fn phase02_verified_redirects() {
    let cfg = Config {
        hostmaps: vec![HostMap {
            name: "hm".to_string(),
            authority_pattern: Pattern::Exact("api.x".to_string()),
            urlmaps: vec![UrlMap {
                name: "root".to_string(),
                path_pattern: Pattern::Regex("^/".to_string()),
                acl_profile: acl(vec![], vec!["ip:1.1.1.1"], vec![]),
                acl_active: true,
                waf_profile: waf(0),
                limits: vec![],
            }],
        }],
    };
    let mut store = CounterStore::new();
    let req = request(
        "1.1.1.1",
        vec![
            (":authority", "api.x"),
            (":path", "/7060ac19f50208cbb6b45328ef94140a/"),
            ("user-agent", "browser"),
            ("cookie", "rbzid=tok-en"),
        ],
    );
    let sigs: Vec<Signature> = vec![];
    let gh = MockGh { verdict: Some(true) };
    match inspect_generic(Some(&gh), &cfg, &mut store, Some(&sigs), &req) {
        Decision::Action(a) => {
            // Phase 02 short-circuits before tagging and the ACL deny.
            assert_eq!(a.status, 302);
            assert_eq!(a.reason.initiator, Initiator::Phase02);
        }
        Decision::Pass => panic!("a verified challenge must redirect"),
    }
}

#[test]
fn phase02_unverified_falls_through() {
    let cfg = one_map_config(acl(vec![], vec![], vec![]), waf(0), vec![]);
    let mut store = CounterStore::new();
    let req = request(
        "1.1.1.1",
        vec![
            (":authority", "api.x"),
            (":path", "/7060ac19f50208cbb6b45328ef94140a/"),
            ("user-agent", "browser"),
            ("cookie", "rbzid=wrong"),
        ],
    );
    let sigs: Vec<Signature> = vec![];
    let gh = MockGh { verdict: Some(true) };
    let d = inspect_generic(Some(&gh), &cfg, &mut store, Some(&sigs), &req);
    assert!(matches!(d, Decision::Pass));
}
