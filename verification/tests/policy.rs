use curiefense::acl::{AclResult, check_acl};
use curiefense::interface::{acl_block, ActionType, Decision, Initiator};
use curiefense::config::{
    AclProfile, Config, HostMap, Pattern, UrlMap, WafProfile, WafSection, regex_is_match,
};
use curiefense::tags::Tags;
use curiefense::urlmap::match_urlmap;

fn empty_acl() -> AclProfile {
    AclProfile {
        id: "a1".to_string(),
        name: "acl one".to_string(),
        allow: vec![],
        allow_bot: vec![],
        deny_bot: vec![],
        deny: vec![],
        force_deny: vec![],
    }
}

fn empty_waf(name: &str) -> WafProfile {
    WafProfile {
        name: name.to_string(),
        ignore_alphanum: true,
        threshold: 0,
        headers: WafSection { max_count: 0, max_length: 0, names: vec![] },
        cookies: WafSection { max_count: 0, max_length: 0, names: vec![] },
        args: WafSection { max_count: 0, max_length: 0, names: vec![] },
    }
}

fn plain_urlmap(name: &str, pat: Pattern) -> UrlMap {
    UrlMap {
        name: name.to_string(),
        path_pattern: pat,
        acl_profile: empty_acl(),
        acl_active: true,
        waf_profile: empty_waf("wafdefault"),
        limits: vec![],
    }
}

#[test]
fn regex_wrapper_distinguishes() {
    assert!(regex_is_match("^a+$", "aaa"));
    assert!(!regex_is_match("^a+$", "aab"));
    // A rejected pattern matches nothing.
    assert!(!regex_is_match("(", "("));
}

#[test]
fn urlmap_first_match_wins() {
    let cfg = Config {
        hostmaps: vec![HostMap {
            name: "hm".to_string(),
            authority_pattern: Pattern::Exact("api.x".to_string()),
            urlmaps: vec![
                plain_urlmap("first", Pattern::Regex("^/".to_string())),
                plain_urlmap("second", Pattern::Exact("/x".to_string())),
            ],
        }],
    };
    // "/x" matches both patterns; declaration order decides.
    let (nm, um) = match_urlmap(&cfg, "api.x", "/x").unwrap();
    assert_eq!(nm, "hm");
    assert_eq!(um.name, "first");
}

#[test]
fn urlmap_later_rule_never_steals() {
    let mut cfg = Config {
        hostmaps: vec![HostMap {
            name: "hm".to_string(),
            authority_pattern: Pattern::Exact("api.x".to_string()),
            urlmaps: vec![plain_urlmap("first", Pattern::Regex("^/".to_string()))],
        }],
    };
    let before = match_urlmap(&cfg, "api.x", "/x").unwrap().1.name.clone();
    cfg.hostmaps[0]
        .urlmaps
        .push(plain_urlmap("later", Pattern::Exact("/x".to_string())));
    let after = match_urlmap(&cfg, "api.x", "/x").unwrap().1.name.clone();
    assert_eq!(before, "first");
    assert_eq!(after, "first");
}

#[test]
fn urlmap_no_authority_match_is_none() {
    let cfg = Config {
        hostmaps: vec![HostMap {
            name: "hm".to_string(),
            authority_pattern: Pattern::Exact("other.x".to_string()),
            urlmaps: vec![plain_urlmap("first", Pattern::Regex("^/".to_string()))],
        }],
    };
    assert!(match_urlmap(&cfg, "api.x", "/").is_none());
}

#[test]
fn acl_force_deny_beats_allow() {
    let mut acl = empty_acl();
    acl.force_deny = vec!["all".to_string()];
    acl.allow = vec!["all".to_string()];
    let mut t = Tags::new();
    t.insert("all".to_string());
    match check_acl(&t, &acl) {
        AclResult::Match(bh) => {
            let h = bh.human.expect("human decision expected");
            assert!(!h.allowed);
            assert_eq!(h.tags, vec!["all".to_string()]);
            assert!(bh.bot.is_none());
        }
        AclResult::Bypass(_) => panic!("force_deny must win over allow"),
    }
}

#[test]
fn acl_deny_beats_allow() {
    let mut acl = empty_acl();
    acl.deny = vec!["bad".to_string()];
    acl.allow = vec!["bad".to_string()];
    let mut t = Tags::new();
    t.insert("bad".to_string());
    match check_acl(&t, &acl) {
        AclResult::Match(bh) => {
            let h = bh.human.expect("human decision expected");
            assert!(!h.allowed);
        }
        AclResult::Bypass(_) => panic!("deny must win over allow"),
    }
}

#[test]
fn acl_allow_beats_bot_lists() {
    let mut acl = empty_acl();
    acl.allow = vec!["good".to_string()];
    acl.deny_bot = vec!["good".to_string()];
    let mut t = Tags::new();
    t.insert("good".to_string());
    match check_acl(&t, &acl) {
        AclResult::Bypass(d) => {
            assert!(d.allowed);
            assert!(d.tags.is_empty());
        }
        AclResult::Match(_) => panic!("allow must win over the bot lists"),
    }
}

#[test]
fn acl_deny_bot_beats_allow_bot() {
    let mut acl = empty_acl();
    acl.deny_bot = vec!["bot".to_string()];
    acl.allow_bot = vec!["bot".to_string()];
    let mut t = Tags::new();
    t.insert("bot".to_string());
    match check_acl(&t, &acl) {
        AclResult::Match(bh) => {
            let b = bh.bot.expect("bot decision expected");
            assert!(!b.allowed);
            assert!(bh.human.is_none());
        }
        AclResult::Bypass(_) => panic!("bot lists must produce a match"),
    }
}

#[test]
fn acl_neutral_when_nothing_matches() {
    let acl = empty_acl();
    let mut t = Tags::new();
    t.insert("all".to_string());
    match check_acl(&t, &acl) {
        AclResult::Match(bh) => {
            assert!(bh.bot.is_none());
            assert!(bh.human.is_none());
        }
        AclResult::Bypass(_) => panic!("empty profile must be neutral"),
    }
}

#[test]
fn acl_block_shapes_the_action() {
    let tags = vec!["t1".to_string()];
    match acl_block(false, 0, tags) {
        Decision::Action(a) => {
            assert!(matches!(a.atype, ActionType::Monitor));
            assert_eq!(a.status, 403);
            assert_eq!(a.reason.initiator, Initiator::Acl);
            assert_eq!(a.reason.action, Some(0));
            assert_eq!(a.reason.reason_tags, vec!["t1".to_string()]);
            assert_eq!(a.content, "access denied");
        }
        Decision::Pass => panic!("acl_block must produce an action"),
    }
}
