use curiefense::config::{NameRule, Signature, WafProfile, WafSection};
use curiefense::utils::map_request;
use curiefense::waf::{WafBlockCause, waf_check};

fn section(max_count: usize, max_length: usize, names: Vec<NameRule>) -> WafSection {
    WafSection { max_count, max_length, names }
}

fn profile(headers: WafSection, ignore_alphanum: bool, threshold: u64) -> WafProfile {
    WafProfile {
        name: "wafdefault".to_string(),
        ignore_alphanum,
        threshold,
        headers,
        cookies: section(0, 0, vec![]),
        args: section(0, 0, vec![]),
    }
}

fn req_with_headers(headers: Vec<(&str, &str)>) -> curiefense::utils::RequestInfo {
    map_request(
        "1.1.1.1".to_string(),
        headers
            .into_iter()
            .map(|(k, v)| (k.to_string(), v.to_string()))
            .collect(),
    )
}

#[test]
fn waf_too_many_entries_blocks() {
    let p = profile(section(1, 0, vec![]), true, 0);
    let req = req_with_headers(vec![("a", "1"), ("b", "2")]);
    let sigs: Vec<Signature> = vec![];
    match waf_check(&req, &p, Some(&sigs)) {
        Err(wb) => {
            assert_eq!(wb.section, "headers");
            assert!(matches!(wb.cause, WafBlockCause::TooManyEntries));
        }
        Ok(()) => panic!("count restriction must block"),
    }
}

#[test]
fn waf_value_too_long_blocks() {
    let p = profile(section(0, 3, vec![]), true, 0);
    let req = req_with_headers(vec![("a", "12345")]);
    let sigs: Vec<Signature> = vec![];
    match waf_check(&req, &p, Some(&sigs)) {
        Err(wb) => {
            assert_eq!(wb.section, "headers");
            match wb.cause {
                WafBlockCause::ValueTooLong(k) => assert_eq!(k, "a"),
                _ => panic!("length restriction expected"),
            }
        }
        Ok(()) => panic!("length restriction must block"),
    }
}

#[test]
fn waf_name_rule_asserts_value_shape() {
    let p = profile(
        section(0, 0, vec![NameRule { key: "n".to_string(), reg: "^[0-9]+$".to_string() }]),
        true,
        0,
    );
    let sigs: Vec<Signature> = vec![];
    let good = req_with_headers(vec![("n", "123")]);
    assert!(waf_check(&good, &p, Some(&sigs)).is_ok());
    let bad = req_with_headers(vec![("n", "12a")]);
    match waf_check(&bad, &p, Some(&sigs)) {
        Err(wb) => match wb.cause {
            WafBlockCause::NameAssertFailed(k) => assert_eq!(k, "n"),
            _ => panic!("name assertion expected"),
        },
        Ok(()) => panic!("name assertion must block"),
    }
}

#[test]
fn waf_ignore_alphanum_skips_signatures() {
    let sig = Signature {
        id: "s1".to_string(),
        operand: "admin".to_string(),
        severity: 1,
    };
    let sigs = vec![sig];
    let req = req_with_headers(vec![("a", "admin")]);
    // With the shortcut the purely alphanumeric value is never scanned.
    let skip = profile(section(0, 0, vec![]), true, 1);
    assert!(waf_check(&req, &skip, Some(&sigs)).is_ok());
    // Without it the signature fires.
    let scan = profile(section(0, 0, vec![]), false, 1);
    match waf_check(&req, &scan, Some(&sigs)) {
        Err(wb) => match wb.cause {
            WafBlockCause::SignatureHit(id) => assert_eq!(id, "s1"),
            _ => panic!("signature hit expected"),
        },
        Ok(()) => panic!("signature must block"),
    }
}

#[test]
fn waf_severity_accumulates_to_threshold() {
    let sigs = vec![
        Signature { id: "s1".to_string(), operand: "aa".to_string(), severity: 2 },
        Signature { id: "s2".to_string(), operand: "bb".to_string(), severity: 2 },
    ];
    let req = req_with_headers(vec![("h", "aa bb")]);
    // Threshold above the total: pass.
    let lax = profile(section(0, 0, vec![]), false, 5);
    assert!(waf_check(&req, &lax, Some(&sigs)).is_ok());
    // Threshold reached by the second match: block names the crossing one.
    let strict = profile(section(0, 0, vec![]), false, 4);
    match waf_check(&req, &strict, Some(&sigs)) {
        Err(wb) => match wb.cause {
            WafBlockCause::SignatureHit(id) => assert_eq!(id, "s2"),
            _ => panic!("signature hit expected"),
        },
        Ok(()) => panic!("accumulated severity must block"),
    }
}

#[test]
fn waf_missing_db_blocks_generically() {
    let p = profile(section(0, 0, vec![]), true, 0);
    let req = req_with_headers(vec![("a", "1")]);
    match waf_check(&req, &p, None) {
        Err(wb) => {
            assert_eq!(wb.section, "waf");
            assert!(matches!(wb.cause, WafBlockCause::DbUnavailable));
        }
        Ok(()) => panic!("a missing database must fail closed"),
    }
}
