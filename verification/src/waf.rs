//! The WAF scanner: structural restrictions (entry count, value length,
//! name-specific assertions) and signature matching over the request's
//! headers, cookies and arguments, in that order, each section's entries in
//! their stored (insertion) order. Signature severities accumulate across
//! the scan; crossing the profile's threshold blocks. An unavailable
//! signature database fails closed.

use vstd::prelude::*;
use crate::config::{regex_match, NameRule, Signature, WafProfile, WafSection};
use crate::interface::{Action, ActionType, Initiator, Reason};
use crate::utils::RequestInfo;

verus! {

/// Whether a character is ASCII alphanumeric.
pub open spec fn spec_alphanum_char(c: char) -> bool {
    let u = c as u32;
    (97 <= u <= 122) || (65 <= u <= 90) || (48 <= u <= 57)
}

/// Whether a value is purely ASCII alphanumeric (vacuously true when empty).
pub open spec fn spec_alphanum(v: Seq<char>) -> bool {
    forall|i: int| 0 <= i < v.len() ==> spec_alphanum_char(#[trigger] v[i])
}

/// The first name rule declared for a key, if any.
pub open spec fn first_name_rule(names: Seq<NameRule>, k: Seq<char>) -> Option<NameRule>
    decreases names.len(),
{
    if names.len() == 0 {
        None
    } else if names[0].key@ == k {
        Some(names[0])
    } else {
        first_name_rule(names.drop_first(), k)
    }
}

/// Why a section blocked.
pub enum SecCause {
    /// The section holds more entries than `max_count`.
    TooMany,
    /// The value under `key` is longer than `max_length`.
    TooLong { key: Seq<char> },
    /// The value under `key` fails its name rule's assertion.
    NameAssert { key: Seq<char> },
    /// Matching the signature at `index` carried the accumulated severity
    /// over the threshold.
    Sig { index: int },
}

/// One signature pass over a value: severities of matching signatures are
/// added in declaration order; the first match that carries the total to the
/// threshold stops the scan.
pub open spec fn sig_scan(sigs: Seq<Signature>, v: Seq<char>, acc: int, thr: int) -> Result<
    int,
    int,
>
    decreases sigs.len(),
{
    if sigs.len() == 0 {
        Ok(acc)
    } else if regex_match(sigs[0].operand@, v) {
        if acc + sigs[0].severity >= thr {
            Err(0int)
        } else {
            match sig_scan(sigs.drop_first(), v, acc + sigs[0].severity, thr) {
                Ok(a) => Ok(a),
                Err(i) => Err(i + 1),
            }
        }
    } else {
        match sig_scan(sigs.drop_first(), v, acc, thr) {
            Ok(a) => Ok(a),
            Err(i) => Err(i + 1),
        }
    }
}

/// The scan of one section's entries: length check, name assertion, then
/// signature matching (skipped for alphanumeric values when the profile says
/// so), entry by entry in stored order.
pub open spec fn entry_scan(
    entries: Seq<(Seq<char>, Seq<char>)>,
    sec: WafSection,
    ignore_alphanum: bool,
    sigs: Seq<Signature>,
    thr: int,
    acc: int,
) -> Result<int, SecCause>
    decreases entries.len(),
{
    if entries.len() == 0 {
        Ok(acc)
    } else {
        let k = entries[0].0;
        let v = entries[0].1;
        if sec.max_length > 0 && v.len() > sec.max_length {
            Err(SecCause::TooLong { key: k })
        } else if first_name_rule(sec.names@, k) matches Some(nr) && !regex_match(nr.reg@, v) {
            Err(SecCause::NameAssert { key: k })
        } else if ignore_alphanum && spec_alphanum(v) {
            entry_scan(entries.drop_first(), sec, ignore_alphanum, sigs, thr, acc)
        } else {
            match sig_scan(sigs, v, acc, thr) {
                Ok(a) => entry_scan(entries.drop_first(), sec, ignore_alphanum, sigs, thr, a),
                Err(i) => Err(SecCause::Sig { index: i }),
            }
        }
    }
}

/// The verdict of one section: the count restriction, then the entry scan.
pub open spec fn section_verdict(
    entries: Seq<(Seq<char>, Seq<char>)>,
    sec: WafSection,
    ignore_alphanum: bool,
    sigs: Seq<Signature>,
    thr: int,
    acc: int,
) -> Result<int, SecCause> {
    if sec.max_count > 0 && entries.len() > sec.max_count {
        Err(SecCause::TooMany)
    } else {
        entry_scan(entries, sec, ignore_alphanum, sigs, thr, acc)
    }
}

/// The scanner's verdict over the whole request.
pub enum WafVerdict {
    Pass,
    /// `section` is `0` for headers, `1` for cookies, `2` for arguments.
    Block { section: int, cause: SecCause },
}

/// The full scan: headers, then cookies, then arguments, the severity
/// accumulator carried across sections.
pub open spec fn spec_waf(req: RequestInfo, p: WafProfile, sigs: Seq<Signature>) -> WafVerdict {
    let thr = p.threshold as int;
    match section_verdict(req.headers.entry_seq(), p.headers, p.ignore_alphanum, sigs, thr, 0) {
        Err(c) => WafVerdict::Block { section: 0, cause: c },
        Ok(a1) => match section_verdict(
            req.cookies.entry_seq(),
            p.cookies,
            p.ignore_alphanum,
            sigs,
            thr,
            a1,
        ) {
            Err(c) => WafVerdict::Block { section: 1, cause: c },
            Ok(a2) => match section_verdict(
                req.args.entry_seq(),
                p.args,
                p.ignore_alphanum,
                sigs,
                thr,
                a2,
            ) {
                Err(c) => WafVerdict::Block { section: 2, cause: c },
                Ok(_) => WafVerdict::Pass,
            },
        },
    }
}

/// Why the scanner blocked, carried into the action's reason document.
pub enum WafBlockCause {
    TooManyEntries,
    ValueTooLong(String),
    NameAssertFailed(String),
    SignatureHit(String),
    DbUnavailable,
}

/// A scanner block: the section label and the cause.
pub struct WafBlock {
    pub section: String,
    pub cause: WafBlockCause,
}

/// Whether `wb` renders the spec-level cause `c` of signatures `sigs`.
pub open spec fn cause_describes(wb: WafBlockCause, c: SecCause, sigs: Seq<Signature>) -> bool {
    match c {
        SecCause::TooMany => wb is TooManyEntries,
        SecCause::TooLong { key } => wb matches WafBlockCause::ValueTooLong(k) && k@ == key,
        SecCause::NameAssert { key } => wb matches WafBlockCause::NameAssertFailed(k) && k@
            == key,
        SecCause::Sig { index } => wb matches WafBlockCause::SignatureHit(id) && 0 <= index
            < sigs.len() && id@ == sigs[index].id@,
    }
}

/// The section label of a section number.
pub open spec fn section_label(s: int) -> Seq<char> {
    if s == 0 {
        "headers"@
    } else if s == 1 {
        "cookies"@
    } else {
        "args"@
    }
}

impl WafBlock {
    /// Render the block as a terminal action with the `waf` reason document.
    pub fn to_action(self) -> (a: Action)
        ensures
            a.atype == ActionType::Block,
            !a.ban,
            a.status == 403,
            a.headers is None,
            a.reason.initiator == Initiator::Waf,
            a.reason.action is None,
            a.reason.reason_tags@.len() == 0,
            a.reason.rule is None,
            a.reason.section matches Some(s) && s@ == self.section@,
            match self.cause {
                WafBlockCause::SignatureHit(id) => a.reason.sig matches Some(s) && s@ == id@,
                _ => a.reason.sig is None,
            },
            a.content@ == "waf denied"@,
            a.extra_tags is None,
    {
        let sig = match self.cause {
            WafBlockCause::SignatureHit(id) => Some(id),
            _ => None,
        };
        Action {
            atype: ActionType::Block,
            ban: false,
            status: 403,
            headers: None,
            reason: Reason {
                initiator: Initiator::Waf,
                action: None,
                reason_tags: Vec::new(),
                rule: None,
                sig,
                section: Some(self.section),
            },
            content: "waf denied".to_owned(),
            extra_tags: None,
        }
    }
}

/// Whether a value is purely ASCII alphanumeric.
fn is_alphanum(v: &str) -> (r: bool)
    ensures
        r == spec_alphanum(v@),
{
    let n = v.unicode_len();
    let mut i: usize = 0;
    while i < n
        invariant
            n == v@.len(),
            i <= n,
            forall|j: int| 0 <= j < i ==> spec_alphanum_char(#[trigger] v@[j]),
        decreases n - i,
    {
        let c = v.get_char(i);
        let u = c as u32;
        if !((97 <= u && u <= 122) || (65 <= u && u <= 90) || (48 <= u && u <= 57)) {
            return false;
        }
        i += 1;
    }
    true
}

/// Find the first name rule declared for `k`.
fn find_name_rule<'a>(names: &'a Vec<NameRule>, k: &str) -> (r: Option<&'a NameRule>)
    ensures
        match first_name_rule(names@, k@) {
            Some(nr) => r matches Some(x) && *x == nr,
            None => r is None,
        },
{
    let n = names.len();
    let mut i: usize = 0;
    while i < n
        invariant
            n == names@.len(),
            i <= n,
            forall|j: int| 0 <= j < i ==> (#[trigger] names@[j]).key@ != k@,
        decreases n - i,
    {
        let ks: String = k.to_owned();
        if names[i].key == ks {
            proof {
                lemma_first_name_rule_found(names@, k@, i as int);
            }
            return Some(&names[i]);
        }
        i += 1;
    }
    proof {
        lemma_first_name_rule_none(names@, k@);
    }
    None
}

proof fn lemma_first_name_rule_found(names: Seq<NameRule>, k: Seq<char>, i: int)
    requires
        0 <= i < names.len(),
        names[i].key@ == k,
        forall|j: int| 0 <= j < i ==> (#[trigger] names[j]).key@ != k,
    ensures
        first_name_rule(names, k) == Some(names[i]),
    decreases i,
{
    if i > 0 {
        let rest = names.drop_first();
        assert(rest[i - 1] == names[i]);
        assert forall|j: int| 0 <= j < i - 1 implies (#[trigger] rest[j]).key@ != k by {
            assert(rest[j] == names[j + 1]);
        }
        lemma_first_name_rule_found(rest, k, i - 1);
    }
}

proof fn lemma_first_name_rule_none(names: Seq<NameRule>, k: Seq<char>)
    requires
        forall|j: int| 0 <= j < names.len() ==> (#[trigger] names[j]).key@ != k,
    ensures
        first_name_rule(names, k) is None,
    decreases names.len(),
{
    if names.len() > 0 {
        let rest = names.drop_first();
        assert forall|j: int| 0 <= j < rest.len() implies (#[trigger] rest[j]).key@ != k by {
            assert(rest[j] == names[j + 1]);
        }
        lemma_first_name_rule_none(rest, k);
    }
}

/// Run the signatures over one value, accumulating severity.
fn run_sigs(sigs: &Vec<Signature>, v: &str, acc: u128, thr: u64) -> (r: Result<u128, String>)
    requires
        acc < thr || thr == 0,
        acc <= u64::MAX,
    ensures
        match sig_scan(sigs@, v@, acc as int, thr as int) {
            Ok(a) => r matches Ok(x) && x as int == a && a <= u64::MAX && (a < thr
                || thr == 0),
            Err(i) => r matches Err(id) && 0 <= i < sigs@.len() && id@ == sigs@[i].id@,
        },
{
    let n = sigs.len();
    proof {
        assert(sigs@.subrange(0, n as int) =~= sigs@);
    }
    let mut a: u128 = acc;
    let mut i: usize = 0;
    while i < n
        invariant
            n == sigs@.len(),
            i <= n,
            a <= u64::MAX,
            a < thr || thr == 0,
            sig_scan(sigs@, v@, acc as int, thr as int) == match sig_scan(
                sigs@.subrange(i as int, n as int),
                v@,
                a as int,
                thr as int,
            ) {
                Ok(x) => Ok::<int, int>(x),
                Err(e) => Err::<int, int>(e + i),
            },
        decreases n - i,
    {
        let ghost rest = sigs@.subrange(i as int, n as int);
        proof {
            assert(rest[0] == sigs@[i as int]);
            assert(rest.drop_first() =~= sigs@.subrange(i as int + 1, n as int));
        }
        let s = &sigs[i];
        if crate::config::regex_is_match(s.operand.as_str(), v) {
            let a2: u128 = a + s.severity as u128;
            if a2 >= thr as u128 {
                return Err(s.id.clone());
            }
            a = a2;
        }
        i += 1;
    }
    proof {
        assert(sigs@.subrange(n as int, n as int) =~= Seq::<Signature>::empty());
    }
    Ok(a)
}

/// Scan one section's entries.
fn scan_section(
    entries: &Vec<(String, String)>,
    sec: &WafSection,
    ignore_alphanum: bool,
    sigs: &Vec<Signature>,
    thr: u64,
    acc: u128,
) -> (r: Result<u128, SecCauseExec>)
    requires
        acc < thr || thr == 0,
        acc <= u64::MAX,
    ensures
        ({
            let es = entries@.map_values(|p: (String, String)| (p.0@, p.1@));
            match entry_scan(es, *sec, ignore_alphanum, sigs@, thr as int, acc as int) {
                Ok(a) => r matches Ok(x) && x as int == a && a <= u64::MAX && (a < thr
                    || thr == 0),
                Err(c) => r matches Err(e) && cause_describes(e.as_cause(), c, sigs@),
            }
        }),
{
    let ghost es = entries@.map_values(|p: (String, String)| (p.0@, p.1@));
    let n = entries.len();
    proof {
        assert(es.subrange(0, n as int) =~= es);
    }
    let mut a: u128 = acc;
    let mut i: usize = 0;
    while i < n
        invariant
            n == entries@.len(),
            es == entries@.map_values(|p: (String, String)| (p.0@, p.1@)),
            i <= n,
            a <= u64::MAX,
            a < thr || thr == 0,
            entry_scan(es, *sec, ignore_alphanum, sigs@, thr as int, acc as int) == entry_scan(
                es.subrange(i as int, n as int),
                *sec,
                ignore_alphanum,
                sigs@,
                thr as int,
                a as int,
            ),
        decreases n - i,
    {
        let ghost rest = es.subrange(i as int, n as int);
        proof {
            assert(rest[0] == es[i as int]);
            assert(rest.drop_first() =~= es.subrange(i as int + 1, n as int));
        }
        let k = &entries[i].0;
        let v = &entries[i].1;
        if sec.max_length > 0 && v.as_str().unicode_len() > sec.max_length {
            return Err(SecCauseExec::TooLong(k.clone()));
        }
        let mut assert_failed = false;
        match find_name_rule(&sec.names, k.as_str()) {
            Some(nr) => {
                if !crate::config::regex_is_match(nr.reg.as_str(), v.as_str()) {
                    assert_failed = true;
                }
            },
            None => (),
        }
        if assert_failed {
            return Err(SecCauseExec::NameAssert(k.clone()));
        }
        if !(ignore_alphanum && is_alphanum(v.as_str())) {
            match run_sigs(sigs, v.as_str(), a, thr) {
                Ok(a2) => {
                    a = a2;
                },
                Err(id) => {
                    return Err(SecCauseExec::Sig(id));
                },
            }
        }
        i += 1;
    }
    proof {
        assert(es.subrange(n as int, n as int) =~= Seq::<(Seq<char>, Seq<char>)>::empty());
    }
    Ok(a)
}

/// An executable section-block cause, rendered into `WafBlockCause`.
pub enum SecCauseExec {
    TooMany,
    TooLong(String),
    NameAssert(String),
    Sig(String),
}

impl SecCauseExec {
    /// The reason-document cause this renders to.
    pub open spec fn as_cause(self) -> WafBlockCause {
        match self {
            SecCauseExec::TooMany => WafBlockCause::TooManyEntries,
            SecCauseExec::TooLong(k) => WafBlockCause::ValueTooLong(k),
            SecCauseExec::NameAssert(k) => WafBlockCause::NameAssertFailed(k),
            SecCauseExec::Sig(id) => WafBlockCause::SignatureHit(id),
        }
    }

    /// Convert into the reason-document cause.
    pub fn into_cause(self) -> (r: WafBlockCause)
        ensures
            r == self.as_cause(),
    {
        match self {
            SecCauseExec::TooMany => WafBlockCause::TooManyEntries,
            SecCauseExec::TooLong(k) => WafBlockCause::ValueTooLong(k),
            SecCauseExec::NameAssert(k) => WafBlockCause::NameAssertFailed(k),
            SecCauseExec::Sig(id) => WafBlockCause::SignatureHit(id),
        }
    }
}

/// Scan the request against the profile and the signature database.
/// `Ok(())` passes; a block carries the section and cause pinned by
/// `spec_waf`. A missing database (`None`: the shared lock is poisoned)
/// fails closed with `DbUnavailable`.
pub fn waf_check(req: &RequestInfo, p: &WafProfile, sigs: Option<&Vec<Signature>>) -> (r: Result<
    (),
    WafBlock,
>)
    requires
        req.wf(),
    ensures
        sigs is None ==> (r matches Err(wb) && wb.cause is DbUnavailable && wb.section@
            == "waf"@),
        ({
            sigs matches Some(db) ==> match spec_waf(*req, *p, db@) {
                WafVerdict::Pass => r is Ok,
                WafVerdict::Block { section, cause } => r matches Err(wb) && wb.section@
                    == section_label(section) && cause_describes(wb.cause, cause, db@),
            }
        }),
{
    let db = match sigs {
        None => {
            return Err(
                WafBlock { section: "waf".to_owned(), cause: WafBlockCause::DbUnavailable },
            );
        },
        Some(db) => db,
    };
    let thr = p.threshold;
    let hdrs = req.headers.iter();
    let a1 = if p.headers.max_count > 0 && hdrs.len() > p.headers.max_count {
        return Err(
            WafBlock { section: "headers".to_owned(), cause: WafBlockCause::TooManyEntries },
        );
    } else {
        match scan_section(hdrs, &p.headers, p.ignore_alphanum, db, thr, 0) {
            Ok(a) => a,
            Err(c) => {
                return Err(WafBlock { section: "headers".to_owned(), cause: c.into_cause() });
            },
        }
    };
    let cks = req.cookies.iter();
    let a2 = if p.cookies.max_count > 0 && cks.len() > p.cookies.max_count {
        return Err(
            WafBlock { section: "cookies".to_owned(), cause: WafBlockCause::TooManyEntries },
        );
    } else {
        match scan_section(cks, &p.cookies, p.ignore_alphanum, db, thr, a1) {
            Ok(a) => a,
            Err(c) => {
                return Err(WafBlock { section: "cookies".to_owned(), cause: c.into_cause() });
            },
        }
    };
    let args = req.args.iter();
    if p.args.max_count > 0 && args.len() > p.args.max_count {
        return Err(WafBlock { section: "args".to_owned(), cause: WafBlockCause::TooManyEntries });
    }
    match scan_section(args, &p.args, p.ignore_alphanum, db, thr, a2) {
        Ok(_) => Ok(()),
        Err(c) => Err(WafBlock { section: "args".to_owned(), cause: c.into_cause() }),
    }
}

} // verus!
