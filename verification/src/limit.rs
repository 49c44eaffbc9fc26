//! Rate-limit evaluation: per-rule counters keyed by request-derived strings,
//! checked and bumped through the counter store in rule declaration order.
//! A counter over its rule's threshold blocks (or monitors); a store that
//! cannot be reached is fail-open with a `limit-store-error` tag.

use vstd::prelude::*;
use vstd::string::StringExecFns;
use crate::config::{LimitKeyPart, LimitRule};
use crate::interface::{Action, ActionType, Decision, Initiator, Reason};
use crate::tags::{has_match, Tags};
use crate::utils::RequestInfo;

verus! {

/// The counter list folded into a map, later entries taking precedence.
pub open spec fn counts_map(s: Seq<(String, u64)>) -> Map<Seq<char>, u64>
    decreases s.len(),
{
    if s.len() == 0 {
        Map::empty()
    } else {
        counts_map(s.drop_last()).insert(s.last().0@, s.last().1)
    }
}

/// No two counters share a key.
pub open spec fn counter_keys_distinct(s: Seq<(String, u64)>) -> bool {
    forall|i: int, j: int| 0 <= i < j < s.len() ==> s[i].0@ != s[j].0@
}

spec fn counts_has_key(s: Seq<(String, u64)>, k: Seq<char>) -> bool {
    exists|i: int| 0 <= i < s.len() && s[i].0@ == k
}

proof fn lemma_counts_contains(s: Seq<(String, u64)>, k: Seq<char>)
    ensures
        counts_map(s).contains_key(k) <==> counts_has_key(s, k),
    decreases s.len(),
{
    if s.len() > 0 {
        lemma_counts_contains(s.drop_last(), k);
        if s.last().0@ == k {
            assert(s[s.len() - 1].0@ == k);
        } else {
            if counts_has_key(s, k) {
                let i = choose|i: int| 0 <= i < s.len() && s[i].0@ == k;
                assert(s.drop_last()[i] == s[i]);
            }
            if counts_has_key(s.drop_last(), k) {
                let i = choose|i: int| 0 <= i < s.drop_last().len() && s.drop_last()[i].0@ == k;
                assert(s[i].0@ == k);
            }
        }
    }
}

proof fn lemma_counts_value(s: Seq<(String, u64)>, k: Seq<char>, i: int)
    requires
        counter_keys_distinct(s),
        0 <= i < s.len(),
        s[i].0@ == k,
    ensures
        counts_map(s).contains_key(k),
        counts_map(s)[k] == s[i].1,
    decreases s.len(),
{
    if i < s.len() - 1 {
        assert(s.drop_last()[i] == s[i]);
        lemma_counts_value(s.drop_last(), k, i);
        assert(s.last().0@ != k);
    }
}

proof fn lemma_counts_push(s: Seq<(String, u64)>, p: (String, u64))
    ensures
        counts_map(s.push(p)) == counts_map(s).insert(p.0@, p.1),
{
    assert(s.push(p).drop_last() =~= s);
    assert(s.push(p).last() == p);
}

proof fn lemma_counts_update(s: Seq<(String, u64)>, i: int, p: (String, u64))
    requires
        counter_keys_distinct(s),
        0 <= i < s.len(),
        p.0@ == s[i].0@,
    ensures
        counts_map(s.update(i, p)) == counts_map(s).insert(p.0@, p.1),
    decreases s.len(),
{
    let su = s.update(i, p);
    if i == s.len() - 1 {
        assert(su.drop_last() =~= s.drop_last());
        assert(su.last() == p);
        assert(counts_map(s.drop_last()).insert(s.last().0@, s.last().1).insert(p.0@, p.1)
            =~= counts_map(s.drop_last()).insert(p.0@, p.1));
    } else {
        assert(su.drop_last() =~= s.drop_last().update(i, p));
        assert(s.drop_last()[i] == s[i]);
        lemma_counts_update(s.drop_last(), i, p);
        assert(su.last() == s.last());
        assert(s.last().0@ != p.0@);
        assert(counts_map(s.drop_last()).insert(p.0@, p.1).insert(s.last().0@, s.last().1)
            =~= counts_map(s.drop_last()).insert(s.last().0@, s.last().1).insert(p.0@, p.1));
    }
}

/// The count a key holds after one linearizable increment: one more than
/// before (saturating), or `1` for a fresh key.
pub open spec fn bumped(m: Map<Seq<char>, u64>, k: Seq<char>) -> u64 {
    if m.contains_key(k) {
        if m[k] == u64::MAX {
            u64::MAX
        } else {
            (m[k] + 1) as u64
        }
    } else {
        1u64
    }
}

/// The per-(rule, key) counter store. The model holds the counters directly;
/// expiry after a rule's window is a property of wall-clock time, which the
/// core does not read. An unavailable store answers nothing, and the
/// evaluator fails open.
pub struct CounterStore {
    available: bool,
    counters: Vec<(String, u64)>,
}

impl View for CounterStore {
    type V = Map<Seq<char>, u64>;

    closed spec fn view(&self) -> Map<Seq<char>, u64> {
        counts_map(self.counters@)
    }
}

impl CounterStore {
    /// Well-formed: no two counters share a key.
    pub closed spec fn wf(self) -> bool {
        counter_keys_distinct(self.counters@)
    }

    /// Whether increments are answered.
    pub closed spec fn is_available(self) -> bool {
        self.available
    }

    /// An empty, reachable store.
    pub fn new() -> (r: CounterStore)
        ensures
            r.wf(),
            r.is_available(),
            r@ == Map::<Seq<char>, u64>::empty(),
    {
        CounterStore { available: true, counters: Vec::new() }
    }

    /// A store that answers nothing: every increment fails.
    pub fn unavailable() -> (r: CounterStore)
        ensures
            r.wf(),
            !r.is_available(),
            r@ == Map::<Seq<char>, u64>::empty(),
    {
        CounterStore { available: false, counters: Vec::new() }
    }

    /// Atomically increment the counter under `key` within `window` seconds
    /// and return the current count, or `None` when the store is
    /// unreachable (and then nothing changed).
    pub fn incr(&mut self, key: &str, window: u64) -> (r: Option<u64>)
        requires
            old(self).wf(),
        ensures
            final(self).wf(),
            final(self).is_available() == old(self).is_available(),
            !old(self).is_available() ==> r is None && final(self)@ == old(self)@,
            old(self).is_available() ==> r == Some(bumped(old(self)@, key@)) && final(self)@
                == old(self)@.insert(key@, bumped(old(self)@, key@)),
    {
        let _ = window;
        if !self.available {
            return None;
        }
        let ks: String = key.to_owned();
        let n = self.counters.len();
        let mut i: usize = 0;
        while i < n
            invariant
                n == self.counters@.len(),
                i <= n,
                forall|j: int| 0 <= j < i ==> self.counters@[j].0@ != key@,
                self.wf(),
                self.available,
                old(self).available,
                ks@ == key@,
                self.counters == old(self).counters,
            decreases n - i,
        {
            if self.counters[i].0 == ks {
                let ghost s0 = self.counters@;
                let c = self.counters[i].1;
                let nc = if c == u64::MAX {
                    u64::MAX
                } else {
                    c + 1
                };
                let p = &mut self.counters[i];
                p.1 = nc;
                proof {
                    lemma_counts_value(s0, key@, i as int);
                    lemma_counts_update(s0, i as int, self.counters@[i as int]);
                    assert(forall|j: int|
                        0 <= j < s0.len() ==> self.counters@[j].0@ == s0[j].0@);
                }
                return Some(nc);
            }
            i += 1;
        }
        proof {
            lemma_counts_contains(self.counters@, key@);
            lemma_counts_push(self.counters@, (ks, 1u64));
        }
        let ghost s0 = self.counters@;
        self.counters.push((ks, 1));
        proof {
            assert(forall|j: int| 0 <= j < s0.len() ==> self.counters@[j] == s0[j]);
        }
        Some(1)
    }

    /// The count currently under `key` (`0` for a fresh key), without
    /// touching the store.
    pub fn read(&self, key: &str) -> (r: u64)
        requires
            self.wf(),
        ensures
            r == if self@.contains_key(key@) {
                self@[key@]
            } else {
                0u64
            },
    {
        let ks: String = key.to_owned();
        let n = self.counters.len();
        let mut i: usize = 0;
        while i < n
            invariant
                n == self.counters@.len(),
                i <= n,
                forall|j: int| 0 <= j < i ==> self.counters@[j].0@ != key@,
                self.wf(),
                ks@ == key@,
            decreases n - i,
        {
            if self.counters[i].0 == ks {
                proof {
                    lemma_counts_value(self.counters@, key@, i as int);
                }
                return self.counters[i].1;
            }
            i += 1;
        }
        proof {
            lemma_counts_contains(self.counters@, key@);
        }
        0
    }
}

/// What one key part reads from the request; an absent header, cookie or
/// argument contributes the empty string.
pub open spec fn key_part_value(p: LimitKeyPart, req: RequestInfo) -> Seq<char> {
    match p {
        LimitKeyPart::Ip => req.ip@,
        LimitKeyPart::Path => req.path@,
        LimitKeyPart::Header(h) => if req.headers@.contains_key(h@) {
            req.headers@[h@]
        } else {
            Seq::empty()
        },
        LimitKeyPart::Cookie(c) => if req.cookies@.contains_key(c@) {
            req.cookies@[c@]
        } else {
            Seq::empty()
        },
        LimitKeyPart::Arg(a) => if req.args@.contains_key(a@) {
            req.args@[a@]
        } else {
            Seq::empty()
        },
    }
}

/// The key parts concatenated in declaration order.
pub open spec fn parts_key(ps: Seq<LimitKeyPart>, req: RequestInfo) -> Seq<char>
    decreases ps.len(),
{
    if ps.len() == 0 {
        Seq::empty()
    } else {
        parts_key(ps.drop_last(), req) + key_part_value(ps.last(), req)
    }
}

/// The counter key of a rule on a request: the rule id, then the configured
/// key parts.
pub open spec fn rule_key(r: LimitRule, req: RequestInfo) -> Seq<char> {
    r.id@ + parts_key(r.key_parts@, req)
}

/// Whether a rule is evaluated for a tag set: skipped when any exclude tag
/// is attached, or when some include tag is missing.
pub open spec fn rule_applies(r: LimitRule, t: Set<Seq<char>>) -> bool {
    &&& !has_match(t, r.exclude_tags@)
    &&& forall|i: int| 0 <= i < r.include_tags@.len() ==> t.contains(
        #[trigger] r.include_tags@[i]@,
    )
}

/// The state the scan leaves behind: the first rule whose counter crossed
/// its threshold (if any), the store contents, and the tag set.
pub struct LimitScan {
    pub hit: Option<LimitRule>,
    pub store: Map<Seq<char>, u64>,
    pub tags: Set<Seq<char>>,
}

/// The scan over the rules in declaration order: each applicable rule bumps
/// its counter; the first count over its threshold stops the scan; an
/// unreachable store adds the `limit-store-error` tag and moves on.
pub open spec fn spec_limit_scan(
    req: RequestInfo,
    rules: Seq<LimitRule>,
    t: Set<Seq<char>>,
    m: Map<Seq<char>, u64>,
    avail: bool,
) -> LimitScan
    decreases rules.len(),
{
    if rules.len() == 0 {
        LimitScan { hit: None, store: m, tags: t }
    } else {
        let r = rules[0];
        if !rule_applies(r, t) {
            spec_limit_scan(req, rules.drop_first(), t, m, avail)
        } else if !avail {
            spec_limit_scan(req, rules.drop_first(), t.insert("limit-store-error"@), m, avail)
        } else {
            let k = rule_key(r, req);
            let c = bumped(m, k);
            if c > r.threshold {
                LimitScan { hit: Some(r), store: m.insert(k, c), tags: t }
            } else {
                spec_limit_scan(req, rules.drop_first(), t, m.insert(k, c), avail)
            }
        }
    }
}

/// Short-circuit law for the limit stage: when a rule's counter crosses its
/// threshold, the scan's whole outcome — store and tags included — is that
/// of the scan over the rules up to and including the firing rule; the
/// rules after it are never evaluated and leave no trace in the store.
pub proof fn lemma_limit_scan_stops_at_hit(
    req: RequestInfo,
    rules: Seq<LimitRule>,
    t: Set<Seq<char>>,
    m: Map<Seq<char>, u64>,
    avail: bool,
)
    requires
        spec_limit_scan(req, rules, t, m, avail).hit is Some,
    ensures
        exists|i: int|
            0 <= i < rules.len() && #[trigger] rules.subrange(0, i + 1).len() == i + 1
                && spec_limit_scan(req, rules, t, m, avail) == spec_limit_scan(
                req,
                rules.subrange(0, i + 1),
                t,
                m,
                avail,
            ),
    decreases rules.len(),
{
    let full = spec_limit_scan(req, rules, t, m, avail);
    let r = rules[0];
    if rule_applies(r, t) && avail && bumped(m, rule_key(r, req)) > r.threshold {
        assert(rules.subrange(0, 1)[0] == r);
        assert(rules.subrange(0, 1).drop_first() =~= Seq::<LimitRule>::empty());
        assert(full == spec_limit_scan(req, rules.subrange(0, 1), t, m, avail));
        assert(rules.subrange(0int, 1int).len() == 1);
    } else {
        let rest = rules.drop_first();
        let (t2, m2) = if !rule_applies(r, t) {
            (t, m)
        } else if !avail {
            (t.insert("limit-store-error"@), m)
        } else {
            (t, m.insert(rule_key(r, req), bumped(m, rule_key(r, req))))
        };
        lemma_limit_scan_stops_at_hit(req, rest, t2, m2, avail);
        let i = choose|i: int|
            0 <= i < rest.len() && #[trigger] rest.subrange(0, i + 1).len() == i + 1
                && spec_limit_scan(req, rest, t2, m2, avail) == spec_limit_scan(
                req,
                rest.subrange(0, i + 1),
                t2,
                m2,
                avail,
            );
        assert(rules.subrange(0, i + 2)[0] == r);
        assert(rules.subrange(0, i + 2).drop_first() =~= rest.subrange(0, i + 1));
        assert(full == spec_limit_scan(req, rules.subrange(0, i + 2), t, m, avail));
        assert(rules.subrange(0, (i + 1) + 1).len() == i + 2);
    }
}

/// Tag accumulation law for the limit stage: the scan only ever adds tags,
/// so the set it leaves behind contains every tag it was handed.
pub proof fn lemma_limit_scan_tags_monotonic(
    req: RequestInfo,
    rules: Seq<LimitRule>,
    t: Set<Seq<char>>,
    m: Map<Seq<char>, u64>,
    avail: bool,
)
    ensures
        t.subset_of(spec_limit_scan(req, rules, t, m, avail).tags),
    decreases rules.len(),
{
    if rules.len() > 0 {
        let r = rules[0];
        if !rule_applies(r, t) {
            lemma_limit_scan_tags_monotonic(req, rules.drop_first(), t, m, avail);
        } else if !avail {
            let t2 = t.insert("limit-store-error"@);
            lemma_limit_scan_tags_monotonic(req, rules.drop_first(), t2, m, avail);
            assert(t.subset_of(t2));
        } else {
            let k = rule_key(r, req);
            let c = bumped(m, k);
            if c > r.threshold {
            } else {
                lemma_limit_scan_tags_monotonic(
                    req,
                    rules.drop_first(),
                    t,
                    m.insert(k, c),
                    avail,
                );
            }
        }
    }
}

/// Build a rule's counter key from the request.
fn build_key(r: &LimitRule, req: &RequestInfo) -> (k: String)
    requires
        req.wf(),
    ensures
        k@ == rule_key(*r, *req),
{
    let mut acc = r.id.clone();
    let n = r.key_parts.len();
    let mut i: usize = 0;
    while i < n
        invariant
            n == r.key_parts@.len(),
            req.wf(),
            i <= n,
            acc@ == r.id@ + parts_key(r.key_parts@.subrange(0, i as int), *req),
        decreases n - i,
    {
        let ghost pre = r.key_parts@.subrange(0, i as int);
        proof {
            assert(r.key_parts@.subrange(0, i as int + 1).drop_last() =~= pre);
            assert(r.key_parts@.subrange(0, i as int + 1).last() == r.key_parts@[i as int]);
        }
        match &r.key_parts[i] {
            LimitKeyPart::Ip => acc.append(req.ip.as_str()),
            LimitKeyPart::Path => acc.append(req.path.as_str()),
            LimitKeyPart::Header(h) => {
                match req.headers.get_str(h.as_str()) {
                    Some(v) => acc.append(v),
                    None => (),
                }
            },
            LimitKeyPart::Cookie(c) => {
                match req.cookies.get_str(c.as_str()) {
                    Some(v) => acc.append(v),
                    None => (),
                }
            },
            LimitKeyPart::Arg(a) => {
                match req.args.get_str(a.as_str()) {
                    Some(v) => acc.append(v),
                    None => (),
                }
            },
        }
        proof {
            assert(acc@ =~= r.id@ + parts_key(r.key_parts@.subrange(0, i as int + 1), *req));
        }
        i += 1;
    }
    proof {
        assert(r.key_parts@.subrange(0, n as int) =~= r.key_parts@);
    }
    acc
}

/// The action emitted when a rule's counter crosses its threshold.
pub open spec fn is_limit_action(d: Decision, active: bool, rule: LimitRule) -> bool {
    &&& d matches Decision::Action(a)
    &&& a.atype == (if active {
        ActionType::Block
    } else {
        ActionType::Monitor
    })
    &&& !a.ban
    &&& a.status == 503
    &&& a.headers is None
    &&& a.reason.initiator == Initiator::Limit
    &&& a.reason.action is None
    &&& a.reason.reason_tags@.len() == 0
    &&& a.reason.rule matches Some(id) && id@ == rule.id@
    &&& a.reason.sig is None
    &&& a.reason.section is None
    &&& a.content@ == "limit exceeded"@
    &&& a.extra_tags is None
}

/// Evaluate the URL-map's rate-limit rules in declaration order. The first
/// counter over its threshold emits the blocking (or monitoring) action; an
/// unreachable store is fail-open with the `limit-store-error` tag; nothing
/// else changes the tags or the store.
pub fn limit_check(
    req: &RequestInfo,
    limits: &Vec<LimitRule>,
    tags: &mut Tags,
    store: &mut CounterStore,
    active: bool,
) -> (d: Decision)
    requires
        req.wf(),
        old(store).wf(),
    ensures
        final(store).wf(),
        final(store).is_available() == old(store).is_available(),
        ({
            let sc = spec_limit_scan(
                *req,
                limits@,
                old(tags)@,
                old(store)@,
                old(store).is_available(),
            );
            &&& final(tags)@ == sc.tags
            &&& final(store)@ == sc.store
            &&& match sc.hit {
                Some(rule) => is_limit_action(d, active, rule),
                None => d matches Decision::Pass,
            }
        }),
{
    let ghost avail = old(store).is_available();
    let n = limits.len();
    proof {
        assert(limits@.subrange(0, n as int) =~= limits@);
    }
    let mut i: usize = 0;
    while i < n
        invariant
            n == limits@.len(),
            req.wf(),
            store.wf(),
            avail == old(store).is_available(),
            store.is_available() == avail,
            i <= n,
            spec_limit_scan(*req, limits@, old(tags)@, old(store)@, avail) == spec_limit_scan(
                *req,
                limits@.subrange(i as int, n as int),
                tags@,
                store@,
                avail,
            ),
        decreases n - i,
    {
        let ghost rest = limits@.subrange(i as int, n as int);
        let ghost t0 = tags@;
        let ghost m0 = store@;
        proof {
            assert(rest[0] == limits@[i as int]);
            assert(rest.drop_first() =~= limits@.subrange(i as int + 1, n as int));
        }
        let rule = &limits[i];
        let excluded = tags.has_any(&rule.exclude_tags);
        let included = tags.has_all(&rule.include_tags);
        if !excluded && included {
            let key = build_key(rule, req);
            match store.incr(key.as_str(), rule.window) {
                None => {
                    tags.insert("limit-store-error".to_owned());
                },
                Some(count) => {
                    if count > rule.threshold {
                        proof {
                            assert(spec_limit_scan(*req, rest, t0, m0, avail) == LimitScan {
                                hit: Some(*rule),
                                store: store@,
                                tags: tags@,
                            });
                        }
                        return Decision::Action(
                            Action {
                                atype: if active {
                                    ActionType::Block
                                } else {
                                    ActionType::Monitor
                                },
                                ban: false,
                                status: 503,
                                headers: None,
                                reason: Reason {
                                    initiator: Initiator::Limit,
                                    action: None,
                                    reason_tags: Vec::new(),
                                    rule: Some(rule.id.clone()),
                                    sig: None,
                                    section: None,
                                },
                                content: "limit exceeded".to_owned(),
                                extra_tags: None,
                            },
                        );
                    }
                },
            }
        }
        proof {
            assert(spec_limit_scan(*req, rest, t0, m0, avail) == spec_limit_scan(
                *req,
                rest.drop_first(),
                tags@,
                store@,
                avail,
            ));
        }
        i += 1;
    }
    proof {
        assert(limits@.subrange(n as int, n as int) =~= Seq::<LimitRule>::empty());
    }
    Decision::Pass
}

} // verus!
