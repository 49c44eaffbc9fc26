//! Multi-value field container for user-supplied data that can collide.
//!
//! A mapping from key to a single value string. Inserting an already-present
//! key appends `" " + value` to the stored string (space separator). On every
//! insertion, a value that base64-decodes to valid text additionally feeds a
//! parallel "shadow" entry under `key + "_base64"`, inserted before the raw
//! value, so that queries against `key` see only raw values and queries
//! against `key_base64` see only decoded variants.

use vstd::prelude::*;
use vstd::string::StringExecFns;

verus! {

/// What `base64::decode` yields on a given character sequence: `Some` of the
/// decoded bytes exactly when the input is accepted by the standard, padded
/// base64 alphabet. The result is a function of the input alone.
pub uninterp spec fn b64_bytes_of(s: Seq<char>) -> Option<Seq<u8>>;

/// What `String::from_utf8` yields on a given byte sequence: `Some` of the
/// decoded characters exactly when the bytes are valid UTF-8. The result is a
/// function of the input alone.
pub uninterp spec fn utf8_chars_of(b: Seq<u8>) -> Option<Seq<char>>;

/// The "decodes cleanly to text" relation used by the shadow rule: base64
/// decoding followed by UTF-8 validation.
pub open spec fn decoded_text(v: Seq<char>) -> Option<Seq<char>> {
    match b64_bytes_of(v) {
        Some(b) => utf8_chars_of(b),
        None => None,
    }
}

/// Relies on `base64::decode` (standard alphabet, padded): accepts or rejects
/// an input, and the decoded bytes, as a function of the input alone.
#[verifier::external_body]
fn decode_base64(v: &str) -> (r: Option<Vec<u8>>)
    ensures
        r matches Some(b) ==> b64_bytes_of(v@) == Some(b@),
        r is None ==> b64_bytes_of(v@) is None,
{
    base64::decode(v.as_bytes()).ok()
}

/// Relies on `String::from_utf8`: succeeds exactly on valid UTF-8, and the
/// resulting characters are a function of the bytes alone.
#[verifier::external_body]
fn bytes_to_utf8(b: Vec<u8>) -> (r: Option<String>)
    ensures
        r matches Some(s) ==> utf8_chars_of(b@) == Some(s@),
        r is None ==> utf8_chars_of(b@) is None,
{
    String::from_utf8(b).ok()
}

/// The key under which a cleanly-decoding value is shadowed.
pub open spec fn shadow_key(k: Seq<char>) -> Seq<char> {
    k + "_base64"@
}

/// One merge step on the abstract map: store the value under the key if the
/// key is absent, else append `" " + value` to the stored string.
pub open spec fn merged(
    m: Map<Seq<char>, Seq<char>>,
    k: Seq<char>,
    v: Seq<char>,
) -> Map<Seq<char>, Seq<char>> {
    if m.contains_key(k) {
        m.insert(k, m[k] + " "@ + v)
    } else {
        m.insert(k, v)
    }
}

/// The full insertion step: the base64 shadow (when the value is non-empty
/// and decodes to valid text) is merged first, then the raw value.
pub open spec fn spec_add(
    m: Map<Seq<char>, Seq<char>>,
    k: Seq<char>,
    v: Seq<char>,
) -> Map<Seq<char>, Seq<char>> {
    let m1 = if v.len() > 0 {
        match decoded_text(v) {
            Some(t) => merged(m, shadow_key(k), t),
            None => m,
        }
    } else {
        m
    };
    merged(m1, k, v)
}

/// A sequence of insertions folded into the abstract map, in order, each
/// with the full merge-and-shadow rule.
pub open spec fn spec_add_all(ps: Seq<(Seq<char>, Seq<char>)>) -> Map<Seq<char>, Seq<char>>
    decreases ps.len(),
{
    if ps.len() == 0 {
        Map::empty()
    } else {
        spec_add(spec_add_all(ps.drop_last()), ps.last().0, ps.last().1)
    }
}

/// The association list folded into a map, later entries taking precedence.
pub open spec fn assoc_map(s: Seq<(String, String)>) -> Map<Seq<char>, Seq<char>>
    decreases s.len(),
{
    if s.len() == 0 {
        Map::empty()
    } else {
        assoc_map(s.drop_last()).insert(s.last().0@, s.last().1@)
    }
}

/// No two entries share a key.
pub open spec fn keys_distinct(s: Seq<(String, String)>) -> bool {
    forall|i: int, j: int| 0 <= i < j < s.len() ==> s[i].0@ != s[j].0@
}

/// Some entry carries the key `k`.
pub open spec fn seq_has_key(s: Seq<(String, String)>, k: Seq<char>) -> bool {
    exists|i: int| 0 <= i < s.len() && s[i].0@ == k
}

proof fn lemma_assoc_contains(s: Seq<(String, String)>, k: Seq<char>)
    ensures
        assoc_map(s).contains_key(k) <==> seq_has_key(s, k),
    decreases s.len(),
{
    if s.len() > 0 {
        lemma_assoc_contains(s.drop_last(), k);
        if s.last().0@ == k {
            assert(s[s.len() - 1].0@ == k);
        } else {
            if seq_has_key(s, k) {
                let i = choose|i: int| 0 <= i < s.len() && s[i].0@ == k;
                assert(s.drop_last()[i] == s[i]);
            }
            if seq_has_key(s.drop_last(), k) {
                let i = choose|i: int| 0 <= i < s.drop_last().len() && s.drop_last()[i].0@ == k;
                assert(s[i].0@ == k);
            }
        }
    }
}

proof fn lemma_assoc_value(s: Seq<(String, String)>, k: Seq<char>, i: int)
    requires
        keys_distinct(s),
        0 <= i < s.len(),
        s[i].0@ == k,
    ensures
        assoc_map(s).contains_key(k),
        assoc_map(s)[k] == s[i].1@,
    decreases s.len(),
{
    if i == s.len() - 1 {
    } else {
        assert(s.drop_last()[i] == s[i]);
        lemma_assoc_value(s.drop_last(), k, i);
        assert(s.last().0@ != k);
    }
}

proof fn lemma_assoc_push(s: Seq<(String, String)>, p: (String, String))
    ensures
        assoc_map(s.push(p)) == assoc_map(s).insert(p.0@, p.1@),
{
    assert(s.push(p).drop_last() =~= s);
    assert(s.push(p).last() == p);
}

proof fn lemma_assoc_update(s: Seq<(String, String)>, i: int, p: (String, String))
    requires
        keys_distinct(s),
        0 <= i < s.len(),
        p.0@ == s[i].0@,
    ensures
        assoc_map(s.update(i, p)) == assoc_map(s).insert(p.0@, p.1@),
    decreases s.len(),
{
    let su = s.update(i, p);
    if i == s.len() - 1 {
        assert(su.drop_last() =~= s.drop_last());
        assert(su.last() == p);
        assert(assoc_map(s.drop_last()).insert(s.last().0@, s.last().1@).insert(p.0@, p.1@)
            =~= assoc_map(s.drop_last()).insert(p.0@, p.1@));
    } else {
        assert(su.drop_last() =~= s.drop_last().update(i, p));
        assert(s.drop_last()[i] == s[i]);
        lemma_assoc_update(s.drop_last(), i, p);
        assert(su.last() == s.last());
        assert(s.last().0@ != p.0@);
        assert(assoc_map(s.drop_last()).insert(p.0@, p.1@).insert(s.last().0@, s.last().1@)
            =~= assoc_map(s.drop_last()).insert(s.last().0@, s.last().1@).insert(p.0@, p.1@));
    }
}

proof fn lemma_assoc_dom_len(s: Seq<(String, String)>)
    requires
        keys_distinct(s),
    ensures
        assoc_map(s).dom().finite(),
        assoc_map(s).dom().len() == s.len(),
    decreases s.len(),
{
    broadcast use vstd::set::axiom_set_insert_len;

    if s.len() > 0 {
        lemma_assoc_dom_len(s.drop_last());
        lemma_assoc_contains(s.drop_last(), s.last().0@);
        if seq_has_key(s.drop_last(), s.last().0@) {
            let i = choose|i: int|
                0 <= i < s.drop_last().len() && s.drop_last()[i].0@ == s.last().0@;
            assert(s[i].0@ == s[s.len() - 1].0@);
            assert(false);
        }
    }
}

/// A mapping from key to a single merged value string (see the module
/// documentation for the merge and shadow rules). Lookup is by exact,
/// case-sensitive key.
pub struct RequestField {
    entries: Vec<(String, String)>,
}

impl View for RequestField {
    type V = Map<Seq<char>, Seq<char>>;

    closed spec fn view(&self) -> Map<Seq<char>, Seq<char>> {
        assoc_map(self.entries@)
    }
}

impl RequestField {
    /// Well-formed: no two stored entries share a key.
    pub closed spec fn wf(self) -> bool {
        keys_distinct(self.entries@)
    }

    /// An empty container.
    pub fn new() -> (r: RequestField)
        ensures
            r.wf(),
            r@ == Map::<Seq<char>, Seq<char>>::empty(),
    {
        RequestField { entries: Vec::new() }
    }

    /// Merge `(key, value)` without the shadow rule: the raw merge step.
    fn base_add(&mut self, key: String, value: String)
        requires
            old(self).wf(),
        ensures
            final(self).wf(),
            final(self)@ == merged(old(self)@, key@, value@),
    {
        let n = self.entries.len();
        let mut i: usize = 0;
        while i < n
            invariant
                n == self.entries@.len(),
                i <= n,
                forall|j: int| 0 <= j < i ==> self.entries@[j].0@ != key@,
                self.wf(),
                self.entries == old(self).entries,
            decreases n - i,
        {
            if self.entries[i].0 == key {
                let ghost s0 = self.entries@;
                let p = &mut self.entries[i];
                p.1.append(" ");
                p.1.append(value.as_str());
                proof {
                    lemma_assoc_value(s0, key@, i as int);
                    lemma_assoc_update(s0, i as int, self.entries@[i as int]);
                    assert(forall|j: int|
                        0 <= j < s0.len() ==> self.entries@[j].0@ == s0[j].0@);
                }
                return ;
            }
            i += 1;
        }
        proof {
            lemma_assoc_contains(self.entries@, key@);
            lemma_assoc_push(self.entries@, (key, value));
        }
        let ghost s0 = self.entries@;
        self.entries.push((key, value));
        proof {
            assert(forall|j: int| 0 <= j < s0.len() ==> self.entries@[j] == s0[j]);
        }
    }

    /// Insert `(key, value)`. A non-empty value that base64-decodes to valid
    /// text first feeds the shadow entry under `key + "_base64"`; the raw
    /// value is then merged under `key` itself.
    pub fn add(&mut self, key: String, value: String)
        requires
            old(self).wf(),
        ensures
            final(self).wf(),
            final(self)@ == spec_add(old(self)@, key@, value@),
    {
        if !value.as_str().is_empty() {
            if let Some(bytes) = decode_base64(value.as_str()) {
                if let Some(txt) = bytes_to_utf8(bytes) {
                    let nkey = key.clone().concat("_base64");
                    self.base_add(nkey, txt);
                }
            }
        }
        self.base_add(key, value);
    }

    /// Look the key up; `Some` exactly when the key is present, and then the
    /// merged value stored under it.
    pub fn get(&self, k: &str) -> (r: Option<&String>)
        requires
            self.wf(),
        ensures
            r matches Some(v) ==> self@.contains_key(k@) && v@ == self@[k@],
            r is None ==> !self@.contains_key(k@),
    {
        let key: String = k.to_owned();
        let n = self.entries.len();
        let mut i: usize = 0;
        while i < n
            invariant
                n == self.entries@.len(),
                i <= n,
                forall|j: int| 0 <= j < i ==> self.entries@[j].0@ != k@,
                self.wf(),
                key@ == k@,
            decreases n - i,
        {
            let p = &self.entries[i];
            if p.0 == key {
                proof {
                    lemma_assoc_value(self.entries@, k@, i as int);
                }
                return Some(&p.1);
            }
            i += 1;
        }
        proof {
            lemma_assoc_contains(self.entries@, k@);
        }
        None
    }

    /// `get`, with the value handed out as a string slice.
    pub fn get_str(&self, k: &str) -> (r: Option<&str>)
        requires
            self.wf(),
        ensures
            r matches Some(v) ==> self@.contains_key(k@) && v@ == self@[k@],
            r is None ==> !self@.contains_key(k@),
    {
        match self.get(k) {
            Some(s) => Some(s.as_str()),
            None => None,
        }
    }

    /// The number of distinct keys held.
    pub fn len(&self) -> (r: usize)
        requires
            self.wf(),
        ensures
            self@.dom().finite(),
            r == self@.dom().len(),
    {
        proof {
            lemma_assoc_dom_len(self.entries@);
        }
        self.entries.len()
    }

    /// Whether no key is held.
    pub fn is_empty(&self) -> (r: bool)
        requires
            self.wf(),
        ensures
            self@.dom().finite(),
            r == (self@.dom().len() == 0),
    {
        proof {
            lemma_assoc_dom_len(self.entries@);
        }
        self.entries.is_empty()
    }

    /// Collect pairs into a container, inserting in order with the full
    /// merge-and-shadow rule.
    pub fn from_pairs(pairs: Vec<(String, String)>) -> (r: RequestField)
        ensures
            r.wf(),
            r@ == spec_add_all(pairs@.map_values(|p: (String, String)| (p.0@, p.1@))),
    {
        let ghost pview = pairs@.map_values(|p: (String, String)| (p.0@, p.1@));
        let mut r = RequestField::new();
        let n = pairs.len();
        let mut i: usize = 0;
        while i < n
            invariant
                n == pairs@.len(),
                pview == pairs@.map_values(|p: (String, String)| (p.0@, p.1@)),
                i <= n,
                r.wf(),
                r@ == spec_add_all(pview.subrange(0, i as int)),
            decreases n - i,
        {
            let (k, v) = (pairs[i].0.clone(), pairs[i].1.clone());
            proof {
                assert(pview.subrange(0, i as int + 1).drop_last() =~= pview.subrange(
                    0,
                    i as int,
                ));
                assert(pview.subrange(0, i as int + 1).last() == pview[i as int]);
            }
            r.add(k, v);
            i += 1;
        }
        proof {
            assert(pview.subrange(0, n as int) =~= pview);
        }
        r
    }

    /// The stored entries as the scan stages see them: key and value views
    /// in insertion order, one entry per key.
    pub closed spec fn entry_seq(self) -> Seq<(Seq<char>, Seq<char>)> {
        self.entries@.map_values(|p: (String, String)| (p.0@, p.1@))
    }

    /// The stored entries, one per key, each carrying the merged value that
    /// `get` would return for its key.
    pub fn iter(&self) -> (r: &Vec<(String, String)>)
        requires
            self.wf(),
        ensures
            self@.dom().finite(),
            r@.len() == self@.dom().len(),
            r@.map_values(|p: (String, String)| (p.0@, p.1@)) == self.entry_seq(),
            forall|i: int|
                0 <= i < r@.len() ==> self@.contains_key(#[trigger] r@[i].0@)
                    && self@[r@[i].0@] == r@[i].1@,
    {
        proof {
            lemma_assoc_dom_len(self.entries@);
            assert forall|i: int|
                0 <= i < self.entries@.len() implies self@.contains_key(
                #[trigger] self.entries@[i].0@,
            ) && self@[self.entries@[i].0@] == self.entries@[i].1@ by {
                lemma_assoc_value(self.entries@, self.entries@[i].0@, i);
            }
        }
        &self.entries
    }
}

impl Default for RequestField {
    /// An empty container.
    fn default() -> (r: RequestField)
        ensures
            r.wf(),
            r@ == Map::<Seq<char>, Seq<char>>::empty(),
    {
        RequestField::new()
    }
}

} // verus!
