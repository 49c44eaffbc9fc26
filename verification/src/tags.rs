//! The tag set: flat string labels plus qualified `family:value` labels,
//! attached to a request as it moves through the pipeline. Order-insensitive,
//! duplicates collapsed, and tags are only ever added, never removed.

use vstd::prelude::*;
use vstd::string::StringExecFns;

verus! {

/// Whether some entry of `list` is present in the tag set `t`.
pub open spec fn has_match(t: Set<Seq<char>>, list: Seq<String>) -> bool {
    exists|i: int| 0 <= i < list.len() && t.contains(list[i]@)
}

/// The entries of `list` present in the tag set `t`, in list order.
pub open spec fn spec_matching(t: Set<Seq<char>>, list: Seq<String>) -> Seq<Seq<char>>
    decreases list.len(),
{
    if list.len() == 0 {
        Seq::empty()
    } else {
        let rest = spec_matching(t, list.drop_last());
        if t.contains(list.last()@) {
            rest.push(list.last()@)
        } else {
            rest
        }
    }
}

proof fn lemma_matching_nonempty(t: Set<Seq<char>>, list: Seq<String>)
    ensures
        spec_matching(t, list).len() > 0 <==> has_match(t, list),
    decreases list.len(),
{
    if list.len() > 0 {
        lemma_matching_nonempty(t, list.drop_last());
        if t.contains(list.last()@) {
            assert(list[list.len() - 1] == list.last());
        } else {
            if has_match(t, list) {
                let i = choose|i: int| 0 <= i < list.len() && t.contains(list[i]@);
                assert(list.drop_last()[i] == list[i]);
            }
            if has_match(t, list.drop_last()) {
                let i = choose|i: int|
                    0 <= i < list.drop_last().len() && t.contains(list.drop_last()[i]@);
                assert(list[i] == list.drop_last()[i]);
            }
        }
    }
}

/// The set of labels attached to a request.
pub struct Tags {
    entries: Vec<String>,
}

impl View for Tags {
    type V = Set<Seq<char>>;

    closed spec fn view(&self) -> Set<Seq<char>> {
        Set::new(|k: Seq<char>| exists|i: int| 0 <= i < self.entries@.len()
            && self.entries@[i]@ == k)
    }
}

impl Tags {
    /// The empty tag set.
    pub fn new() -> (r: Tags)
        ensures
            r@ == Set::<Seq<char>>::empty(),
    {
        let r = Tags { entries: Vec::new() };
        proof {
            assert(r@ =~= Set::<Seq<char>>::empty());
        }
        r
    }

    /// Whether the label is attached.
    pub fn contains(&self, t: &str) -> (r: bool)
        ensures
            r == self@.contains(t@),
    {
        let key: String = t.to_owned();
        let n = self.entries.len();
        let mut i: usize = 0;
        while i < n
            invariant
                n == self.entries@.len(),
                i <= n,
                forall|j: int| 0 <= j < i ==> self.entries@[j]@ != t@,
                key@ == t@,
            decreases n - i,
        {
            if self.entries[i] == key {
                return true;
            }
            i += 1;
        }
        false
    }

    /// Attach a flat label. Tags only accumulate: the new set is the old set
    /// plus the label.
    pub fn insert(&mut self, t: String)
        ensures
            final(self)@ == old(self)@.insert(t@),
    {
        if !self.contains(t.as_str()) {
            self.entries.push(t);
            proof {
                assert(forall|j: int|
                    0 <= j < old(self).entries@.len() ==> self.entries@[j] == old(
                        self,
                    ).entries@[j]);
                assert(self.entries@[self.entries@.len() - 1]@ == t@);
                assert(self@ =~= old(self)@.insert(t@));
            }
        } else {
            proof {
                assert(self@ =~= old(self)@.insert(t@));
            }
        }
    }

    /// Attach a qualified `family:value` label.
    pub fn insert_qualified(&mut self, family: &str, value: &str)
        ensures
            final(self)@ == old(self)@.insert(family@ + ":"@ + value@),
    {
        let t = family.to_owned().concat(":").concat(value);
        self.insert(t);
    }

    /// The entries of `list` attached to this tag set, in list order; empty
    /// exactly when none is attached.
    pub fn matching(&self, list: &Vec<String>) -> (r: Vec<String>)
        ensures
            r@.map_values(|s: String| s@) == spec_matching(self@, list@),
            (r@.len() > 0) == has_match(self@, list@),
    {
        let n = list.len();
        let mut out: Vec<String> = Vec::new();
        let mut i: usize = 0;
        while i < n
            invariant
                n == list@.len(),
                i <= n,
                out@.map_values(|s: String| s@) == spec_matching(
                    self@,
                    list@.subrange(0, i as int),
                ),
            decreases n - i,
        {
            let ghost pre = list@.subrange(0, i as int);
            proof {
                assert(list@.subrange(0, i as int + 1).drop_last() =~= pre);
                assert(list@.subrange(0, i as int + 1).last() == list@[i as int]);
            }
            if self.contains(list[i].as_str()) {
                out.push(list[i].clone());
                proof {
                    assert(out@.map_values(|s: String| s@) =~= spec_matching(
                        self@,
                        list@.subrange(0, i as int + 1),
                    ));
                }
            } else {
                proof {
                    assert(out@.map_values(|s: String| s@) =~= spec_matching(
                        self@,
                        list@.subrange(0, i as int + 1),
                    ));
                }
            }
            i += 1;
        }
        proof {
            assert(list@.subrange(0, n as int) =~= list@);
            lemma_matching_nonempty(self@, list@);
        }
        out
    }

    /// Whether some entry of `list` is attached.
    pub fn has_any(&self, list: &Vec<String>) -> (r: bool)
        ensures
            r == has_match(self@, list@),
    {
        let n = list.len();
        let mut i: usize = 0;
        while i < n
            invariant
                n == list@.len(),
                i <= n,
                forall|j: int| 0 <= j < i ==> !self@.contains(#[trigger] list@[j]@),
            decreases n - i,
        {
            if self.contains(list[i].as_str()) {
                return true;
            }
            i += 1;
        }
        false
    }

    /// Whether every entry of `list` is attached.
    pub fn has_all(&self, list: &Vec<String>) -> (r: bool)
        ensures
            r == (forall|i: int| 0 <= i < list@.len() ==> self@.contains(
                #[trigger] list@[i]@,
            )),
    {
        let n = list.len();
        let mut i: usize = 0;
        while i < n
            invariant
                n == list@.len(),
                i <= n,
                forall|j: int| 0 <= j < i ==> self@.contains(#[trigger] list@[j]@),
            decreases n - i,
        {
            if !self.contains(list[i].as_str()) {
                return false;
            }
            i += 1;
        }
        true
    }

    /// The attached labels, one entry per label.
    pub fn as_vec(&self) -> (r: &Vec<String>)
        ensures
            forall|i: int| 0 <= i < r@.len() ==> self@.contains(#[trigger] r@[i]@),
            forall|k: Seq<char>| self@.contains(k) ==> exists|i: int|
                0 <= i < r@.len() && r@[i]@ == k,
    {
        &self.entries
    }
}

} // verus!
