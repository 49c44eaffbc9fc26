//! URL-map selection: scan host-maps in declaration order for the first
//! whose authority pattern matches, then its URL-maps in declaration order
//! for the first whose path pattern matches. Strictly first-match; no
//! longest-prefix ranking.

use vstd::prelude::*;
use crate::config::{pattern_matches, Config, HostMap, UrlMap};

verus! {

/// The index of the first URL-map whose path pattern matches, if any.
pub open spec fn first_path_match(ums: Seq<UrlMap>, path: Seq<char>) -> Option<int>
    decreases ums.len(),
{
    if ums.len() == 0 {
        None
    } else if pattern_matches(ums[0].path_pattern, path) {
        Some(0int)
    } else {
        match first_path_match(ums.drop_first(), path) {
            Some(k) => Some(k + 1),
            None => None,
        }
    }
}

/// The index of the first host-map whose authority pattern matches, if any.
pub open spec fn first_authority_match(hms: Seq<HostMap>, auth: Seq<char>) -> Option<int>
    decreases hms.len(),
{
    if hms.len() == 0 {
        None
    } else if pattern_matches(hms[0].authority_pattern, auth) {
        Some(0int)
    } else {
        match first_authority_match(hms.drop_first(), auth) {
            Some(k) => Some(k + 1),
            None => None,
        }
    }
}

/// The selected `(host-map, URL-map)` index pair: commit to the first
/// host-map whose authority pattern matches, then take its first URL-map
/// whose path pattern matches.
pub open spec fn spec_match_urlmap(cfg: Config, auth: Seq<char>, path: Seq<char>) -> Option<
    (int, int),
> {
    match first_authority_match(cfg.hostmaps@, auth) {
        None => None,
        Some(i) => match first_path_match(cfg.hostmaps@[i].urlmaps@, path) {
            None => None,
            Some(j) => Some((i, j)),
        },
    }
}

proof fn lemma_first_path_found(ums: Seq<UrlMap>, path: Seq<char>, i: int)
    requires
        0 <= i < ums.len(),
        pattern_matches(ums[i].path_pattern, path),
        forall|j: int| 0 <= j < i ==> !pattern_matches(#[trigger] ums[j].path_pattern, path),
    ensures
        first_path_match(ums, path) == Some(i),
    decreases i,
{
    if i > 0 {
        let rest = ums.drop_first();
        assert(rest[i - 1] == ums[i]);
        assert forall|j: int| 0 <= j < i - 1 implies !pattern_matches(
            #[trigger] rest[j].path_pattern,
            path,
        ) by {
            assert(rest[j] == ums[j + 1]);
        }
        lemma_first_path_found(rest, path, i - 1);
    }
}

proof fn lemma_first_path_none(ums: Seq<UrlMap>, path: Seq<char>)
    requires
        forall|j: int| 0 <= j < ums.len() ==> !pattern_matches(
            #[trigger] ums[j].path_pattern,
            path,
        ),
    ensures
        first_path_match(ums, path) is None,
    decreases ums.len(),
{
    if ums.len() > 0 {
        let rest = ums.drop_first();
        assert forall|j: int| 0 <= j < rest.len() implies !pattern_matches(
            #[trigger] rest[j].path_pattern,
            path,
        ) by {
            assert(rest[j] == ums[j + 1]);
        }
        lemma_first_path_none(rest, path);
    }
}

proof fn lemma_first_path_inv(ums: Seq<UrlMap>, path: Seq<char>)
    ensures
        match first_path_match(ums, path) {
            Some(i) => 0 <= i < ums.len() && pattern_matches(ums[i].path_pattern, path)
                && forall|j: int|
                    0 <= j < i ==> !pattern_matches(#[trigger] ums[j].path_pattern, path),
            None => forall|j: int|
                0 <= j < ums.len() ==> !pattern_matches(#[trigger] ums[j].path_pattern, path),
        },
    decreases ums.len(),
{
    if ums.len() > 0 {
        let rest = ums.drop_first();
        lemma_first_path_inv(rest, path);
        if !pattern_matches(ums[0].path_pattern, path) {
            match first_path_match(rest, path) {
                Some(k) => {
                    assert(rest[k] == ums[k + 1]);
                    assert forall|j: int| 0 <= j < k + 1 implies !pattern_matches(
                        #[trigger] ums[j].path_pattern,
                        path,
                    ) by {
                        if j > 0 {
                            assert(rest[j - 1] == ums[j]);
                        }
                    }
                },
                None => {
                    assert forall|j: int| 0 <= j < ums.len() implies !pattern_matches(
                        #[trigger] ums[j].path_pattern,
                        path,
                    ) by {
                        if j > 0 {
                            assert(rest[j - 1] == ums[j]);
                        }
                    }
                },
            }
        }
    }
}

proof fn lemma_first_auth_found(hms: Seq<HostMap>, auth: Seq<char>, i: int)
    requires
        0 <= i < hms.len(),
        pattern_matches(hms[i].authority_pattern, auth),
        forall|j: int| 0 <= j < i ==> !pattern_matches(
            #[trigger] hms[j].authority_pattern,
            auth,
        ),
    ensures
        first_authority_match(hms, auth) == Some(i),
    decreases i,
{
    if i > 0 {
        let rest = hms.drop_first();
        assert(rest[i - 1] == hms[i]);
        assert forall|j: int| 0 <= j < i - 1 implies !pattern_matches(
            #[trigger] rest[j].authority_pattern,
            auth,
        ) by {
            assert(rest[j] == hms[j + 1]);
        }
        lemma_first_auth_found(rest, auth, i - 1);
    }
}

proof fn lemma_first_auth_none(hms: Seq<HostMap>, auth: Seq<char>)
    requires
        forall|j: int| 0 <= j < hms.len() ==> !pattern_matches(
            #[trigger] hms[j].authority_pattern,
            auth,
        ),
    ensures
        first_authority_match(hms, auth) is None,
    decreases hms.len(),
{
    if hms.len() > 0 {
        let rest = hms.drop_first();
        assert forall|j: int| 0 <= j < rest.len() implies !pattern_matches(
            #[trigger] rest[j].authority_pattern,
            auth,
        ) by {
            assert(rest[j] == hms[j + 1]);
        }
        lemma_first_auth_none(rest, auth);
    }
}

/// Select the policy for `(authority, path)`: the first-match pair of
/// host-map name and URL-map, or `None` (and then the pipeline passes).
pub fn match_urlmap<'a>(cfg: &'a Config, authority: &str, path: &str) -> (r: Option<
    (&'a String, &'a UrlMap)>)
    ensures
        match spec_match_urlmap(*cfg, authority@, path@) {
            Some(ij) => r matches Some(p) && p.0@ == cfg.hostmaps@[ij.0].name@ && *p.1
                == cfg.hostmaps@[ij.0].urlmaps@[ij.1],
            None => r is None,
        },
{
    let nh = cfg.hostmaps.len();
    let mut i: usize = 0;
    while i < nh
        invariant
            nh == cfg.hostmaps@.len(),
            i <= nh,
            forall|j: int| 0 <= j < i ==> !pattern_matches(
                #[trigger] cfg.hostmaps@[j].authority_pattern,
                authority@,
            ),
        decreases nh - i,
    {
        let hm = &cfg.hostmaps[i];
        if hm.authority_pattern.matches(authority) {
            proof {
                lemma_first_auth_found(cfg.hostmaps@, authority@, i as int);
            }
            let nu = hm.urlmaps.len();
            let mut j: usize = 0;
            while j < nu
                invariant
                    nu == hm.urlmaps@.len(),
                    j <= nu,
                    0 <= i < cfg.hostmaps@.len(),
                    *hm == cfg.hostmaps@[i as int],
                    first_authority_match(cfg.hostmaps@, authority@) == Some(i as int),
                    forall|k: int| 0 <= k < j ==> !pattern_matches(
                        #[trigger] hm.urlmaps@[k].path_pattern,
                        path@,
                    ),
                decreases nu - j,
            {
                let um = &hm.urlmaps[j];
                if um.path_pattern.matches(path) {
                    proof {
                        lemma_first_path_found(hm.urlmaps@, path@, j as int);
                    }
                    return Some((&hm.name, um));
                }
                j += 1;
            }
            proof {
                lemma_first_path_none(hm.urlmaps@, path@);
            }
            return None;
        }
        i += 1;
    }
    proof {
        lemma_first_auth_none(cfg.hostmaps@, authority@);
    }
    None
}

/// First-match stability under extension of a host-map's URL-map list: when
/// a request already selects a pair, a configuration that appends URL-maps
/// after the existing entries of any host-map — leaving every host-map's
/// authority pattern and existing URL-maps as they were — selects the same
/// pair. A later rule never steals a request from an earlier match.
pub proof fn lemma_urlmap_first_match_stable(
    cfg: Config,
    cfg2: Config,
    auth: Seq<char>,
    path: Seq<char>,
)
    requires
        spec_match_urlmap(cfg, auth, path) is Some,
        cfg2.hostmaps@.len() == cfg.hostmaps@.len(),
        forall|h: int| 0 <= h < cfg.hostmaps@.len() ==> (#[trigger] cfg2.hostmaps@[h]).name
            == cfg.hostmaps@[h].name,
        forall|h: int| 0 <= h < cfg.hostmaps@.len() ==> (#[trigger] cfg2.hostmaps@[h]).authority_pattern
            == cfg.hostmaps@[h].authority_pattern,
        forall|h: int| 0 <= h < cfg.hostmaps@.len() ==> (#[trigger] cfg2.hostmaps@[h]).urlmaps@.len()
            >= cfg.hostmaps@[h].urlmaps@.len(),
        forall|h: int, k: int|
            0 <= h < cfg.hostmaps@.len() && 0 <= k < cfg.hostmaps@[h].urlmaps@.len()
                ==> (#[trigger] cfg2.hostmaps@[h].urlmaps@[k]) == cfg.hostmaps@[h].urlmaps@[k],
    ensures
        spec_match_urlmap(cfg2, auth, path) == spec_match_urlmap(cfg, auth, path),
{
    let i = spec_match_urlmap(cfg, auth, path)->Some_0.0;
    let j = spec_match_urlmap(cfg, auth, path)->Some_0.1;
    lemma_first_auth_inv(cfg.hostmaps@, auth);
    lemma_first_auth_found(cfg2.hostmaps@, auth, i);
    lemma_first_path_inv(cfg.hostmaps@[i].urlmaps@, path);
    lemma_first_path_found(cfg2.hostmaps@[i].urlmaps@, path, j);
}

proof fn lemma_first_auth_inv(hms: Seq<HostMap>, auth: Seq<char>)
    ensures
        match first_authority_match(hms, auth) {
            Some(i) => 0 <= i < hms.len() && pattern_matches(hms[i].authority_pattern, auth)
                && forall|j: int|
                    0 <= j < i ==> !pattern_matches(#[trigger] hms[j].authority_pattern, auth),
            None => forall|j: int|
                0 <= j < hms.len() ==> !pattern_matches(
                    #[trigger] hms[j].authority_pattern,
                    auth,
                ),
        },
    decreases hms.len(),
{
    if hms.len() > 0 {
        let rest = hms.drop_first();
        lemma_first_auth_inv(rest, auth);
        if !pattern_matches(hms[0].authority_pattern, auth) {
            match first_authority_match(rest, auth) {
                Some(k) => {
                    assert(rest[k] == hms[k + 1]);
                    assert forall|j: int| 0 <= j < k + 1 implies !pattern_matches(
                        #[trigger] hms[j].authority_pattern,
                        auth,
                    ) by {
                        if j > 0 {
                            assert(rest[j - 1] == hms[j]);
                        }
                    }
                },
                None => {
                    assert forall|j: int| 0 <= j < hms.len() implies !pattern_matches(
                        #[trigger] hms[j].authority_pattern,
                        auth,
                    ) by {
                        if j > 0 {
                            assert(rest[j - 1] == hms[j]);
                        }
                    }
                },
            }
        }
    }
}

/// First-match stability under appending host-maps: when a request already
/// selects a pair, a configuration that keeps the existing host-maps and adds
/// further ones after them selects the same pair.
pub proof fn lemma_hostmap_first_match_stable(
    cfg: Config,
    cfg2: Config,
    auth: Seq<char>,
    path: Seq<char>,
)
    requires
        spec_match_urlmap(cfg, auth, path) is Some,
        cfg2.hostmaps@.len() >= cfg.hostmaps@.len(),
        forall|h: int| 0 <= h < cfg.hostmaps@.len() ==> (#[trigger] cfg2.hostmaps@[h])
            == cfg.hostmaps@[h],
    ensures
        spec_match_urlmap(cfg2, auth, path) == spec_match_urlmap(cfg, auth, path),
{
    let i = spec_match_urlmap(cfg, auth, path)->Some_0.0;
    let j = spec_match_urlmap(cfg, auth, path)->Some_0.1;
    lemma_first_auth_inv(cfg.hostmaps@, auth);
    lemma_first_auth_found(cfg2.hostmaps@, auth, i);
    lemma_first_path_inv(cfg.hostmaps@[i].urlmaps@, path);
    lemma_first_path_found(cfg2.hostmaps@[i].urlmaps@, path, j);
}

} // verus!
