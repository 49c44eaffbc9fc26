//! The tagger: attaches the global labels every request carries. Category
//! labels drawn from external IP/ASN/geo databases are the embedding's
//! concern; the core attaches the universal label and the client-IP label,
//! and the pipeline adds the five qualified labels of the matched URL-map.

use vstd::prelude::*;
use crate::tags::Tags;
use crate::utils::RequestInfo;

verus! {

/// The tag set every request starts from: the universal `all` label and the
/// qualified `ip:<client-ip>` label.
pub open spec fn spec_base_tags(req: RequestInfo) -> Set<Seq<char>> {
    Set::<Seq<char>>::empty().insert("all"@).insert("ip"@ + ":"@ + req.ip@)
}

/// Attach the global labels to a fresh tag set.
pub fn tag_request(req: &RequestInfo) -> (t: Tags)
    ensures
        t@ == spec_base_tags(*req),
{
    let mut t = Tags::new();
    t.insert("all".to_owned());
    t.insert_qualified("ip", req.ip.as_str());
    t
}

} // verus!
