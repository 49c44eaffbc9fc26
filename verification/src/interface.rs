//! The verdict types handed back to the embedding proxy: pass, or a
//! structured action carrying a machine-readable reason document.

use vstd::prelude::*;

verus! {

/// Whether an action is enforced or merely reported.
#[derive(Clone, Copy, PartialEq, Eq, Structural, Debug)]
pub enum ActionType {
    Block,
    Monitor,
}

/// Which stage produced an action.
#[derive(Clone, Copy, PartialEq, Eq, Structural, Debug)]
pub enum Initiator {
    Acl,
    Limit,
    Waf,
    Phase01,
    Phase02,
}

/// The machine-readable reason document attached to an action. Field names
/// are stable on the wire: `initiator`, `action`, `reason`, `rule`, `sig`.
#[derive(Clone, Debug)]
pub struct Reason {
    /// Which stage decided.
    pub initiator: Initiator,
    /// The access-control action code (`0`, `3` or `5`), when the ACL decided.
    pub action: Option<u32>,
    /// The tags that triggered the decision, when the ACL decided.
    pub reason_tags: Vec<String>,
    /// The rate-limit rule id, when a limit fired.
    pub rule: Option<String>,
    /// The signature id, when the scanner fired on a signature.
    pub sig: Option<String>,
    /// The request section the scanner fired on.
    pub section: Option<String>,
}

/// A terminal response: status, headers, body content, and the reason.
#[derive(Clone, Debug)]
pub struct Action {
    pub atype: ActionType,
    pub ban: bool,
    pub status: u32,
    pub headers: Option<Vec<(String, String)>>,
    pub reason: Reason,
    pub content: String,
    pub extra_tags: Option<Vec<String>>,
}

/// What the pipeline decides: let the request through, or respond with an
/// action.
#[derive(Clone, Debug)]
pub enum Decision {
    Pass,
    Action(Action),
}

/// The action taken when the ACL resolver denies a request: a 403 with the
/// code (`0`, `3` or `5`) and the matching tags in the reason document;
/// blocking or monitoring per the URL-map's flag.
pub fn acl_block(blocking: bool, code: u32, tags: Vec<String>) -> (r: Decision)
    ensures
        r matches Decision::Action(a) && a.atype == (if blocking {
            ActionType::Block
        } else {
            ActionType::Monitor
        }) && a.ban == false && a.status == 403 && a.headers is None && a.reason.initiator
            == Initiator::Acl && a.reason.action == Some(code) && a.reason.reason_tags@ == tags@
            && a.reason.rule is None && a.reason.sig is None && a.reason.section is None
            && a.content@ == "access denied"@ && a.extra_tags is None,
{
    Decision::Action(
        Action {
            atype: if blocking {
                ActionType::Block
            } else {
                ActionType::Monitor
            },
            ban: false,
            status: 403,
            headers: None,
            reason: Reason {
                initiator: Initiator::Acl,
                action: Some(code),
                reason_tags: tags,
                rule: None,
                sig: None,
                section: None,
            },
            content: "access denied".to_owned(),
            extra_tags: None,
        },
    )
}

} // verus!
