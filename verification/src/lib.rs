//! Inline request-inspection core of a web application firewall: a decision
//! pipeline that turns a request descriptor and a policy snapshot into a
//! verdict (pass, challenge, or block with a structured reason).

pub mod acl;
pub mod challenge;
pub mod config;
pub mod interface;
pub mod limit;
pub mod pipeline;
pub mod requestfields;
pub mod tagging;
pub mod tags;
pub mod urlmap;
pub mod waf;
pub mod utils;
