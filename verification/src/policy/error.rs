//! What can be wrong with policy.
use vstd::prelude::*;
use vstd::string::*;

use crate::text::{decimal_of, owned};

verus! {

/// What can be wrong with policy.
#[derive(Debug)]
pub enum PolicyError {
    Io { path: String, reason: String },
    Parse { path: String, reason: String },
    MatcherTooDeep { depth: usize, max: usize },
    InvalidCidr { cidr: String, reason: String },
    UnknownAction(String),
    UnknownDriver(String),
    Validation { field: String, reason: String },
}

/// An error in words.
pub open spec fn policy_error_text(e: PolicyError) -> Seq<char> {
    match e {
        PolicyError::Io { path, reason } => "failed to read policy file "@ + path@ + ": "@ + reason@,
        PolicyError::Parse { path, reason } => "failed to parse policy file "@ + path@ + ": "@ + reason@,
        PolicyError::MatcherTooDeep { depth, max } => "matcher recursion depth "@ + crate::text::decimal(depth as nat)
            + " exceeds maximum "@ + crate::text::decimal(max as nat),
        PolicyError::InvalidCidr { cidr, reason } => "invalid CIDR `"@ + cidr@ + "`: "@ + reason@,
        PolicyError::UnknownAction(a) => "unknown action `"@ + a@ + "` in policy rule"@,
        PolicyError::UnknownDriver(d) => "unknown driver `"@ + d@ + "` in policy rule"@,
        PolicyError::Validation { field, reason } => "policy validation failed for "@ + field@ + ": "@ + reason@,
    }
}

fn four_parts(a: &str, b: &str, c: &str, d: &str) -> (r: String)
    ensures
        r@ == a@ + b@ + c@ + d@,
{
    let mut s = owned(a);
    s.append(b);
    s.append(c);
    s.append(d);
    s
}

impl PolicyError {
    /// The error in words.
    pub fn message(&self) -> (r: String)
        ensures
            r@ == policy_error_text(*self),
    {
        match self {
            PolicyError::Io { path, reason } => four_parts(
                "failed to read policy file ",
                path.as_str(),
                ": ",
                reason.as_str(),
            ),
            PolicyError::Parse { path, reason } => four_parts(
                "failed to parse policy file ",
                path.as_str(),
                ": ",
                reason.as_str(),
            ),
            PolicyError::MatcherTooDeep { depth, max } => four_parts(
                "matcher recursion depth ",
                decimal_of(*depth as u64).as_str(),
                " exceeds maximum ",
                decimal_of(*max as u64).as_str(),
            ),
            PolicyError::InvalidCidr { cidr, reason } => four_parts(
                "invalid CIDR `",
                cidr.as_str(),
                "`: ",
                reason.as_str(),
            ),
            PolicyError::UnknownAction(a) => {
                let mut s = owned("unknown action `");
                s.append(a.as_str());
                s.append("` in policy rule");
                s
            },
            PolicyError::UnknownDriver(d) => {
                let mut s = owned("unknown driver `");
                s.append(d.as_str());
                s.append("` in policy rule");
                s
            },
            PolicyError::Validation { field, reason } => four_parts(
                "policy validation failed for ",
                field.as_str(),
                ": ",
                reason.as_str(),
            ),
        }
    }
}

} // verus!
