//! Errors of service configuration checks.
use vstd::prelude::*;

verus! {

/// A service configuration that cannot be applied, and why.
#[derive(Debug)]
pub enum ServiceConfigError {
    InvalidConfig { reason: String },
}

impl ServiceConfigError {
    /// The reason's text.
    pub open spec fn reason_text(&self) -> Seq<char> {
        match self {
            ServiceConfigError::InvalidConfig { reason } => reason@,
        }
    }
}

} // verus!
