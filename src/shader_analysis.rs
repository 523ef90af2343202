//! Shader complexity levels.

use vstd::prelude::*;

verus! {

/// How costly a shader is estimated to be.
#[derive(Debug, Clone, Copy, PartialEq, Eq, Structural)]
pub enum Complexity {
    Low,
    Medium,
    High,
}

impl Complexity {
    /// The name of the level, for display.
    pub fn as_str(&self) -> (r: &'static str)
        ensures
            *self == Complexity::Low ==> r@ == "Low"@,
            *self == Complexity::Medium ==> r@ == "Medium"@,
            *self == Complexity::High ==> r@ == "High"@,
    {
        match self {
            Complexity::Low => "Low",
            Complexity::Medium => "Medium",
            Complexity::High => "High",
        }
    }
}

} // verus!
