use vstd::prelude::*;

verus! {

/// The group of domains that one run optimizes.
#[derive(Debug, Clone, Copy, PartialEq, Eq, Structural)]
pub enum OptimizationTarget {
    GitHub,
    Cloudflare,
    NexusMods,
}

/// The name under which a target is shown to users.
pub open spec fn target_name(t: OptimizationTarget) -> Seq<char> {
    match t {
        OptimizationTarget::GitHub => "GitHub"@,
        OptimizationTarget::Cloudflare => "Cloudflare"@,
        OptimizationTarget::NexusMods => "NexusMods"@,
    }
}

impl OptimizationTarget {
    /// The display name of the target.
    pub fn fmt(&self) -> (r: &'static str)
        ensures
            r@ == target_name(*self),
    {
        match self {
            OptimizationTarget::GitHub => "GitHub",
            OptimizationTarget::Cloudflare => "Cloudflare",
            OptimizationTarget::NexusMods => "NexusMods",
        }
    }
}

} // verus!
