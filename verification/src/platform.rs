use vstd::prelude::*;

verus! {

/// The platform used where no specific one is available: it knows of no GPU
/// and no per-process GPU use.
pub struct FallbackPlatform;

} // verus!
