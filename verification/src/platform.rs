use vstd::prelude::*;

verus! {

/// The operating systems a platform-specific download may target.
#[derive(Debug, Clone, Copy, PartialEq, Eq, Structural)]
pub enum Platform {
    Windows,
    Mac,
    Linux,
}

} // verus!
