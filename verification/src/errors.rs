use vstd::prelude::*;

verus! {

/// The two ways in which handling the mounts of a session can fail.
#[derive(Clone, Copy, Debug, PartialEq, Eq, Structural)]
pub enum AdsysMountError {
    /// The mounts file could not be read or understood; nothing was mounted.
    ParseError,
    /// At least one location failed to mount for a reason other than being
    /// mounted already.
    MountError,
}

} // verus!
