//! Commands of the build tool's client that this library describes.

use vstd::prelude::*;

verus! {

/// The command that stops the build daemon. It takes no options.
pub struct KillCommand {}

} // verus!
