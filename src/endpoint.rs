//! What every endpoint role has in common.

use vstd::prelude::*;

verus! {

/// An endpoint role built from its configuration.
pub trait Endpoint: Sized {
    type Config;

    /// The endpoint for `config`, or `None` when the configuration is unusable.
    fn init(config: Self::Config) -> Option<Self>;
}

} // verus!
