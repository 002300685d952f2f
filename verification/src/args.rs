//! The runtime configuration the catalog runs with: the root directory it
//! serves, and where uploads are pushed.

use vstd::prelude::*;

verus! {

/// Command-line configuration.
#[derive(Clone, Debug)]
pub struct Args {
    /// Root directory of the served catalog.
    pub path: String,
    /// Where uploads are pushed.
    pub upload_url: String,
    /// Authorization token for uploads.
    pub upload_token: String,
}

} // verus!
