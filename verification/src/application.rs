//! What the embedding application is configured with, as far as the core
//! needs to see it.

use vstd::prelude::*;

verus! {

/// The base URL the application is reachable under, handed through to
/// whatever builds absolute links.
#[derive(Clone, Debug)]
pub struct ApplicationBaseUrl(pub String);

impl ApplicationBaseUrl {
    /// The URL as a borrowed string.
    pub fn as_str(&self) -> (url: &str)
        ensures
            url@ == self.0@,
    {
        self.0.as_str()
    }
}

} // verus!
