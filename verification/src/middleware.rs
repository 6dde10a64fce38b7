//! Settings of cookie-based authentication.

use vstd::prelude::*;

verus! {

/// Where the authentication token is found: the name of the cookie that
/// carries it.
pub struct AppAuthConfig {
    cookie_name: String,
}

impl AppAuthConfig {
    /// The configured cookie name, as a sequence of characters.
    pub closed spec fn name(&self) -> Seq<char> {
        self.cookie_name@
    }

    /// Creates the settings from the name of the cookie that holds the token.
    #[must_use]
    pub fn new(cookie_name: &str) -> (config: Self)
        ensures
            config.name() == cookie_name@,
    {
        Self { cookie_name: cookie_name.to_owned() }
    }

    /// The name of the cookie that holds the token.
    pub fn cookie_name(&self) -> (name: &str)
        ensures
            name@ == self.name(),
    {
        self.cookie_name.as_str()
    }
}

} // verus!
