use vstd::prelude::*;

verus! {

/// Settings of the program: the token that authenticates against the GitHub API.
pub struct Config {
    pub github_token: String,
}

impl Config {
    /// The value of the `Authorization` header that the GitHub API is sent:
    /// the token as a bearer token.
    pub fn authorization_value(&self) -> (r: String)
        ensures
            r@ == "Bearer "@ + self.github_token@,
    {
        let mut value = "Bearer ".to_owned();
        value.append(self.github_token.as_str());
        value
    }
}

} // verus!
