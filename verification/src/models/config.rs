use vstd::prelude::*;

verus! {

/// Credentials of a Bitwarden source in the global configuration.
#[derive(Debug)]
pub struct BitwardenCredentials {
    pub access_token_name: String,
}

/// A source of secrets in the global configuration.
#[derive(Debug)]
pub enum SecretsSource {
    Bitwarden(BitwardenCredentials),
}

/// Where a `.env` file sets `PYTHONPATH`.
#[derive(Debug)]
pub struct PythonpathFeature {
    pub env_file_path: String,
    pub pythonpath_value: String,
}

/// The global configuration.
#[derive(Debug)]
pub struct Config {
    pub secrets_sources: Vec<SecretsSource>,
}

/// The name of the variable that holds the Bitwarden access token by default.
pub open spec fn default_access_token_name() -> Seq<char> {
    "BWS_ACCESS_TOKEN"@
}

/// One Bitwarden source whose token is in `BWS_ACCESS_TOKEN`.
pub fn default_secrets_sources() -> (r: Vec<SecretsSource>)
    ensures
        r@.len() == 1,
        r@[0] matches SecretsSource::Bitwarden(c) && c.access_token_name@
            == default_access_token_name(),
{
    vec![SecretsSource::Bitwarden(BitwardenCredentials {
        access_token_name: "BWS_ACCESS_TOKEN".to_owned(),
    })]
}

impl Default for Config {
    fn default() -> (r: Config)
        ensures
            r.secrets_sources@.len() == 1,
            r.secrets_sources@[0] matches SecretsSource::Bitwarden(c) && c.access_token_name@
                == default_access_token_name(),
    {
        Config { secrets_sources: default_secrets_sources() }
    }
}

} // verus!
