use vstd::prelude::*;

use crate::library::utils::str_map::StringMap;
use crate::models::general_settings::General;
use crate::models::secret_source::{BitwardenCredentials, SecretsSource};

verus! {

/// The user configuration merged with the project configuration.
#[derive(Debug)]
pub struct FullConfig {
    pub general: General,
    pub secrets_sources: Vec<SecretsSource>,
    pub commands: StringMap,
    pub pre_commands: StringMap,
    pub aliases: StringMap,
}

/// The secrets table is printed.
pub fn default_general() -> (r: General)
    ensures
        r.print_secrets_table,
{
    General { print_secrets_table: true }
}

/// No secrets sources.
pub fn default_secrets_sources() -> (r: Vec<SecretsSource>)
    ensures
        r@.len() == 0,
{
    Vec::new()
}

/// No commands.
pub fn default_commands() -> (r: StringMap)
    ensures
        r@ == Map::<Seq<char>, Seq<char>>::empty(),
{
    StringMap::new()
}

/// No pre-commands.
pub fn default_pre_commands() -> (r: StringMap)
    ensures
        r@ == Map::<Seq<char>, Seq<char>>::empty(),
{
    StringMap::new()
}

/// No aliases.
pub fn default_aliases() -> (r: StringMap)
    ensures
        r@ == Map::<Seq<char>, Seq<char>>::empty(),
{
    StringMap::new()
}

impl Default for FullConfig {
    fn default() -> (r: FullConfig)
        ensures
            r.general.print_secrets_table,
            r.secrets_sources@.len() == 1,
            r.secrets_sources@[0]@ == crate::models::secret_source::SecretsSourceView::Bitwarden(
                "BWS_ACCESS_TOKEN"@,
            ),
            r.commands@ == Map::<Seq<char>, Seq<char>>::empty(),
            r.pre_commands@ == Map::<Seq<char>, Seq<char>>::empty(),
            r.aliases@ == Map::<Seq<char>, Seq<char>>::empty(),
    {
        FullConfig {
            general: default_general(),
            secrets_sources: vec![SecretsSource::Bitwarden(BitwardenCredentials {
                access_token_name: "BWS_ACCESS_TOKEN".to_owned(),
            })],
            commands: StringMap::new(),
            pre_commands: StringMap::new(),
            aliases: StringMap::new(),
        }
    }
}

} // verus!
