use vstd::prelude::*;

use crate::library::utils::str_map::StringMap;
use crate::models::secret_source::SecretsSource;

verus! {

/// The configuration of a project (`secrets_machine.toml`).
#[derive(Debug)]
pub struct ProjectConfig {
    pub commands: StringMap,
    pub pre_commands: StringMap,
    pub aliases: StringMap,
    pub secrets_sources: Vec<SecretsSource>,
}

/// No commands.
pub fn default_commands() -> (r: StringMap)
    ensures
        r@ == Map::<Seq<char>, Seq<char>>::empty(),
{
    StringMap::new()
}

/// No pre-commands.
pub fn default_pre_commands() -> (r: StringMap)
    ensures
        r@ == Map::<Seq<char>, Seq<char>>::empty(),
{
    StringMap::new()
}

/// No aliases.
pub fn default_aliases() -> (r: StringMap)
    ensures
        r@ == Map::<Seq<char>, Seq<char>>::empty(),
{
    StringMap::new()
}

/// No secrets sources.
pub fn default_secrets_sources() -> (r: Vec<SecretsSource>)
    ensures
        r@.len() == 0,
{
    Vec::new()
}

} // verus!
