use vstd::prelude::*;

use crate::library::utils::str_map::StringMap;

verus! {

/// Commands and pre-commands by name.
#[derive(Debug)]
pub struct CommandsConfig {
    pub commands: StringMap,
    pub pre_commands: StringMap,
}

/// No commands.
pub fn default_commands() -> (r: StringMap)
    ensures
        r@ == Map::<Seq<char>, Seq<char>>::empty(),
{
    StringMap::new()
}

/// No pre-commands.
pub fn default_pre_commands() -> (r: StringMap)
    ensures
        r@ == Map::<Seq<char>, Seq<char>>::empty(),
{
    StringMap::new()
}

} // verus!
