//! Checks on the commands of the configuration.
use vstd::prelude::*;

use crate::models::full_config::FullConfig;

verus! {

/// Whether `command` is defined in the configuration (`sm run` refuses a
/// command that is not).
pub fn check(full_config: &FullConfig, command: &String) -> (r: bool)
    ensures
        r == full_config.commands@.contains_key(command@),
{
    full_config.commands.contains_key(command.as_str())
}

} // verus!
