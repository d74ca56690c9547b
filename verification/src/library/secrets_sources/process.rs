//! Variables of the process environment.
use vstd::prelude::*;

use crate::library::utils::str_map::EnvVarsMap;

use super::secret_sources::{from_pairs, tagged_map};

verus! {

/// The variables of the process environment, each tagged with the source
/// `process`; for a name that occurs twice the later value is kept.
pub fn get_env_variables(process_pairs: &Vec<(String, String)>) -> (r: EnvVarsMap)
    ensures
        r@ == tagged_map(process_pairs@.map_values(|p: (String, String)| p@), "process"@),
{
    from_pairs(process_pairs, "process")
}

} // verus!
