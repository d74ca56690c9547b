//! Variables of the `.env` file.
use vstd::prelude::*;

use crate::library::utils::str_map::EnvVarsMap;

use super::secret_sources::{from_pairs, tagged_map};

verus! {

/// The variables read from the `.env` file, each tagged with the source
/// `.env`; for a name that occurs twice the later value is kept.
pub fn get_env_variables(env_file_pairs: &Vec<(String, String)>) -> (r: EnvVarsMap)
    ensures
        r@ == tagged_map(env_file_pairs@.map_values(|p: (String, String)| p@), ".env"@),
{
    from_pairs(env_file_pairs, ".env")
}

} // verus!
