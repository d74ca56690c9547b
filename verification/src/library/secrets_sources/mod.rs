pub mod aliases;
pub mod bitwarden;
pub mod keyring;
pub mod local;
pub mod process;
mod secret_sources;

pub use secret_sources::{
    check, get_clean_process_env_vars, merge_sources, sources_merged, lemma_produced_agrees_with_lookup, produce_env_vars_map,
    produced, clean_process, sync, tagged_map, from_pairs,
};
