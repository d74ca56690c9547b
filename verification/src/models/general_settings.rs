use vstd::prelude::*;

verus! {

/// General settings of the user configuration.
#[derive(Clone, Copy, Debug, PartialEq, Eq, Structural)]
pub struct General {
    pub print_secrets_table: bool,
}

} // verus!
