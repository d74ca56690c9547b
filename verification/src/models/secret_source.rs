use vstd::prelude::*;

use crate::library::utils::str_map::Duplicate;

verus! {

/// Credentials of a Bitwarden Secrets Manager source: the name of the
/// variable that holds the access token.
#[derive(Debug, Clone)]
pub struct BitwardenCredentials {
    pub access_token_name: String,
}

/// A source of secrets.
#[derive(Debug, Clone)]
pub enum SecretsSource {
    Bitwarden(BitwardenCredentials),
}

/// What a secrets source is, as values.
pub enum SecretsSourceView {
    Bitwarden(Seq<char>),
}

impl View for SecretsSource {
    type V = SecretsSourceView;

    open spec fn view(&self) -> SecretsSourceView {
        match self {
            SecretsSource::Bitwarden(c) => SecretsSourceView::Bitwarden(c.access_token_name@),
        }
    }
}

impl PartialEq for SecretsSource {
    fn eq(&self, other: &Self) -> (r: bool) {
        match (self, other) {
            (SecretsSource::Bitwarden(a), SecretsSource::Bitwarden(b)) => a.access_token_name
                == b.access_token_name,
        }
    }
}

impl vstd::std_specs::cmp::PartialEqSpecImpl for SecretsSource {
    open spec fn obeys_eq_spec() -> bool {
        true
    }

    open spec fn eq_spec(&self, other: &Self) -> bool {
        self@ == other@
    }
}

impl Duplicate for SecretsSource {
    fn duplicate(&self) -> (r: SecretsSource) {
        match self {
            SecretsSource::Bitwarden(c) => SecretsSource::Bitwarden(
                BitwardenCredentials { access_token_name: c.access_token_name.clone() },
            ),
        }
    }
}

} // verus!
