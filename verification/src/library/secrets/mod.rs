pub mod keyring;
