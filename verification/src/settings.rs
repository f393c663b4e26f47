//! Deployment-level settings, handed in as plain values.
//!
//! Loading them — files, environment — is the configuration collaborator's
//! business; the library only holds the result.

use vstd::prelude::*;

verus! {

#[derive(Debug)]
pub struct DatabaseSettings {
    pub url: Option<String>,
}

#[derive(Debug)]
pub struct Settings {
    pub debug: Option<bool>,
    pub database: Option<DatabaseSettings>,
    pub log_level: Option<String>,
}

} // verus!
