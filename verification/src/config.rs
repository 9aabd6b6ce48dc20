//! The configuration of the service and its defaults.

use vstd::prelude::*;

verus! {

/// Where the API and its static files are reached.
#[derive(Clone, Debug, PartialEq, Eq)]
pub struct APIConfig {
    pub base_url: String,
    pub static_url: String,
}

/// The configuration of the service.
#[derive(Clone, Debug, PartialEq, Eq)]
pub struct Config {
    pub api: APIConfig,
}

/// The configuration that is used, and written out, when none is found.
pub fn get_default_config() -> (r: Config)
    ensures
        r.api.base_url@ == "https://api.besinveri.com"@,
        r.api.static_url@ == "https://besinveri.com/static"@,
{
    Config {
        api: APIConfig {
            base_url: "https://api.besinveri.com".to_owned(),
            static_url: "https://besinveri.com/static".to_owned(),
        },
    }
}

} // verus!
