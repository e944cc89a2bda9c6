//! Settings of the client, as the configuration file holds them.

use vstd::prelude::*;

verus! {

/// The account credential and the default domain.
#[derive(Debug, Clone)]
pub struct CDNConfig {
    pub access_key: String,
    pub secret_key: String,
    pub domain: String,
}

/// Where notifications go.
#[derive(Debug, Clone)]
pub struct Monitor {
    pub qy_robot: Option<String>,
}

/// The IP diagnosis policy, and whether applying it overwrites the blacklist.
#[derive(Debug, Clone)]
pub struct BlackIP {
    pub policy: Option<String>,
    pub rewrite: Option<bool>,
}

/// All settings.
#[derive(Debug, Clone)]
pub struct Config {
    pub debug: Option<bool>,
    pub download_log_domain_dir: Option<bool>,
    pub cdn: CDNConfig,
    pub monitor: Monitor,
    pub blackip: BlackIP,
    pub five_minute_traffic: Option<i64>,
    pub five_minute_count: Option<i64>,
}

} // verus!
