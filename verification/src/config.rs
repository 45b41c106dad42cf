//! Build-time application settings: network credentials and the transit
//! API key the surrounding application fills in.

use vstd::prelude::*;

verus! {

/// The settings the application is built with.
pub struct Config {
    /// WiFi network name.
    pub wifi_ssid: &'static str,
    /// WiFi passphrase; empty selects an open network.
    pub wifi_psk: &'static str,
    /// Subscription key for the transit departures service.
    pub api_tfi: &'static str,
}

impl Default for Config {
    /// The defaults the application falls back to when no settings file
    /// overrides them.
    fn default() -> (r: Config)
        ensures
            r.wifi_ssid@ == "Wokwi-GUEST"@,
            r.wifi_psk@ == ""@,
            r.api_tfi@ == ""@,
    {
        Config { wifi_ssid: "Wokwi-GUEST", wifi_psk: "", api_tfi: "" }
    }
}

} // verus!
