use vstd::prelude::*;

verus! {

/// Why the command-line values do not make a configuration.
#[derive(Debug, Clone, Copy, PartialEq, Eq, Structural)]
pub enum ConfigError {
    /// No vault URL was given.
    MissingKeyvaultUrl,
    /// No list of secret names was given.
    MissingSecretsFilter,
}

/// What a run is asked to do.
#[derive(Debug)]
pub struct Config {
    /// The subscription identifier; carried along, not used.
    pub subscription: String,
    /// The base address of the vault.
    pub keyvault_url: String,
    /// The names of the secrets to fetch, in order.
    pub secrets_filter: Vec<String>,
    /// Print bare values rather than a JSON object.
    pub only_value: bool,
}

impl Config {
    /// Builds the configuration from the parsed option values. The vault URL
    /// and the name list are required; an absent subscription is empty. An
    /// empty name list, where the parser lets one through, is kept: such a
    /// run fetches nothing and prints nothing.
    pub fn from_options(
        keyvault_url: Option<String>,
        secrets_filter: Option<Vec<String>>,
        subscription: Option<String>,
        only_value: bool,
    ) -> (r: Result<Config, ConfigError>)
        ensures
            keyvault_url is None <==> r == Err::<Config, ConfigError>(
                ConfigError::MissingKeyvaultUrl,
            ),
            (keyvault_url is Some && secrets_filter is None) <==> r == Err::<Config, ConfigError>(
                ConfigError::MissingSecretsFilter,
            ),
            (keyvault_url is Some && secrets_filter is Some) ==> r is Ok,
            r matches Ok(c) ==> {
                &&& keyvault_url == Some(c.keyvault_url)
                &&& secrets_filter == Some(c.secrets_filter)
                &&& c.only_value == only_value
                &&& match subscription {
                    Some(s) => c.subscription == s,
                    None => c.subscription@ == Seq::<char>::empty(),
                }
            },
    {
        let keyvault_url = match keyvault_url {
            Some(u) => u,
            None => return Err(ConfigError::MissingKeyvaultUrl),
        };
        let secrets_filter = match secrets_filter {
            Some(f) => f,
            None => return Err(ConfigError::MissingSecretsFilter),
        };
        let subscription = match subscription {
            Some(s) => s,
            None => String::new(),
        };
        Ok(Config { subscription, keyvault_url, secrets_filter, only_value })
    }
}

} // verus!
