//! The process-wide configuration: the four required settings, assembled
//! from whatever the configuration source yielded for each key, with the
//! first missing one reported.

use vstd::prelude::*;

verus! {

/// The four required settings, loaded once at startup and shared read-only
/// by every request handler.
pub struct AppConfig {
    /// Base URL of the upstream streaming origin.
    pub ace_base_url: Vec<u8>,
    /// Externally reachable base URL of this proxy.
    pub external_base_url: Vec<u8>,
    /// Identifier of the stream to proxy.
    pub ace_stream_id: Vec<u8>,
    /// The shared secret that gates the stream page and the manifest.
    pub stream_password: Vec<u8>,
}

/// The mathematical view of the configuration.
pub struct AppConfigView {
    pub ace_base_url: Seq<u8>,
    pub external_base_url: Seq<u8>,
    pub ace_stream_id: Seq<u8>,
    pub stream_password: Seq<u8>,
}

impl View for AppConfig {
    type V = AppConfigView;

    open spec fn view(&self) -> AppConfigView {
        AppConfigView {
            ace_base_url: self.ace_base_url@,
            external_base_url: self.external_base_url@,
            ace_stream_id: self.ace_stream_id@,
            stream_password: self.stream_password@,
        }
    }
}

/// The first configuration key whose value was missing.
#[derive(Debug, PartialEq, Eq, Clone, Copy)]
pub enum ConfigError {
    MissingAceBaseUrl,
    MissingExternalBaseUrl,
    MissingAceStreamId,
    MissingStreamPassword,
}

impl AppConfig {
    /// Assembles the configuration from the values the configuration source
    /// yielded for the four keys, read in order; the first absent value is
    /// reported as the error, exactly as the settings are extracted one
    /// after the other at startup.
    pub fn from_figment(
        ace_base_url: Option<Vec<u8>>,
        external_base_url: Option<Vec<u8>>,
        ace_stream_id: Option<Vec<u8>>,
        stream_password: Option<Vec<u8>>,
    ) -> (r: Result<AppConfig, ConfigError>)
        ensures
            ace_base_url.is_none() ==> r == Err::<AppConfig, ConfigError>(
                ConfigError::MissingAceBaseUrl,
            ),
            ace_base_url.is_some() && external_base_url.is_none() ==> r == Err::<
                AppConfig,
                ConfigError,
            >(ConfigError::MissingExternalBaseUrl),
            ace_base_url.is_some() && external_base_url.is_some() && ace_stream_id.is_none()
                ==> r == Err::<AppConfig, ConfigError>(ConfigError::MissingAceStreamId),
            ace_base_url.is_some() && external_base_url.is_some() && ace_stream_id.is_some()
                && stream_password.is_none() ==> r == Err::<AppConfig, ConfigError>(
                ConfigError::MissingStreamPassword,
            ),
            ace_base_url.is_some() && external_base_url.is_some() && ace_stream_id.is_some()
                && stream_password.is_some() ==> (r matches Ok(c) && c.ace_base_url
                == ace_base_url.unwrap() && c.external_base_url == external_base_url.unwrap()
                && c.ace_stream_id == ace_stream_id.unwrap() && c.stream_password
                == stream_password.unwrap()),
    {
        let ace_base_url = match ace_base_url {
            Some(v) => v,
            None => {
                return Err(ConfigError::MissingAceBaseUrl);
            },
        };
        let external_base_url = match external_base_url {
            Some(v) => v,
            None => {
                return Err(ConfigError::MissingExternalBaseUrl);
            },
        };
        let ace_stream_id = match ace_stream_id {
            Some(v) => v,
            None => {
                return Err(ConfigError::MissingAceStreamId);
            },
        };
        let stream_password = match stream_password {
            Some(v) => v,
            None => {
                return Err(ConfigError::MissingStreamPassword);
            },
        };
        Ok(AppConfig { ace_base_url, external_base_url, ace_stream_id, stream_password })
    }
}

} // verus!
