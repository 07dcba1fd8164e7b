//! The configuration records the desktop shell reads and writes, and the
//! shapes requests arrive in.

use vstd::prelude::*;

verus! {

/// A viewer profile as configured.
#[derive(Debug, Clone)]
pub struct Profile {
    pub id: String,
    pub name: String,
    pub color: String,
}

/// A media index as configured: a named, typed set of folders.
#[derive(Debug, Clone)]
pub struct MediaIndex {
    pub id: String,
    pub name: String,
    pub media_type: String,
    pub icon: String,
    pub folders: Vec<String>,
}

/// The whole stored configuration.
#[derive(Debug, Clone)]
pub struct Configuration {
    pub id: String,
    pub name: String,
    pub profiles: Vec<Profile>,
    pub password: String,
    pub indexes: Vec<MediaIndex>,
}

/// The configuration as answered to clients: everything but the password.
#[derive(Debug, Clone)]
pub struct ConfigurationResponse {
    pub id: String,
    pub name: String,
    pub profiles: Vec<Profile>,
    pub indexes: Vec<MediaIndex>,
}

impl ConfigurationResponse {
    /// Strip the password off a configuration.
    pub fn from_configuration(config: Configuration) -> (r: ConfigurationResponse)
        ensures
            r.id == config.id,
            r.name == config.name,
            r.profiles == config.profiles,
            r.indexes == config.indexes,
    {
        ConfigurationResponse {
            id: config.id,
            name: config.name,
            profiles: config.profiles,
            indexes: config.indexes,
        }
    }
}

/// An incoming profile: the id is assigned when absent.
#[derive(Debug, Clone)]
pub struct IncomingProfile {
    pub id: Option<String>,
    pub name: String,
    pub color: String,
}

/// An incoming media index, the icon possibly carried as raw data.
#[derive(Debug, Clone)]
pub struct IncomingMediaIndex {
    pub id: Option<String>,
    pub name: String,
    pub media_type: String,
    pub icon: String,
    pub icon_data: Option<String>,
    pub folders: Vec<String>,
}

/// An incoming configuration write.
#[derive(Debug, Clone)]
pub struct IncomingConfiguration {
    pub name: String,
    pub profiles: Vec<IncomingProfile>,
    pub password: Option<String>,
    pub indexes: Vec<IncomingMediaIndex>,
}

/// A server password change.
#[derive(Debug, Clone)]
pub struct ServerPasswordUpdate {
    pub current_password: Option<String>,
    pub new_password: String,
}

/// A server rename.
#[derive(Debug, Clone)]
pub struct ServerNameUpdate {
    pub name: String,
}

} // verus!
