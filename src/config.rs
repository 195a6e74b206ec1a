//! The database settings, read once at startup, and the connection string
//! built from them.

use vstd::prelude::*;

verus! {

/// The settings that name the database and the account to connect with.
#[derive(Debug)]
pub struct DbConfig {
    pub host: String,
    pub port: String,
    pub dbname: String,
    pub user: String,
    pub password: String,
}

/// One of the settings.
#[derive(Clone, Copy, Debug, PartialEq, Eq, Structural)]
pub enum ConfigKey {
    Host,
    Port,
    Name,
    User,
    Password,
}

/// A setting that was not given.
#[derive(Clone, Copy, Debug, PartialEq, Eq, Structural)]
pub enum ConfigError {
    Missing(ConfigKey),
}

/// The connection string for the given settings, `key=value` pairs
/// separated by spaces.
pub open spec fn connection_text(
    host: Seq<char>,
    port: Seq<char>,
    dbname: Seq<char>,
    user: Seq<char>,
    password: Seq<char>,
) -> Seq<char> {
    "host="@ + host + " port="@ + port + " dbname="@ + dbname + " user="@ + user + " password="@
        + password
}

impl DbConfig {
    /// The settings, if each was given; otherwise the first missing one, in
    /// the order host, port, name, user, password.
    pub fn from_settings(
        host: Option<String>,
        port: Option<String>,
        dbname: Option<String>,
        user: Option<String>,
        password: Option<String>,
    ) -> (r: Result<DbConfig, ConfigError>)
        ensures
            r is Ok <==> host is Some && port is Some && dbname is Some && user is Some
                && password is Some,
            r matches Ok(c) ==> Some(c.host) == host && Some(c.port) == port && Some(c.dbname)
                == dbname && Some(c.user) == user && Some(c.password) == password,
            host is None ==> r == Err::<DbConfig, ConfigError>(ConfigError::Missing(ConfigKey::Host)),
            host is Some && port is None ==> r == Err::<DbConfig, ConfigError>(
                ConfigError::Missing(ConfigKey::Port),
            ),
            host is Some && port is Some && dbname is None ==> r == Err::<DbConfig, ConfigError>(
                ConfigError::Missing(ConfigKey::Name),
            ),
            host is Some && port is Some && dbname is Some && user is None ==> r == Err::<
                DbConfig,
                ConfigError,
            >(ConfigError::Missing(ConfigKey::User)),
            host is Some && port is Some && dbname is Some && user is Some && password is None
                ==> r == Err::<DbConfig, ConfigError>(ConfigError::Missing(ConfigKey::Password)),
    {
        let host = match host {
            Some(v) => v,
            None => return Err(ConfigError::Missing(ConfigKey::Host)),
        };
        let port = match port {
            Some(v) => v,
            None => return Err(ConfigError::Missing(ConfigKey::Port)),
        };
        let dbname = match dbname {
            Some(v) => v,
            None => return Err(ConfigError::Missing(ConfigKey::Name)),
        };
        let user = match user {
            Some(v) => v,
            None => return Err(ConfigError::Missing(ConfigKey::User)),
        };
        let password = match password {
            Some(v) => v,
            None => return Err(ConfigError::Missing(ConfigKey::Password)),
        };
        Ok(DbConfig { host, port, dbname, user, password })
    }

    /// The connection string that names these settings.
    pub fn connection_string(&self) -> (r: String)
        ensures
            r@ == connection_text(self.host@, self.port@, self.dbname@, self.user@, self.password@),
    {
        let mut out = String::from_str("host=");
        out.append(self.host.as_str());
        out.append(" port=");
        out.append(self.port.as_str());
        out.append(" dbname=");
        out.append(self.dbname.as_str());
        out.append(" user=");
        out.append(self.user.as_str());
        out.append(" password=");
        out.append(self.password.as_str());
        out
    }
}

} // verus!
