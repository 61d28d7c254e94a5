//! The server that the suite talks to.
use tokio_postgres::Config;
use vstd::prelude::*;
use vstd::string::*;

verus! {

/// The connection settings of the client library, which this crate carries and
/// does not look into.
#[verifier::external_type_specification]
#[verifier::external_body]
pub struct ExConfig(tokio_postgres::Config);

/// The errors of the client library.
#[verifier::external_type_specification]
#[verifier::external_body]
pub struct ExPostgresError(tokio_postgres::Error);

/// What `Config`'s `FromStr` gives for a text: the settings that it reads from
/// it, or the error with which it refuses it.
pub uninterp spec fn parsed_config(url: Seq<char>) -> Result<Config, tokio_postgres::Error>;

/// The settings that `Config::dbname` makes of others.
pub uninterp spec fn config_with_dbname(config: Config, dbname: Seq<char>) -> Config;

/// The database that settings name: what `Config::get_dbname` gives.
pub uninterp spec fn config_dbname(config: Config) -> Option<Seq<char>>;

/// `Config` derives `Clone`, and all that it holds is plain data: a copy holds
/// the same settings.
pub assume_specification[ <tokio_postgres::Config as Clone>::clone ](
    settings: &tokio_postgres::Config,
) -> (copy: tokio_postgres::Config)
    ensures
        copy == *settings,
;

/// `Config`'s `FromStr`: reads settings from a URL, or from keys and values. It
/// looks at nothing but the text, so that a text always gives the same settings
/// or the same error. Which ones it gives for which text is left unsaid.
#[verifier::external_body]
fn parse_config(url: &str) -> (result: Result<Config, tokio_postgres::Error>)
    ensures
        result == parsed_config(url@),
{
    url.parse()
}

/// `Config::dbname`: sets the database to connect to. What it makes of the
/// settings depends on them and on the name alone, and the name is what
/// `Config::get_dbname` then gives.
#[verifier::external_body]
fn set_dbname(config: &mut Config, dbname: &str)
    ensures
        *final(config) == config_with_dbname(*old(config), dbname@),
        config_dbname(*final(config)) == Some(dbname@),
{
    config.dbname(dbname);
}

/// Why there are no settings.
#[derive(Debug)]
pub enum ConfigError {
    /// There is no URL.
    NotSet,
    /// The client library does not accept the URL.
    Invalid { cause: tokio_postgres::Error },
}

impl ConfigError {
    /// What the error says, in front of what caused it.
    pub open spec fn explained(self) -> Seq<char> {
        match self {
            ConfigError::NotSet => "DATABASE_URL is not set"@,
            ConfigError::Invalid { .. } => "invalid DATABASE_URL"@,
        }
    }

    /// What the error says, in front of what caused it.
    pub fn message(&self) -> (message: String)
        ensures
            message@ == self.explained(),
    {
        match self {
            ConfigError::NotSet => "DATABASE_URL is not set".to_owned(),
            ConfigError::Invalid { .. } => "invalid DATABASE_URL".to_owned(),
        }
    }
}

/// What comes of the client library's answer, where there is a URL: the settings,
/// or why there are none, with the library's own error where it gave one.
pub open spec fn accepted(parsed: Option<Result<Config, tokio_postgres::Error>>) -> Result<
    Config,
    ConfigError,
> {
    match parsed {
        None => Err(ConfigError::NotSet),
        Some(Ok(config)) => Ok(config),
        Some(Err(cause)) => Err(ConfigError::Invalid { cause }),
    }
}

/// What the client library makes of a URL, where there is one.
pub open spec fn parsed_url(url: Option<&str>) -> Option<Result<Config, tokio_postgres::Error>> {
    match url {
        None => None,
        Some(url) => Some(parsed_config(url@)),
    }
}

/// What is to come of the client library's answer, where there is a URL.
pub fn accept_config(parsed: Option<Result<Config, tokio_postgres::Error>>) -> (outcome: Result<
    Config,
    ConfigError,
>)
    ensures
        outcome == accepted(parsed),
{
    match parsed {
        None => Err(ConfigError::NotSet),
        Some(Ok(config)) => Ok(config),
        Some(Err(cause)) => Err(ConfigError::Invalid { cause }),
    }
}

/// The settings that a URL holds.
pub fn database_config(url: Option<&str>) -> (outcome: Result<Config, ConfigError>)
    ensures
        outcome == accepted(parsed_url(url)),
{
    match url {
        None => accept_config(None),
        Some(url) => accept_config(Some(parse_config(url))),
    }
}

/// The settings of a session: to the named database, where there is one, else
/// to the database of the given settings.
pub fn session_config(config: &Config, database: Option<&str>) -> (settings: Config)
    ensures
        match database {
            Some(name) => settings == config_with_dbname(*config, name@) && config_dbname(settings)
                == Some(name@),
            None => settings == *config,
        },
{
    let mut settings = config.clone();
    if let Some(name) = database {
        set_dbname(&mut settings, name);
    }
    settings
}

/// There are settings exactly where there is a URL that the client library reads,
/// and then they are those that it reads. Otherwise the error tells what is wrong:
/// there is no URL, or the client library refuses it, with its own reason.
pub proof fn law_settings_come_from_url(
    url: &str,
    config: Config,
    parsed: Option<Result<Config, tokio_postgres::Error>>,
)
    ensures
        parsed_url(None) is None,
        parsed_url(Some(url)) == Some(parsed_config(url@)),
        accepted(parsed) == Ok::<Config, ConfigError>(config) <==> parsed == Some(
            Ok::<Config, tokio_postgres::Error>(config),
        ),
        accepted(parsed) is Err && accepted(parsed)->Err_0 is NotSet <==> parsed is None,
        parsed is Some && parsed->0 is Err ==> accepted(parsed) is Err
            && accepted(parsed)->Err_0->cause == parsed->0->Err_0,
{
}

/// What the errors say.
pub proof fn law_config_errors_say(cause: tokio_postgres::Error)
    ensures
        ConfigError::NotSet.explained() == "DATABASE_URL is not set"@,
        (ConfigError::Invalid { cause }).explained() == "invalid DATABASE_URL"@,
{
}

}
