//! The settings that the server runs with, and how they are made of the
//! variables of its environment.

use vstd::prelude::*;
use crate::naming::{parse_number, parse_suffix};
use crate::strings::{chars_of, opt_view};

verus! {

/// The port that the server listens on when none is set.
pub const DEFAULT_PORT: u16 = 3000;

/// How many snapshots are kept per document when nothing is set.
pub const DEFAULT_MAX_VERSIONS: u32 = 20;

/// Minutes between two automatic snapshots when nothing is set.
pub const DEFAULT_VERSION_INTERVAL: u32 = 5;

/// The settings of the server.
#[derive(Debug)]
pub struct Config {
    /// Where the metadata store lives.
    pub database_url: String,
    /// The secret that tokens are signed with.
    pub jwt_secret: String,
    /// Root directory of the content store.
    pub documents_path: String,
    /// Directory of uploaded files.
    pub uploads_path: String,
    /// The address that the server binds to.
    pub host: String,
    /// The port that the server listens on.
    pub port: u16,
    /// How many snapshots are kept per document.
    pub max_document_versions: u32,
    /// Minimum time between two automatic snapshots of a document, in minutes.
    pub version_interval_minutes: u32,
}

/// The variables that the settings are made of, each as it was found.
#[derive(Debug)]
pub struct ConfigVars {
    pub database_url: Option<String>,
    pub jwt_secret: Option<String>,
    pub documents_path: Option<String>,
    pub uploads_path: Option<String>,
    pub host: Option<String>,
    pub port: Option<String>,
    pub max_document_versions: Option<String>,
    pub version_interval_minutes: Option<String>,
}

/// A variable that has to be set and is not.
#[derive(Debug, PartialEq, Eq, Structural)]
pub enum MissingVar {
    DatabaseUrl,
    JwtSecret,
}

/// The value of a variable, or `default` when it is not set.
pub open spec fn text_or(value: Option<String>, default: Seq<char>) -> Seq<char> {
    match value {
        Some(s) => s@,
        None => default,
    }
}

/// The number that a variable writes, or `default` when it is not set, is
/// no number, or is above `max`.
pub open spec fn number_or(value: Option<String>, default: nat, max: nat) -> nat {
    match value {
        Some(s) => match parse_number(s@) {
            Some(n) => if n <= max { n } else { default },
            None => default,
        },
        None => default,
    }
}

/// The variable that is missing, if one is: the database first.
pub open spec fn missing_var(vars: ConfigVars) -> Option<MissingVar> {
    if vars.database_url is None {
        Some(MissingVar::DatabaseUrl)
    } else if vars.jwt_secret is None {
        Some(MissingVar::JwtSecret)
    } else {
        None
    }
}

/// Reads a number from a variable.
fn read_number(value: &Option<String>, default: u32, max: u32) -> (n: u32)
    requires
        default <= max,
    ensures
        n == number_or(*value, default as nat, max as nat),
{
    match value {
        Some(s) => {
            let chars = chars_of(s.as_str());
            assert(chars@.skip(0) =~= s@);
            match parse_suffix(&chars, 0) {
                Some(n) => if n <= max { n } else { default },
                None => default,
            }
        },
        None => default,
    }
}

/// Reads a text from a variable.
fn read_text(value: Option<String>, default: &str) -> (s: String)
    ensures
        s@ == text_or(value, default@),
{
    match value {
        Some(s) => s,
        None => default.to_owned(),
    }
}

impl Config {
    /// Makes the settings of the variables. The database and the secret have
    /// to be set; every other variable has a default, which also stands in
    /// for a number that cannot be read.
    pub fn from_vars(vars: ConfigVars) -> (r: Result<Config, MissingVar>)
        ensures
            match missing_var(vars) {
                Some(name) => r == Err::<Config, MissingVar>(name),
                None => {
                    &&& r matches Ok(c)
                    &&& Some(c.database_url@) == opt_view(vars.database_url)
                    &&& Some(c.jwt_secret@) == opt_view(vars.jwt_secret)
                    &&& c.documents_path@ == text_or(vars.documents_path, "data/documents"@)
                    &&& c.uploads_path@ == text_or(vars.uploads_path, "data/uploads"@)
                    &&& c.host@ == text_or(vars.host, "0.0.0.0"@)
                    &&& c.port == number_or(vars.port, DEFAULT_PORT as nat, u16::MAX as nat)
                    &&& c.max_document_versions == number_or(
                        vars.max_document_versions,
                        DEFAULT_MAX_VERSIONS as nat,
                        u32::MAX as nat,
                    )
                    &&& c.version_interval_minutes == number_or(
                        vars.version_interval_minutes,
                        DEFAULT_VERSION_INTERVAL as nat,
                        u32::MAX as nat,
                    )
                },
            },
    {
        let database_url: String = match vars.database_url {
            Some(s) => s,
            None => {
                return Err(MissingVar::DatabaseUrl);
            },
        };
        let jwt_secret: String = match vars.jwt_secret {
            Some(s) => s,
            None => {
                return Err(MissingVar::JwtSecret);
            },
        };
        let port: u32 = read_number(&vars.port, 3000, 65_535);
        Ok(
            Config {
                database_url,
                jwt_secret,
                documents_path: read_text(vars.documents_path, "data/documents"),
                uploads_path: read_text(vars.uploads_path, "data/uploads"),
                host: read_text(vars.host, "0.0.0.0"),
                port: port as u16,
                max_document_versions: read_number(&vars.max_document_versions, 20, 0xffff_ffff),
                version_interval_minutes: read_number(
                    &vars.version_interval_minutes,
                    5,
                    0xffff_ffff,
                ),
            },
        )
    }
}

} // verus!
