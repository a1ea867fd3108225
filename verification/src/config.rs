//! Invocation configuration.
//!
//! Argument and environment handling live outside the library; what
//! arrives here is an explicit configuration value: where the records come
//! from, how to reach the database, which table to fill, and whether the
//! schema should be initialized first.

use vstd::prelude::*;

use crate::record::LoadOptions;

verus! {

/// Where one import run reads its records: a single file or every file
/// of a directory.  The library holds the path as plain text; opening it
/// is the caller's business.
#[derive(Debug, Clone)]
pub enum Source {
    File(String),
    Directory(String),
}

/// Abstract value of a `DatabaseConfig`.
pub ghost struct DatabaseConfigV {
    pub port: u16,
    pub host: Seq<char>,
    pub username: Seq<char>,
    pub password: Seq<char>,
    pub database_name: Seq<char>,
    pub tls: bool,
    pub table_name: Seq<char>,
    pub init: bool,
}

/// How to reach the database and which table to fill.
#[derive(Debug, Clone)]
pub struct DatabaseConfig {
    port: u16,
    host: String,
    username: String,
    password: String,
    database_name: String,
    tls: bool,
    table_name: String,
    init: bool,
}

impl View for DatabaseConfig {
    type V = DatabaseConfigV;

    closed spec fn view(&self) -> DatabaseConfigV {
        DatabaseConfigV {
            port: self.port,
            host: self.host@,
            username: self.username@,
            password: self.password@,
            database_name: self.database_name@,
            tls: self.tls,
            table_name: self.table_name@,
            init: self.init,
        }
    }
}

impl DatabaseConfig {
    /// A configuration from its parts.
    pub fn new(
        port: u16,
        host: String,
        username: String,
        password: String,
        database_name: String,
        tls: bool,
        table_name: String,
        init: bool,
    ) -> (r: Self)
        ensures
            r@ == (DatabaseConfigV {
                port,
                host: host@,
                username: username@,
                password: password@,
                database_name: database_name@,
                tls,
                table_name: table_name@,
                init,
            }),
    {
        DatabaseConfig { port, host, username, password, database_name, tls, table_name, init }
    }

    /// The table imports fill.
    pub fn get_table_name(&self) -> (r: String)
        ensures
            r@ == self@.table_name,
    {
        self.table_name.clone()
    }

    /// Whether the schema should be initialized before importing.
    pub fn is_init(&self) -> (r: bool)
        ensures
            r == self@.init,
    {
        self.init
    }

    pub fn port(&self) -> (r: u16)
        ensures
            r == self@.port,
    {
        self.port
    }

    pub fn host(&self) -> (r: &str)
        ensures
            r@ == self@.host,
    {
        self.host.as_str()
    }

    pub fn username(&self) -> (r: &str)
        ensures
            r@ == self@.username,
    {
        self.username.as_str()
    }

    pub fn password(&self) -> (r: &str)
        ensures
            r@ == self@.password,
    {
        self.password.as_str()
    }

    pub fn database_name(&self) -> (r: &str)
        ensures
            r@ == self@.database_name,
    {
        self.database_name.as_str()
    }

    pub fn tls(&self) -> (r: bool)
        ensures
            r == self@.tls,
    {
        self.tls
    }
}

impl Default for DatabaseConfig {
    /// Everything empty, nothing to initialize.
    fn default() -> (r: Self)
        ensures
            r@ == (DatabaseConfigV {
                port: 0,
                host: Seq::<char>::empty(),
                username: Seq::<char>::empty(),
                password: Seq::<char>::empty(),
                database_name: Seq::<char>::empty(),
                tls: false,
                table_name: Seq::<char>::empty(),
                init: false,
            }),
    {
        DatabaseConfig {
            port: 0,
            host: String::new(),
            username: String::new(),
            password: String::new(),
            database_name: String::new(),
            tls: false,
            table_name: String::new(),
            init: false,
        }
    }
}

/// Everything one invocation needs.
pub struct Config {
    pub database: DatabaseConfig,
    pub source: Source,
    pub load_options: LoadOptions,
}

/// A request that cannot be served at all: bad or missing configuration.
/// Fatal to the invocation, before any file is touched.
#[derive(Debug)]
pub enum ConfigError {
    FileNotFound(String),
    DirectoryNotFound(String),
    DirectoryEmpty(String),
    RequiredConfigurationMissing(String),
}

impl ConfigError {
    pub fn file_not_found(s: &str) -> (r: Self)
        ensures
            r is FileNotFound && r->FileNotFound_0@ == s@,
    {
        ConfigError::FileNotFound(s.to_owned())
    }

    pub fn directory_not_found(s: &str) -> (r: Self)
        ensures
            r is DirectoryNotFound && r->DirectoryNotFound_0@ == s@,
    {
        ConfigError::DirectoryNotFound(s.to_owned())
    }

    pub fn directory_empty(s: &str) -> (r: Self)
        ensures
            r is DirectoryEmpty && r->DirectoryEmpty_0@ == s@,
    {
        ConfigError::DirectoryEmpty(s.to_owned())
    }

    pub fn required_configuration_missing(s: &str) -> (r: Self)
        ensures
            r is RequiredConfigurationMissing && r->RequiredConfigurationMissing_0@ == s@,
    {
        ConfigError::RequiredConfigurationMissing(s.to_owned())
    }
}

} // verus!
