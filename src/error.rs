//! The error every command reports, one variant per kind of failure.
use vstd::prelude::*;
use crate::config::{config_error_text, ConfigError};
use crate::git::GitError;
use crate::text::concat;

verus! {

#[derive(Debug)]
pub enum GuseError {
    IoError(String),
    TomlError(String),
    GitError(String),
    ValidationError(String),
    ConfigError(String),
    DialoguerError(String),
}

pub enum GuseErrorModel {
    IoError(Seq<char>),
    TomlError(Seq<char>),
    GitError(Seq<char>),
    ValidationError(Seq<char>),
    ConfigError(Seq<char>),
    DialoguerError(Seq<char>),
}

impl View for GuseError {
    type V = GuseErrorModel;

    open spec fn view(&self) -> GuseErrorModel {
        match self {
            GuseError::IoError(m) => GuseErrorModel::IoError(m@),
            GuseError::TomlError(m) => GuseErrorModel::TomlError(m@),
            GuseError::GitError(m) => GuseErrorModel::GitError(m@),
            GuseError::ValidationError(m) => GuseErrorModel::ValidationError(m@),
            GuseError::ConfigError(m) => GuseErrorModel::ConfigError(m@),
            GuseError::DialoguerError(m) => GuseErrorModel::DialoguerError(m@),
        }
    }
}

pub open spec fn guse_error_text(e: GuseErrorModel) -> Seq<char> {
    match e {
        GuseErrorModel::IoError(m) => "IO Error: "@ + m,
        GuseErrorModel::TomlError(m) => "TOML Parsing Error: "@ + m,
        GuseErrorModel::GitError(m) => "Git Command Error: "@ + m,
        GuseErrorModel::ValidationError(m) => "Validation Error: "@ + m,
        GuseErrorModel::ConfigError(m) => "Configuration Error: "@ + m,
        GuseErrorModel::DialoguerError(m) => "Interactive Input Error: "@ + m,
    }
}

impl GuseError {
    /// The text shown for this error.
    pub fn message(&self) -> (r: String)
        ensures
            r@ == guse_error_text(self@),
    {
        match self {
            GuseError::IoError(m) => concat("IO Error: ", m.as_str()),
            GuseError::TomlError(m) => concat("TOML Parsing Error: ", m.as_str()),
            GuseError::GitError(m) => concat("Git Command Error: ", m.as_str()),
            GuseError::ValidationError(m) => concat("Validation Error: ", m.as_str()),
            GuseError::ConfigError(m) => concat("Configuration Error: ", m.as_str()),
            GuseError::DialoguerError(m) => concat("Interactive Input Error: ", m.as_str()),
        }
    }

    /// A store failure, carried with its text.
    pub fn from_config_error(e: ConfigError) -> (r: GuseError)
        ensures
            r@ == GuseErrorModel::ConfigError(config_error_text(e@)),
    {
        GuseError::ConfigError(e.message())
    }

    /// A failure of `git`, carried with its text.
    pub fn from_git_error(e: GitError) -> (r: GuseError)
        ensures
            r@ == GuseErrorModel::GitError(e.0@),
    {
        GuseError::GitError(e.0)
    }
}

} // verus!
