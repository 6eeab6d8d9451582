//! Where an environment lives: its configuration directory and document,
//! and its data directory with the binary directory inside.
use vstd::prelude::*;

use crate::paths::{push_path, push_spec};

verus! {

/// The paths of one environment.
pub struct Files {
    pub cfg_dir: String,
    pub cfg_file: String,
    pub data_dir: String,
    pub bin_dir: String,
}

/// A named environment and its paths.
pub struct Senv {
    pub name: String,
    pub files: Files,
}

/// Why an environment is incomplete: its name, and the path that is missing.
#[derive(Debug, PartialEq, Eq)]
pub enum SenvError {
    MissingDir(String, String),
    MissingFile(String, String),
}

pub enum SenvFailure {
    MissingDir(Seq<char>, Seq<char>),
    MissingFile(Seq<char>, Seq<char>),
}

impl View for SenvError {
    type V = SenvFailure;

    open spec fn view(&self) -> SenvFailure {
        match self {
            SenvError::MissingDir(n, p) => SenvFailure::MissingDir(n@, p@),
            SenvError::MissingFile(n, p) => SenvFailure::MissingFile(n@, p@),
        }
    }
}

impl Senv {
    /// The environment `name` under the given configuration and data homes:
    /// `<config_home>/<name>` holding `config.toml`, and `<data_home>/<name>`
    /// holding `bin`.
    pub fn new_xdg(name: &str, config_home: &str, data_home: &str) -> (r: Senv)
        ensures
            r.name@ == name@,
            r.files.cfg_dir@ == push_spec(config_home@, name@),
            r.files.cfg_file@ == push_spec(r.files.cfg_dir@, "config.toml"@),
            r.files.data_dir@ == push_spec(data_home@, name@),
            r.files.bin_dir@ == push_spec(r.files.data_dir@, "bin"@),
    {
        let cfg_dir = push_path(config_home, name);
        let cfg_file = push_path(cfg_dir.as_str(), "config.toml");
        let data_dir = push_path(data_home, name);
        let bin_dir = push_path(data_dir.as_str(), "bin");
        Senv { name: String::from_str(name), files: Files { cfg_dir, cfg_file, data_dir, bin_dir } }
    }

    /// The rc file that an interactive shell of the environment reads.
    pub fn rc_file(&self) -> (r: String)
        ensures
            r@ == push_spec(self.files.cfg_dir@, "rc.sh"@),
    {
        push_path(self.files.cfg_dir.as_str(), "rc.sh")
    }

    /// The verdict on the environment's paths, given which of them exist:
    /// each is checked in the order of the fields of `Files`, and the first
    /// that is missing is the error.
    pub fn is_valid(
        &self,
        cfg_dir_exists: bool,
        cfg_file_exists: bool,
        data_dir_exists: bool,
        bin_dir_exists: bool,
    ) -> (r: Result<(), SenvError>)
        ensures
            r is Ok <==> cfg_dir_exists && cfg_file_exists && data_dir_exists && bin_dir_exists,
            r matches Err(e) ==> e@ == if !cfg_dir_exists {
                SenvFailure::MissingDir(self.name@, self.files.cfg_dir@)
            } else if !cfg_file_exists {
                SenvFailure::MissingFile(self.name@, self.files.cfg_file@)
            } else if !data_dir_exists {
                SenvFailure::MissingDir(self.name@, self.files.data_dir@)
            } else {
                SenvFailure::MissingDir(self.name@, self.files.bin_dir@)
            },
    {
        if !cfg_dir_exists {
            return Err(SenvError::MissingDir(self.name.clone(), self.files.cfg_dir.clone()));
        }
        if !cfg_file_exists {
            return Err(SenvError::MissingFile(self.name.clone(), self.files.cfg_file.clone()));
        }
        if !data_dir_exists {
            return Err(SenvError::MissingDir(self.name.clone(), self.files.data_dir.clone()));
        }
        if !bin_dir_exists {
            return Err(SenvError::MissingDir(self.name.clone(), self.files.bin_dir.clone()));
        }
        Ok(())
    }
}

} // verus!
