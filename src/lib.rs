//! Declaratively configured shell environments: the configuration model,
//! variable resolution, binary inheritance through symlinks, and the
//! arguments and search path of the shell that is started.

pub mod args;
pub mod assoc;
pub mod bins;
pub mod config;
pub mod fs_model;
pub mod paths;
pub mod senv;
pub mod shell;
pub mod vars;
