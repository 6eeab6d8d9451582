//! The commands of the command line, as plain values.
use vstd::prelude::*;

verus! {

/// A parsed command line: the subcommand and the options common to all.
pub struct CmdMain {
    pub sub: CmdMainSub,
    pub args: CmdMainArgs,
}

pub enum CmdMainSub {
    /// Create a new environment.
    New { args: SubCmdNewArgs },
    /// Start using an environment.
    Use { args: SubCmdUseArgs },
    /// Remove the files and directories of an environment.
    Rm { args: SubCmdRmArgs },
}

pub struct SubCmdNewArgs {
    pub name: String,
}

pub struct SubCmdUseArgs {
    pub name: String,
}

pub struct SubCmdRmArgs {
    pub name: String,
}

/// Options common to all subcommands.
pub struct CmdMainArgs {
    /// Disable inheritance.
    pub no_inherit: bool,
}

pub open spec fn sub_name(sub: CmdMainSub) -> Seq<char> {
    match sub {
        CmdMainSub::New { args } => args.name@,
        CmdMainSub::Use { args } => args.name@,
        CmdMainSub::Rm { args } => args.name@,
    }
}

impl CmdMain {
    /// The name of the environment that the subcommand is about.
    pub fn env_name(&self) -> (r: &str)
        ensures
            r@ == sub_name(self.sub),
    {
        match &self.sub {
            CmdMainSub::New { args } => args.name.as_str(),
            CmdMainSub::Use { args } => args.name.as_str(),
            CmdMainSub::Rm { args } => args.name.as_str(),
        }
    }
}

} // verus!
