//! What the shell of an environment is started with: its arguments and the
//! `PATH` it searches.
use vstd::prelude::*;

use crate::config::{Bin, Root, ShellView};
use crate::paths::{join_spec, join_with, lemma_views_push, views};

verus! {

/// The arguments of the shell, in this order: `--noprofile` where profiles
/// are off; then `--rcfile <rc> -i` where the shell is interactive and reads
/// its rc file, else `--norc`; then `-l` for a login shell.
pub open spec fn shell_args_spec(s: ShellView, rc_file: Seq<char>) -> Seq<Seq<char>> {
    let profile = if s.noprofile {
        seq!["--noprofile"@]
    } else {
        seq![]
    };
    let rc = if !s.norc && s.interactive {
        seq!["--rcfile"@, rc_file, "-i"@]
    } else {
        seq!["--norc"@]
    };
    let login = if s.login {
        seq!["-l"@]
    } else {
        seq![]
    };
    profile + rc + login
}

fn push_arg(args: &mut Vec<String>, a: &str)
    ensures
        views(final(args)@) == views(old(args)@).push(a@),
{
    let s = String::from_str(a);
    proof {
        lemma_views_push(args@, s);
    }
    args.push(s);
}

impl Root {
    /// The arguments to start the shell with, given the path of the
    /// environment's rc file.
    pub fn get_shell_args(&self, rc_file: &str) -> (r: Vec<String>)
        ensures
            views(r@) == shell_args_spec(self.shell@, rc_file@),
    {
        let mut args: Vec<String> = Vec::new();
        let ghost s = self.shell@;
        proof {
            assert(views(args@) =~= seq![]);
        }
        if self.shell.noprofile {
            push_arg(&mut args, "--noprofile");
        }
        let ghost first = views(args@);
        if !self.shell.norc && self.shell.interactive {
            push_arg(&mut args, "--rcfile");
            push_arg(&mut args, rc_file);
            push_arg(&mut args, "-i");
        } else {
            push_arg(&mut args, "--norc");
        }
        let ghost second = views(args@);
        if self.shell.login {
            push_arg(&mut args, "-l");
        }
        proof {
            let profile = if s.noprofile {
                seq!["--noprofile"@]
            } else {
                seq![]
            };
            let rc = if !s.norc && s.interactive {
                seq!["--rcfile"@, rc_file@, "-i"@]
            } else {
                seq!["--norc"@]
            };
            let login = if s.login {
                seq!["-l"@]
            } else {
                seq![]
            };
            assert(first =~= profile);
            assert(second =~= profile + rc);
            assert(views(args@) =~= profile + rc + login);
        }
        args
    }
}

impl Bin {
    /// The shell's `PATH`: the inherited directories in order, joined by
    /// `:`.
    pub fn build_path(&self) -> (r: String)
        ensures
            r@ == join_spec(views(self.inherit_dirs@), ':'),
    {
        proof {
            reveal_strlit(":");
        }
        join_with(&self.inherit_dirs, ":")
    }
}

} // verus!
