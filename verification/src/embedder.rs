//! The identity under which the installer runs.
use crate::text::{concat, concat3, copy_texts, join, joined_text, opt_text, texts};
use vstd::prelude::*;

verus! {

/// The identity of the installer, and how a user invokes it inside its host.
#[derive(Debug)]
pub struct Embedder {
    /// The program name.
    pub name: String,
    /// The words of the command line before a subcommand.
    pub command_prefix: Vec<String>,
    /// The file name of the lockfile.
    pub lockfile_basename: String,
    /// The file name of the program's own workspace file, where it has one.
    pub workspace_yaml: Option<String>,
}

impl Embedder {
    /// The installer on its own.
    pub fn standalone() -> (e: Embedder)
        ensures
            e.name@ == "aube"@,
            texts(e.command_prefix@) == seq!["aube"@],
            e.lockfile_basename@ == "aube-lock.yaml"@,
            opt_text(e.workspace_yaml) == Some("aube-workspace.yaml"@),
    {
        let mut command_prefix: Vec<String> = Vec::new();
        command_prefix.push("aube".to_owned());
        proof {
            assert(texts(command_prefix@) =~= seq!["aube"@]);
        }
        Embedder {
            name: "aube".to_owned(),
            command_prefix,
            lockfile_basename: "aube-lock.yaml".to_owned(),
            workspace_yaml: Some("aube-workspace.yaml".to_owned()),
        }
    }

    /// The program name.
    pub fn prog(&self) -> (r: &str)
        ensures
            r@ == self.name@,
    {
        self.name.as_str()
    }

    /// The command prefix as a user types it.
    pub fn command_prefix_display(&self) -> (r: String)
        ensures
            r@ == joined_text(texts(self.command_prefix@), " "@),
    {
        join(&self.command_prefix, " ")
    }

    /// The words that follow the executable when it invokes itself.
    pub fn recursive_command_args(&self) -> (r: Vec<String>)
        ensures
            texts(r@) == if self.command_prefix@.len() == 0 {
                Seq::empty()
            } else {
                texts(self.command_prefix@).drop_first()
            },
    {
        let mut args = copy_texts(&self.command_prefix);
        let ghost was = args@;
        proof {
            assert(texts(was).len() == was.len());
            assert(texts(self.command_prefix@).len() == self.command_prefix@.len());
        }
        if args.len() > 0 {
            args.remove(0);
            proof {
                assert(texts(args@) =~= texts(was).drop_first());
            }
        } else {
            proof {
                assert(texts(args@) =~= Seq::<Seq<char>>::empty());
            }
        }
        args
    }

    /// A subcommand as a user types it.
    pub fn cmd(&self, subcommand: &str) -> (r: String)
        ensures
            r@ == joined_text(texts(self.command_prefix@), " "@) + " "@ + subcommand@,
    {
        let prefix = self.command_prefix_display();
        concat3(prefix.as_str(), " ", subcommand)
    }

    /// The name of the directory that the install state is kept in.
    pub fn state_dir_name(&self) -> (r: String)
        ensures
            r@ == "."@ + self.name@ + "-state"@,
    {
        let head = concat(".", self.name.as_str());
        concat(head.as_str(), "-state")
    }
}

} // verus!
