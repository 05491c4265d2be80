//! What a quilt command of a code action runs: the directory quilt runs in
//! and its arguments, or why the command cannot run.
use vstd::prelude::*;
use vstd::string::StringExecFns;
use crate::quilt::{find_quilt_working_dir, spec_quilt_working_dir};
use crate::series_code_actions::{
    CMD_QUILT_DELETE, CMD_QUILT_IMPORT, CMD_QUILT_NEW, CMD_QUILT_POP, CMD_QUILT_POP_ALL, CMD_QUILT_PUSH, CMD_QUILT_PUSH_ALL,
    CMD_QUILT_REFRESH,
};
use crate::text::str_eq;
use crate::uri::{spec_uri_to_file_path, uri_to_file_path};

verus! {

/// Why a quilt command cannot run.
#[derive(Debug, Clone, Copy, PartialEq, Eq, Structural)]
pub enum QuiltCommandError {
    /// The first argument, the document's URI, is missing.
    MissingUri,
    /// No working directory can be made of the URI.
    NoWorkingDir,
    /// The command is none of the quilt commands.
    UnknownCommand,
    /// The command needs a patch name as its second argument.
    MissingPatchName,
    /// The URI of a patch to import names no file.
    InvalidFileUri,
}

/// A quilt subcommand on a named patch.
pub open spec fn named(verb: Seq<char>, name: Option<Seq<char>>) -> Result<Seq<Seq<char>>, QuiltCommandError> {
    match name {
        Some(n) => Ok(seq![verb, n]),
        None => Err(QuiltCommandError::MissingPatchName),
    }
}

/// The arguments quilt gets for a command, given the patch name argument and
/// the file path of the document's URI.
pub open spec fn spec_quilt_argv(command: Seq<char>, name: Option<Seq<char>>, path: Option<Seq<char>>) -> Result<Seq<Seq<char>>, QuiltCommandError> {
    if command == CMD_QUILT_PUSH@ {
        named("push"@, name)
    } else if command == CMD_QUILT_POP@ {
        named("pop"@, name)
    } else if command == CMD_QUILT_PUSH_ALL@ {
        Ok(seq!["push"@, "-a"@])
    } else if command == CMD_QUILT_POP_ALL@ {
        Ok(seq!["pop"@, "-a"@])
    } else if command == CMD_QUILT_DELETE@ {
        named("delete"@, name)
    } else if command == CMD_QUILT_REFRESH@ {
        Ok(seq!["refresh"@])
    } else if command == CMD_QUILT_NEW@ {
        named("new"@, name)
    } else if command == CMD_QUILT_IMPORT@ {
        match path {
            Some(p) => Ok(seq!["import"@, p]),
            None => Err(QuiltCommandError::InvalidFileUri),
        }
    } else {
        Err(QuiltCommandError::UnknownCommand)
    }
}

/// The working directory and arguments of a command: a missing URI first,
/// then a URI without a working directory, then what the command itself
/// lacks.
pub open spec fn spec_quilt_invocation(command: Seq<char>, first: Option<Seq<char>>, second: Option<Seq<char>>) -> Result<(Seq<char>, Seq<Seq<char>>), QuiltCommandError> {
    match first {
        None => Err(QuiltCommandError::MissingUri),
        Some(u) => match spec_quilt_working_dir(u) {
            None => Err(QuiltCommandError::NoWorkingDir),
            Some(dir) => match spec_quilt_argv(command, second, spec_uri_to_file_path(u)) {
                Ok(argv) => Ok((dir, argv)),
                Err(e) => Err(e),
            },
        },
    }
}

fn words(a: &str, b: &str) -> (r: Vec<String>)
    ensures
        r@.map_values(|s: String| s@) == seq![a@, b@],
{
    let mut v: Vec<String> = Vec::new();
    v.push(String::from_str(a));
    v.push(String::from_str(b));
    assert(v@.map_values(|s: String| s@) =~= seq![a@, b@]);
    v
}

fn named_exec(verb: &str, name: Option<&str>) -> (r: Result<Vec<String>, QuiltCommandError>)
    ensures
        match (r, named(verb@, opt_view(name))) {
            (Ok(v), Ok(w)) => v@.map_values(|s: String| s@) == w,
            (Err(e), Err(f)) => e == f,
            _ => false,
        },
{
    match name {
        Some(n) => Ok(words(verb, n)),
        None => Err(QuiltCommandError::MissingPatchName),
    }
}

/// The view of an optional text.
pub open spec fn opt_view(o: Option<&str>) -> Option<Seq<char>> {
    match o {
        Some(s) => Some(s@),
        None => None,
    }
}

/// The arguments quilt gets for a command.
fn quilt_argv(command: &str, name: Option<&str>, uri: &str) -> (r: Result<Vec<String>, QuiltCommandError>)
    ensures
        match (r, spec_quilt_argv(command@, opt_view(name), spec_uri_to_file_path(uri@))) {
            (Ok(v), Ok(w)) => v@.map_values(|s: String| s@) == w,
            (Err(e), Err(f)) => e == f,
            _ => false,
        },
{
    if str_eq(command, CMD_QUILT_PUSH) {
        named_exec("push", name)
    } else if str_eq(command, CMD_QUILT_POP) {
        named_exec("pop", name)
    } else if str_eq(command, CMD_QUILT_PUSH_ALL) {
        Ok(words("push", "-a"))
    } else if str_eq(command, CMD_QUILT_POP_ALL) {
        Ok(words("pop", "-a"))
    } else if str_eq(command, CMD_QUILT_DELETE) {
        named_exec("delete", name)
    } else if str_eq(command, CMD_QUILT_REFRESH) {
        let mut v: Vec<String> = Vec::new();
        v.push(String::from_str("refresh"));
        assert(v@.map_values(|s: String| s@) =~= seq!["refresh"@]);
        Ok(v)
    } else if str_eq(command, CMD_QUILT_NEW) {
        named_exec("new", name)
    } else if str_eq(command, CMD_QUILT_IMPORT) {
        match uri_to_file_path(uri) {
            Some(p) => Ok(words("import", p.as_str())),
            None => Err(QuiltCommandError::InvalidFileUri),
        }
    } else {
        Err(QuiltCommandError::UnknownCommand)
    }
}

/// What a quilt command runs, given its first two arguments (the document's
/// URI and a patch name): the working directory and quilt's arguments.
pub fn quilt_invocation(command: &str, first: Option<&str>, second: Option<&str>) -> (r: Result<(String, Vec<String>), QuiltCommandError>)
    ensures
        match (r, spec_quilt_invocation(command@, opt_view(first), opt_view(second))) {
            (Ok((d, v)), Ok((dir, argv))) => d@ == dir && v@.map_values(|s: String| s@) == argv,
            (Err(e), Err(f)) => e == f,
            _ => false,
        },
{
    let uri = match first {
        None => return Err(QuiltCommandError::MissingUri),
        Some(u) => u,
    };
    let dir = match find_quilt_working_dir(uri) {
        None => return Err(QuiltCommandError::NoWorkingDir),
        Some(d) => d,
    };
    match quilt_argv(command, second, uri) {
        Ok(v) => Ok((dir, v)),
        Err(e) => Err(e),
    }
}

} // verus!
