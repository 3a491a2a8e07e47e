//! The hybrid C/Rust build: which configured command runs for each step, and
//! the checks and reports around running it.

use vstd::prelude::*;
use crate::merger::join_lines;
use crate::stats::texts;
use crate::text::{
    chars_of, contains, find_in, has_char, lines, owned, push_char, push_range, push_str_chars,
    split_lines, trim, trim_bounds, string_of_range,
};

verus! {

/// A step of the hybrid build.
#[derive(Debug, Clone, Copy, PartialEq, Eq, Structural)]
pub enum HybridCommandType {
    Clean,
    Build,
    Test,
}

impl HybridCommandType {
    /// The configuration key of the step's command.
    pub fn cmd_key(&self) -> (s: &'static str)
        ensures
            s@ == match self {
                HybridCommandType::Clean => "clean.cmd"@,
                HybridCommandType::Build => "build.cmd"@,
                HybridCommandType::Test => "test.cmd"@,
            },
    {
        match self {
            HybridCommandType::Clean => "clean.cmd",
            HybridCommandType::Build => "build.cmd",
            HybridCommandType::Test => "test.cmd",
        }
    }

    /// The configuration key of the step's working directory.
    pub fn dir_key(&self) -> (s: &'static str)
        ensures
            s@ == match self {
                HybridCommandType::Clean => "clean.dir"@,
                HybridCommandType::Build => "build.dir"@,
                HybridCommandType::Test => "test.dir"@,
            },
    {
        match self {
            HybridCommandType::Clean => "clean.dir",
            HybridCommandType::Build => "build.dir",
            HybridCommandType::Test => "test.dir",
        }
    }

    /// The step's name.
    pub fn as_str(&self) -> (s: &'static str)
        ensures
            s@ == match self {
                HybridCommandType::Clean => "clean"@,
                HybridCommandType::Build => "build"@,
                HybridCommandType::Test => "test"@,
            },
    {
        match self {
            HybridCommandType::Clean => "clean",
            HybridCommandType::Build => "build",
            HybridCommandType::Test => "test",
        }
    }

    /// Whether the step runs with the hybrid library preloaded (the build only).
    pub fn needs_ld_preload(&self) -> (b: bool)
        ensures
            b == (*self == HybridCommandType::Build),
    {
        match self {
            HybridCommandType::Build => true,
            _ => false,
        }
    }
}

/// Why a configured command was not run.
pub enum CommandError {
    /// The configured directory is absolute.
    AbsoluteDir { dir: String },
    /// The configured directory holds `..`.
    ParentDir { dir: String },
    /// The command line could not be split into words (an unclosed quote).
    Parse { command: String },
    /// The program name is empty.
    EmptyCommand,
}

impl CommandError {
    /// The text of the error.
    pub fn message(&self) -> (s: String)
        ensures
            s@ == match self {
                CommandError::AbsoluteDir { dir } => "Directory path from config must be relative, got: "@ + dir@,
                CommandError::ParentDir { dir } => "Directory path from config cannot contain '..', got: "@ + dir@,
                CommandError::Parse { command } => "Failed to parse command: "@ + command@,
                CommandError::EmptyCommand => "Command cannot be empty"@,
            },
    {
        match self {
            CommandError::AbsoluteDir { dir } => {
                let mut s = owned("Directory path from config must be relative, got: ");
                push_str_chars(&mut s, dir.as_str());
                s
            },
            CommandError::ParentDir { dir } => {
                let mut s = owned("Directory path from config cannot contain '..', got: ");
                push_str_chars(&mut s, dir.as_str());
                s
            },
            CommandError::Parse { command } => {
                let mut s = owned("Failed to parse command: ");
                push_str_chars(&mut s, command.as_str());
                s
            },
            CommandError::EmptyCommand => owned("Command cannot be empty"),
        }
    }
}

/// Whether `p` is `..` found in `dir`.
fn has_parent_ref(dir: &Vec<char>) -> (b: bool)
    ensures
        b == contains(dir@, ".."@),
{
    let p = chars_of("..");
    let r = find_in(dir, 0, dir.len(), &p);
    proof {
        assert(dir@.subrange(0, dir@.len() as int) =~= dir@);
        crate::text::lemma_find_spec(dir@, ".."@);
    }
    r.is_some()
}

/// A working directory from the configuration must be relative (not start
/// with `/`) and must not hold `..`.
pub fn check_command_dir(dir: &str) -> (r: Result<(), CommandError>)
    ensures
        match r {
            Ok(()) => !(dir@.len() > 0 && dir@[0] == '/') && !contains(dir@, ".."@),
            Err(CommandError::AbsoluteDir { dir: d }) => dir@.len() > 0 && dir@[0] == '/' && d@ == dir@,
            Err(CommandError::ParentDir { dir: d }) => !(dir@.len() > 0 && dir@[0] == '/') && contains(dir@, ".."@)
                && d@ == dir@,
            Err(_) => false,
        },
{
    let v = chars_of(dir);
    if v.len() > 0 && v[0] == '/' {
        return Err(CommandError::AbsoluteDir { dir: owned(dir) });
    }
    if has_parent_ref(&v) {
        return Err(CommandError::ParentDir { dir: owned(dir) });
    }
    Ok(())
}

/// The words that `shell_words::split` makes of a command line, or `None`
/// where it refuses the line.
pub uninterp spec fn shell_split(line: Seq<char>) -> Option<Seq<Seq<char>>>;

/// Splits a command line into words as a POSIX shell would
/// (`shell_words::split`); `None` where the crate reports a parse error.
#[verifier::external_body]
fn split_words(line: &str) -> (r: Option<Vec<String>>)
    ensures
        match r {
            Some(w) => shell_split(line@) == Some(texts(w@)),
            None => shell_split(line@) is None,
        },
{
    match shell_words::split(line) {
        Ok(words) => Some(words),
        Err(_) => None,
    }
}

/// What to run, given the words of `command`: `Ok(None)` when there is no
/// word (nothing to run), an error where the line did not split or the
/// program name is empty, else the words.
pub fn command_words(words: Option<Vec<String>>, command: &str) -> (r: Result<Option<Vec<String>>, CommandError>)
    ensures
        match words {
            None => r matches Err(CommandError::Parse { command: c }) && c@ == command@,
            Some(w) => if w.len() == 0 {
                r matches Ok(None)
            } else if w@[0]@.len() == 0 {
                r matches Err(CommandError::EmptyCommand)
            } else {
                r matches Ok(Some(x)) && x@ == w@
            },
        },
{
    match words {
        None => Err(CommandError::Parse { command: owned(command) }),
        Some(w) => {
            if w.len() == 0 {
                Ok(None)
            } else if w[0].as_str().unicode_len() == 0 {
                Err(CommandError::EmptyCommand)
            } else {
                Ok(Some(w))
            }
        },
    }
}

/// Checks the configured directory, then splits the configured command line
/// into the program and its arguments (see [`command_words`]).
pub fn prepare_command(command: &str, dir: &str) -> (r: Result<Option<Vec<String>>, CommandError>)
    ensures
        dir@.len() > 0 && dir@[0] == '/' ==> (r matches Err(CommandError::AbsoluteDir { dir: d }) && d@ == dir@),
        !(dir@.len() > 0 && dir@[0] == '/') && contains(dir@, ".."@) ==> (r matches Err(
            CommandError::ParentDir { dir: d },
        ) && d@ == dir@),
        !(dir@.len() > 0 && dir@[0] == '/') && !contains(dir@, ".."@) ==> match shell_split(command@) {
            None => r matches Err(CommandError::Parse { command: c }) && c@ == command@,
            Some(w) => if w.len() == 0 {
                r matches Ok(None)
            } else if w[0].len() == 0 {
                r matches Err(CommandError::EmptyCommand)
            } else {
                r matches Ok(Some(x)) && texts(x@) == w
            },
        },
{
    match check_command_dir(dir) {
        Err(e) => Err(e),
        Ok(()) => {
            let words = split_words(command);
            proof {
                if words is Some && words->0.len() > 0 {
                    assert(texts(words->0@)[0] == words->0@[0]@);
                }
            }
            command_words(words, command)
        },
    }
}

/// The build target for the hybrid link, given what the configuration
/// lookup of `build.target` gave (its value or its error text); the flag says
/// whether the failure deserves a warning (any error that does not mention
/// `Empty` or `not found`).
pub fn build_target_from(lookup: Result<String, String>) -> (r: (Option<String>, bool))
    ensures
        match lookup {
            Ok(t) => r.1 == false && if t@.len() > 0 { r.0 matches Some(x) && x@ == t@ } else { r.0 is None },
            Err(e) => r.0 is None && r.1 == (!contains(e@, "Empty"@) && !contains(e@, "not found"@)),
        },
{
    match lookup {
        Ok(t) => {
            if t.as_str().unicode_len() > 0 {
                (Some(t), false)
            } else {
                (None, false)
            }
        },
        Err(e) => {
            let v = chars_of(e.as_str());
            let a = chars_of("Empty");
            let b = chars_of("not found");
            let fa = find_in(&v, 0, v.len(), &a);
            let fb = find_in(&v, 0, v.len(), &b);
            proof {
                assert(v@.subrange(0, v@.len() as int) =~= v@);
                crate::text::lemma_find_spec(v@, a@);
                crate::text::lemma_find_spec(v@, b@);
            }
            (None, fa.is_none() && fb.is_none())
        },
    }
}

/// The first three lines of a command's error output, joined with `\n`.
pub open spec fn stderr_summary(stderr: Seq<char>) -> Seq<char> {
    join_lines(lines(stderr).take(if lines(stderr).len() < 3 { lines(stderr).len() as int } else { 3 }))
}

/// The error reported for a command that exited with a failure status.
pub fn command_failure_message(command: &str, stderr: &str) -> (s: String)
    ensures
        s@ == if stderr_summary(stderr@).len() == 0 {
            "Command '"@ + command@ + "' failed with non-zero exit status"@
        } else {
            "Command '"@ + command@ + "' failed with non-zero exit status. Stderr (first lines):\n"@
                + stderr_summary(stderr@)
        },
{
    let v = chars_of(stderr);
    let ls = split_lines(&v);
    let ghost lsv = ls@.map_values(|l: Vec<char>| l@);
    let n: usize = if ls.len() < 3 { ls.len() } else { 3 };
    let mut summary = String::new();
    let mut k: usize = 0;
    proof {
        assert(lsv.len() == ls.len());
        assert(lsv.take(0) =~= Seq::<Seq<char>>::empty());
    }
    while k < n
        invariant
            n <= ls.len(),
            k <= n,
            lsv == ls@.map_values(|l: Vec<char>| l@),
            summary@ == join_lines(lsv.take(k as int)),
        decreases n - k,
    {
        if k > 0 {
            push_char(&mut summary, '\n');
        }
        let l = &ls[k];
        push_range(&mut summary, l, 0, l.len());
        proof {
            assert(lsv[k as int] == l@);
            assert(l@.subrange(0, l@.len() as int) =~= l@);
            assert(lsv.take(k + 1).drop_last() =~= lsv.take(k as int));
        }
        k = k + 1;
    }
    let mut s = owned("Command '");
    push_str_chars(&mut s, command);
    if summary.as_str().unicode_len() == 0 {
        push_str_chars(&mut s, "' failed with non-zero exit status");
    } else {
        push_str_chars(&mut s, "' failed with non-zero exit status. Stderr (first lines):\n");
        push_str_chars(&mut s, summary.as_str());
    }
    s
}

/// Why a configuration value could not be had.
pub enum ConfigValueError {
    /// The configuration tool failed.
    Failed { key: String, stderr: String },
    /// The configuration holds an empty value.
    Empty { key: String },
}

impl ConfigValueError {
    /// The text of the error.
    pub fn message(&self) -> (s: String)
        ensures
            s@ == match self {
                ConfigValueError::Failed { key, stderr } => "Failed to retrieve "@ + key@ + ": "@ + stderr@,
                ConfigValueError::Empty { key } => "Empty "@ + key@ + " value from config"@,
            },
    {
        match self {
            ConfigValueError::Failed { key, stderr } => {
                let mut s = owned("Failed to retrieve ");
                push_str_chars(&mut s, key.as_str());
                push_str_chars(&mut s, ": ");
                push_str_chars(&mut s, stderr.as_str());
                s
            },
            ConfigValueError::Empty { key } => {
                let mut s = owned("Empty ");
                push_str_chars(&mut s, key.as_str());
                push_str_chars(&mut s, " value from config");
                s
            },
        }
    }
}

/// The value of `key` from the output of the configuration tool: its
/// standard output, trimmed, when it succeeded and printed something.
pub fn config_value_from_output(key: &str, success: bool, stdout: &str, stderr: &str) -> (r: Result<String, ConfigValueError>)
    ensures
        !success ==> (r matches Err(ConfigValueError::Failed { key: k, stderr: e }) && k@ == key@ && e@ == stderr@),
        success && trim(stdout@).len() == 0 ==> (r matches Err(ConfigValueError::Empty { key: k }) && k@ == key@),
        success && trim(stdout@).len() > 0 ==> (r matches Ok(v) && v@ == trim(stdout@)),
{
    if !success {
        return Err(ConfigValueError::Failed { key: owned(key), stderr: owned(stderr) });
    }
    let v = chars_of(stdout);
    let (a, b) = trim_bounds(&v, 0, v.len());
    proof {
        assert(v@.subrange(0, v@.len() as int) =~= v@);
    }
    if a == b {
        return Err(ConfigValueError::Empty { key: owned(key) });
    }
    Ok(string_of_range(&v, a, b))
}

} // verus!
