//! `cargo build` / `cargo check` of a feature's Rust crate: what is run and
//! how its outcome is read.

use vstd::prelude::*;
use crate::text::{chars_of, contains, find_in, lines, owned, push_str_chars, split_lines};

verus! {

/// Whether a line reports a compiler warning (`warning[…]` or `warning:`).
pub open spec fn is_warning_line(l: Seq<char>) -> bool {
    contains(l, "warning["@) || contains(l, "warning:"@)
}

/// Whether some line of the compiler's error output reports a warning.
pub fn has_build_warnings(stderr: &str) -> (b: bool)
    ensures
        b == exists|i: int| 0 <= i < lines(stderr@).len() && #[trigger] is_warning_line(lines(stderr@)[i]),
{
    let v = chars_of(stderr);
    let ls = split_lines(&v);
    let ghost lsv = ls@.map_values(|l: Vec<char>| l@);
    let p1 = chars_of("warning[");
    let p2 = chars_of("warning:");
    let mut i: usize = 0;
    proof {
        assert(lsv.len() == ls.len());
    }
    while i < ls.len()
        invariant
            i <= ls.len(),
            lsv == ls@.map_values(|l: Vec<char>| l@),
            lsv == lines(stderr@),
            p1@ == "warning["@,
            p2@ == "warning:"@,
            forall|j: int| 0 <= j < i ==> !#[trigger] is_warning_line(lsv[j]),
        decreases ls.len() - i,
    {
        let l = &ls[i];
        let a = find_in(l, 0, l.len(), &p1);
        let b = find_in(l, 0, l.len(), &p2);
        proof {
            assert(lsv[i as int] == l@);
            assert(l@.subrange(0, l@.len() as int) =~= l@);
            crate::text::lemma_find_spec(l@, p1@);
            crate::text::lemma_find_spec(l@, p2@);
        }
        if a.is_some() || b.is_some() {
            proof {
                if a.is_some() {
                    let k = a->0 as int;
                    assert(crate::text::matches_at(l@, k, p1@));
                    assert(contains(l@, "warning["@));
                } else {
                    let k = b->0 as int;
                    assert(crate::text::matches_at(l@, k, p2@));
                    assert(contains(l@, "warning:"@));
                }
                assert(is_warning_line(lsv[i as int]));
            }
            return true;
        }
        i = i + 1;
    }
    false
}

/// The two cargo runs.
#[derive(Debug, Clone, Copy, PartialEq, Eq, Structural)]
pub enum CargoStep {
    Build,
    Check,
}

impl CargoStep {
    /// The cargo subcommand.
    pub fn subcommand(&self) -> (s: &'static str)
        ensures
            s@ == match self {
                CargoStep::Build => "build"@,
                CargoStep::Check => "check"@,
            },
    {
        match self {
            CargoStep::Build => "build",
            CargoStep::Check => "check",
        }
    }

    /// The context given when cargo cannot be started.
    pub fn exec_error_message(&self) -> (s: &'static str)
        ensures
            s@ == match self {
                CargoStep::Build => "Failed to execute cargo build"@,
                CargoStep::Check => "Failed to execute cargo check"@,
            },
    {
        match self {
            CargoStep::Build => "Failed to execute cargo build",
            CargoStep::Check => "Failed to execute cargo check",
        }
    }

    /// The label of a failure.
    pub fn failure_label(&self) -> (s: &'static str)
        ensures
            s@ == match self {
                CargoStep::Build => "Build error"@,
                CargoStep::Check => "Check error"@,
            },
    {
        match self {
            CargoStep::Build => "Build error",
            CargoStep::Check => "Check error",
        }
    }

    /// The label of a success.
    pub fn success_label(&self) -> (s: &'static str)
        ensures
            s@ == match self {
                CargoStep::Build => "Build completed"@,
                CargoStep::Check => "Check completed"@,
            },
    {
        match self {
            CargoStep::Build => "Build completed",
            CargoStep::Check => "Check completed",
        }
    }
}

/// A cargo run that exited with a failure status.
pub struct CargoError {
    /// The step's failure label and the compiler output, as reported.
    pub message: String,
}

/// Reads the outcome of a cargo run: a failure carries `"<label>: <stderr>"`;
/// a success gives the compiler output where warnings were not suppressed
/// and some line reports one, else nothing.
pub fn cargo_outcome(step: CargoStep, success: bool, stderr: String, suppress_warnings: bool) -> (r: Result<Option<String>, CargoError>)
    ensures
        !success ==> (r matches Err(e) && e.message@ == (match step {
            CargoStep::Build => "Build error"@,
            CargoStep::Check => "Check error"@,
        }) + ": "@ + stderr@),
        success && !suppress_warnings && (exists|i: int| 0 <= i < lines(stderr@).len() && #[trigger] is_warning_line(lines(stderr@)[i]))
            ==> (r matches Ok(Some(w)) && w@ == stderr@),
        success && (suppress_warnings || !(exists|i: int| 0 <= i < lines(stderr@).len() && #[trigger] is_warning_line(lines(stderr@)[i])))
            ==> r matches Ok(None),
{
    if !success {
        let mut m = owned(step.failure_label());
        push_str_chars(&mut m, ": ");
        push_str_chars(&mut m, stderr.as_str());
        return Err(CargoError { message: m });
    }
    if !suppress_warnings && has_build_warnings(stderr.as_str()) {
        return Ok(Some(stderr));
    }
    Ok(None)
}

/// The arguments of the code analysis update: `--update --feature <feature>`,
/// then `--build-success` where a build with passing tests is reported.
pub fn code_analyse_update_args<'a>(feature: &'a str, build_success: bool) -> (r: Vec<&'a str>)
    ensures
        r@.map_values(|s: &str| s@) == if build_success {
            seq!["--update"@, "--feature"@, feature@, "--build-success"@]
        } else {
            seq!["--update"@, "--feature"@, feature@]
        },
{
    let mut args: Vec<&'a str> = Vec::new();
    args.push("--update");
    args.push("--feature");
    args.push(feature);
    if build_success {
        args.push("--build-success");
    }
    proof {
        if build_success {
            assert(args@.map_values(|s: &str| s@) =~= seq!["--update"@, "--feature"@, feature@, "--build-success"@]);
        } else {
            assert(args@.map_values(|s: &str| s@) =~= seq!["--update"@, "--feature"@, feature@]);
        }
    }
    args
}

/// The error reported when the code analysis update fails.
pub fn code_analyse_failure_message(feature: &str, build_success: bool, stdout: &str, stderr: &str) -> (s: String)
    ensures
        s@ == "code_analyse --update --feature "@ + feature@ + " "@ + (if build_success { "--build-success"@ } else {
            Seq::<char>::empty()
        }) + " failed:\nstdout: "@ + stdout@ + "\nstderr: "@ + stderr@,
{
    let mut s = owned("code_analyse --update --feature ");
    push_str_chars(&mut s, feature);
    push_str_chars(&mut s, " ");
    if build_success {
        push_str_chars(&mut s, "--build-success");
    }
    push_str_chars(&mut s, " failed:\nstdout: ");
    push_str_chars(&mut s, stdout);
    push_str_chars(&mut s, "\nstderr: ");
    push_str_chars(&mut s, stderr);
    proof {
        if !build_success {
            assert(s@ =~= "code_analyse --update --feature "@ + feature@ + " "@ + Seq::<char>::empty() + " failed:\nstdout: "@
                + stdout@ + "\nstderr: "@ + stderr@);
        }
    }
    s
}

} // verus!
