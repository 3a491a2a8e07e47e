//! Arguments of the translation script, and how much of its input and
//! output is previewed.

use vstd::prelude::*;

verus! {

/// The arguments of a fix run of the translation script, in order.
pub open spec fn fix_args(
    script: Seq<char>,
    config: Seq<char>,
    c_code: Seq<char>,
    rust_code: Seq<char>,
    output: Seq<char>,
    error: Seq<char>,
    suggestion: Option<Seq<char>>,
) -> Seq<Seq<char>> {
    let base = seq![
        script,
        "--config"@,
        config,
        "--type"@,
        "syntax_fix"@,
        "--c_code"@,
        c_code,
        "--rust_code"@,
        rust_code,
        "--output"@,
        output,
        "--error"@,
        error,
    ];
    match suggestion {
        Some(s) => base + seq!["--suggestion"@, s],
        None => base,
    }
}

/// Builds the argument list for a fix run: the script, then the
/// configuration, `syntax_fix`, the C source, the Rust file to fix, the
/// output file, the error file and, if there is one, the suggestion file.
pub fn build_fix_args<'a>(
    script_path: &'a str,
    config_path: &'a str,
    c_code_file: &'a str,
    rust_code_file: &'a str,
    output_file: &'a str,
    error_file: &'a str,
    suggestion_file: Option<&'a str>,
) -> (r: Vec<&'a str>)
    ensures
        r@.map_values(|s: &str| s@) == fix_args(
            script_path@,
            config_path@,
            c_code_file@,
            rust_code_file@,
            output_file@,
            error_file@,
            match suggestion_file {
                Some(s) => Some(s@),
                None => None,
            },
        ),
{
    let mut args: Vec<&'a str> = Vec::new();
    args.push(script_path);
    args.push("--config");
    args.push(config_path);
    args.push("--type");
    args.push("syntax_fix");
    args.push("--c_code");
    args.push(c_code_file);
    args.push("--rust_code");
    args.push(rust_code_file);
    args.push("--output");
    args.push(output_file);
    args.push("--error");
    args.push(error_file);
    match suggestion_file {
        Some(s) => {
            args.push("--suggestion");
            args.push(s);
        },
        None => {},
    }
    proof {
        let sug = match suggestion_file {
            Some(s) => Some(s@),
            None => None,
        };
        assert(args@.map_values(|s: &str| s@) =~= fix_args(
            script_path@,
            config_path@,
            c_code_file@,
            rust_code_file@,
            output_file@,
            error_file@,
            sug,
        ));
    }
    args
}

/// How many of `total_lines` lines a preview shows: all of them when the
/// full output is asked for, else at most `max_lines`.
pub fn preview_line_count(total_lines: usize, max_lines: usize, show_full: bool) -> (n: usize)
    ensures
        n == if show_full || total_lines <= max_lines { total_lines } else { max_lines },
{
    if show_full {
        total_lines
    } else if total_lines < max_lines {
        total_lines
    } else {
        max_lines
    }
}

} // verus!
