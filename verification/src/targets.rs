//! The build targets of a feature: the `targets.list` file and the user's pick among them.

use vstd::prelude::*;
use crate::text::{
    chars_of, contains_chars, decimal, lines, owned, parse_usize, parse_usize_range, push_decimal,
    push_str_chars, split_lines, string_of, string_of_range, sub_chars, trim, trim_bounds,
};

verus! {

/// Why a `targets.list` text gives no target.
pub enum TargetsError {
    /// Every line is empty or a `#` comment.
    NoValidTargets,
}

impl TargetsError {
    /// The text of the error.
    pub fn message(&self) -> (s: String)
        ensures
            s@ == "No valid targets found in targets.list"@,
    {
        owned("No valid targets found in targets.list")
    }
}

/// Whether a trimmed line names no target.
pub open spec fn is_blank_or_comment(t: Seq<char>) -> bool {
    t.len() == 0 || t[0] == '#'
}

/// The targets named by the first `n` lines: trimmed, without blank and `#`
/// lines, each once, in order of first appearance.
pub open spec fn targets_upto(ls: Seq<Seq<char>>, n: int) -> Seq<Seq<char>>
    decreases n,
{
    if n <= 0 {
        Seq::<Seq<char>>::empty()
    } else {
        let acc = targets_upto(ls, n - 1);
        let t = trim(ls[n - 1]);
        if is_blank_or_comment(t) || acc.contains(t) {
            acc
        } else {
            acc.push(t)
        }
    }
}

/// The targets that a `targets.list` text names.
pub open spec fn targets_of(content: Seq<char>) -> Seq<Seq<char>> {
    targets_upto(lines(content), lines(content).len() as int)
}

/// Reads the targets from the text of a `targets.list` file: one per line,
/// trimmed, skipping empty lines and `#` comments, each kept once in the
/// order of its first appearance.
pub fn read_targets_list(content: &str) -> (r: Result<Vec<String>, TargetsError>)
    ensures
        match r {
            Ok(v) => v@.map_values(|s: String| s@) == targets_of(content@) && v.len() > 0,
            Err(_) => targets_of(content@).len() == 0,
        },
{
    let v = chars_of(content);
    let ls = split_lines(&v);
    let ghost lsv = ls@.map_values(|l: Vec<char>| l@);
    proof {
        assert(lsv.len() == ls.len());
    }
    let mut acc: Vec<Vec<char>> = Vec::new();
    let mut i: usize = 0;
    while i < ls.len()
        invariant
            i <= ls.len(),
            lsv == ls@.map_values(|l: Vec<char>| l@),
            lsv == lines(content@),
            acc@.map_values(|l: Vec<char>| l@) == targets_upto(lsv, i as int),
        decreases ls.len() - i,
    {
        let l = &ls[i];
        proof {
            assert(lsv[i as int] == l@);
        }
        let (a, b) = trim_bounds(l, 0, l.len());
        proof {
            assert(l@.subrange(0, l@.len() as int) =~= l@);
        }
        let t = sub_chars(l, a, b);
        if t.len() > 0 && t[0] != '#' && !contains_chars(&acc, &t) {
            let ghost before = acc@.map_values(|l: Vec<char>| l@);
            acc.push(t);
            proof {
                assert(acc@.map_values(|l: Vec<char>| l@) =~= before.push(trim(lsv[i as int])));
            }
        }
        i = i + 1;
    }
    proof {
        assert(lsv.len() == lines(content@).len());
    }
    if acc.len() == 0 {
        proof {
            assert(acc@.map_values(|l: Vec<char>| l@).len() == 0);
        }
        return Err(TargetsError::NoValidTargets);
    }
    let mut out: Vec<String> = Vec::new();
    let mut j: usize = 0;
    while j < acc.len()
        invariant
            j <= acc.len(),
            out@.map_values(|s: String| s@) == acc@.map_values(|l: Vec<char>| l@).take(j as int),
        decreases acc.len() - j,
    {
        let ghost before = out@.map_values(|s: String| s@);
        out.push(string_of(&acc[j]));
        proof {
            assert(out@.map_values(|s: String| s@) =~= before.push(acc@[j as int]@));
            assert(acc@.map_values(|l: Vec<char>| l@).take(j + 1) =~= acc@.map_values(|l: Vec<char>| l@).take(
                j as int,
            ).push(acc@[j as int]@));
        }
        j = j + 1;
    }
    proof {
        assert(acc@.map_values(|l: Vec<char>| l@).take(acc.len() as int) =~= acc@.map_values(|l: Vec<char>| l@));
    }
    Ok(out)
}

/// Why a target pick was refused.
pub enum TargetSelectionError {
    /// Nothing but whitespace was entered.
    NoInput,
    /// The entry is not a number.
    InvalidNumber { text: String },
    /// The number lies outside `1..=total`.
    OutOfBounds { index: usize, total: usize },
}

impl TargetSelectionError {
    /// The text of the refusal.
    pub fn message(&self) -> (s: String)
        ensures
            s@ == match self {
                TargetSelectionError::NoInput => "No input provided. Please select a target."@,
                TargetSelectionError::InvalidNumber { text } => "Invalid number: "@ + text@,
                TargetSelectionError::OutOfBounds { index, total } => "Selection "@ + decimal(*index as nat)
                    + " is out of bounds (valid: 1-"@ + decimal(*total as nat) + ")"@,
            },
    {
        match self {
            TargetSelectionError::NoInput => owned("No input provided. Please select a target."),
            TargetSelectionError::InvalidNumber { text } => {
                let mut s = owned("Invalid number: ");
                push_str_chars(&mut s, text.as_str());
                s
            },
            TargetSelectionError::OutOfBounds { index, total } => {
                let mut s = owned("Selection ");
                push_decimal(&mut s, *index);
                push_str_chars(&mut s, " is out of bounds (valid: 1-");
                push_decimal(&mut s, *total);
                push_str_chars(&mut s, ")");
                s
            },
        }
    }
}

/// Reads the user's pick among `total_targets` targets: a 1-based number,
/// surrounding whitespace ignored; returns the 0-based index.
pub fn parse_target_selection(input: &str, total_targets: usize) -> (r: Result<usize, TargetSelectionError>)
    ensures
        match r {
            Ok(i) => trim(input@).len() > 0 && parse_usize(trim(input@)) == Some((i + 1) as nat)
                && i < total_targets,
            Err(TargetSelectionError::NoInput) => trim(input@).len() == 0,
            Err(TargetSelectionError::InvalidNumber { text }) => trim(input@).len() > 0
                && parse_usize(trim(input@)) is None && text@ == trim(input@),
            Err(TargetSelectionError::OutOfBounds { index, total }) => trim(input@).len() > 0
                && parse_usize(trim(input@)) == Some(index as nat) && (index < 1 || index > total_targets)
                && total == total_targets,
        },
{
    let v = chars_of(input);
    let (a, b) = trim_bounds(&v, 0, v.len());
    proof {
        assert(v@.subrange(0, v@.len() as int) =~= v@);
    }
    if a == b {
        return Err(TargetSelectionError::NoInput);
    }
    match parse_usize_range(&v, a, b) {
        None => Err(TargetSelectionError::InvalidNumber { text: string_of_range(&v, a, b) }),
        Some(index) => {
            if index < 1 || index > total_targets {
                Err(TargetSelectionError::OutOfBounds { index, total: total_targets })
            } else {
                Ok(index - 1)
            }
        },
    }
}

/// The first `n` texts of `s`, each kept at its first appearance only.
pub open spec fn distinct_in_order(s: Seq<Seq<char>>, n: int) -> Seq<Seq<char>>
    decreases n,
{
    if n <= 0 {
        Seq::<Seq<char>>::empty()
    } else {
        let acc = distinct_in_order(s, n - 1);
        if acc.contains(s[n - 1]) {
            acc
        } else {
            acc.push(s[n - 1])
        }
    }
}

/// The texts of `v`, each kept at its first appearance only.
pub fn distinct_strings(v: &Vec<String>) -> (r: Vec<String>)
    ensures
        crate::stats::texts(r@) == distinct_in_order(crate::stats::texts(v@), v.len() as int),
{
    let mut r: Vec<String> = Vec::new();
    let mut i: usize = 0;
    while i < v.len()
        invariant
            i <= v.len(),
            crate::stats::texts(r@) == distinct_in_order(crate::stats::texts(v@), i as int),
        decreases v.len() - i,
    {
        crate::stats::push_once(&mut r, crate::text::copy_string(&v[i]));
        proof {
            assert(crate::stats::texts(v@)[i as int] == v@[i as int]@);
        }
        i = i + 1;
    }
    r
}

/// The targets of a list are each named once, trimmed and not blank nor a comment.
pub proof fn lemma_targets_distinct(ls: Seq<Seq<char>>, n: int)
    requires
        0 <= n <= ls.len(),
    ensures
        targets_upto(ls, n).no_duplicates(),
        forall|i: int| 0 <= i < targets_upto(ls, n).len() ==> !is_blank_or_comment(#[trigger] targets_upto(ls, n)[i]),
    decreases n,
{
    if n > 0 {
        lemma_targets_distinct(ls, n - 1);
        let acc = targets_upto(ls, n - 1);
        let t = trim(ls[n - 1]);
        if !(is_blank_or_comment(t) || acc.contains(t)) {
            let nx = acc.push(t);
            assert forall|i: int, j: int| 0 <= i < nx.len() && 0 <= j < nx.len() && i != j implies nx[i] != nx[j] by {
                if i == acc.len() as int {
                    assert(nx[j] == acc[j]);
                } else if j == acc.len() as int {
                    assert(nx[i] == acc[i]);
                } else {
                    assert(nx[i] == acc[i] && nx[j] == acc[j]);
                }
            }
            assert forall|i: int| 0 <= i < nx.len() implies !is_blank_or_comment(#[trigger] nx[i]) by {
                if i < acc.len() {
                    assert(nx[i] == acc[i]);
                }
            }
        }
    }
}

} // verus!
