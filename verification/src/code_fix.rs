//! Local repairs of translated Rust code for build errors with a known cure,
//! and the file locations that an error output points at.

use vstd::prelude::*;
use crate::stats::texts;
use crate::errors::contains_str;
use crate::text::{contains, same_text};

verus! {

/// What `regex::Regex::new(pattern)` then `replace_all(text, replacement)`
/// gives, or `None` where the pattern does not compile.
pub uninterp spec fn regex_replaced(pattern: Seq<char>, text: Seq<char>, replacement: Seq<char>) -> Option<Seq<char>>;

/// What `regex::Regex::new(pattern)` then `captures_iter(text)` gives for
/// capture group `group`: for each match in order, the text of that group,
/// or `None` where the group took no part; `None` where the pattern does not compile.
pub uninterp spec fn regex_group_texts(pattern: Seq<char>, text: Seq<char>, group: nat) -> Option<Seq<Option<Seq<char>>>>;

/// The views of optional strings.
pub open spec fn opt_texts(v: Seq<Option<String>>) -> Seq<Option<Seq<char>>> {
    v.map_values(|o: Option<String>| match o {
        Some(t) => Some(t@),
        None => None,
    })
}

/// The texts that are there, in order.
pub open spec fn present(s: Seq<Option<Seq<char>>>) -> Seq<Seq<char>>
    decreases s.len(),
{
    if s.len() == 0 {
        Seq::<Seq<char>>::empty()
    } else {
        match s.last() {
            Some(t) => present(s.drop_last()).push(t),
            None => present(s.drop_last()),
        }
    }
}

/// The strings that are there, in order.
fn present_strings(v: &Vec<Option<String>>) -> (r: Vec<String>)
    ensures
        texts(r@) == present(opt_texts(v@)),
{
    let mut r: Vec<String> = Vec::new();
    let mut i: usize = 0;
    while i < v.len()
        invariant
            i <= v.len(),
            texts(r@) == present(opt_texts(v@).take(i as int)),
        decreases v.len() - i,
    {
        let ghost before = texts(r@);
        proof {
            assert(opt_texts(v@).take(i + 1).drop_last() =~= opt_texts(v@).take(i as int));
        }
        match &v[i] {
            Some(t) => {
                r.push(crate::text::copy_string(t));
                proof {
                    assert(texts(r@) =~= before.push(t@));
                }
            },
            None => {},
        }
        i = i + 1;
    }
    proof {
        assert(opt_texts(v@).take(v.len() as int) =~= opt_texts(v@));
    }
    r
}

/// Replaces every match of `pattern` in `text` (`Regex::replace_all`, `$name`
/// and `$1` expanding to capture groups); `None` where the pattern does not compile.
#[verifier::external_body]
fn regex_replace_all(pattern: &str, text: &str, replacement: &str) -> (r: Option<String>)
    ensures
        match r {
            Some(t) => regex_replaced(pattern@, text@, replacement@) == Some(t@),
            None => regex_replaced(pattern@, text@, replacement@) is None,
        },
{
    match regex::Regex::new(pattern) {
        Ok(re) => Some(re.replace_all(text, replacement).into_owned()),
        Err(_) => None,
    }
}

/// The texts of capture group `group` over all matches of `pattern` in
/// `text` (`Regex::captures_iter`); `None` where the pattern does not compile.
#[verifier::external_body]
fn regex_captures_group(pattern: &str, text: &str, group: usize) -> (r: Option<Vec<Option<String>>>)
    ensures
        match r {
            Some(v) => regex_group_texts(pattern@, text@, group as nat) == Some(opt_texts(v@)),
            None => regex_group_texts(pattern@, text@, group as nat) is None,
        },
{
    match regex::Regex::new(pattern) {
        Ok(re) => Some(re.captures_iter(text).map(|c| c.get(group).map(|m| m.as_str().to_string())).collect()),
        Err(_) => None,
    }
}

/// The outcome of a local repair.
pub enum Repair {
    /// The error is not one this repair cures, or nothing matched.
    Unchanged,
    /// The repaired source.
    Updated(String),
    /// A pattern of the repair did not compile.
    BadPattern,
}

/// The outcome for a source after one replacement: updated where it changed.
pub open spec fn repair_outcome(source: Seq<char>, replaced: Option<Seq<char>>) -> Option<Option<Seq<char>>> {
    match replaced {
        None => None,
        Some(t) => if t == source { Some(None) } else { Some(Some(t)) },
    }
}

/// How a repair outcome compares with its specification.
pub open spec fn repair_is(r: Repair, o: Option<Option<Seq<char>>>) -> bool {
    match o {
        None => r is BadPattern,
        Some(None) => r is Unchanged,
        Some(Some(t)) => r matches Repair::Updated(u) && u@ == t,
    }
}

fn outcome_of(source: &str, replaced: Option<String>) -> (r: Repair)
    ensures
        repair_is(r, repair_outcome(source@, match replaced { Some(t) => Some(t@), None => None })),
{
    match replaced {
        None => Repair::BadPattern,
        Some(t) => if same_text(t.as_str(), source) {
            Repair::Unchanged
        } else {
            Repair::Updated(t)
        },
    }
}

/// The pattern of a C string slice cast back to a pointer.
pub open spec fn slice_cast_pattern() -> Seq<char> {
    r#"unsafe\s*\{\s*&(?P<lit>c"((?:\\.|[^"\\])*)"\.as_ptr\(\))\s+as\s+\*const\s+\[::core::ffi::c_char\]\s*\}\s*\.as_ptr\(\)"#@
}

/// Repairs `unsafe { &c"…".as_ptr() as *const [c_char] }.as_ptr()` into the
/// plain `c"…".as_ptr()`, for errors about `slice_ptr_get` or a cast of `&*const`.
pub fn fix_c_string_slice_pointer_cast(source: &str, build_error: &str) -> (r: Repair)
    ensures
        !(contains(build_error@, "slice_ptr_get"@) || contains(build_error@, "casting `&*const"@)) ==> r is Unchanged,
        contains(build_error@, "slice_ptr_get"@) || contains(build_error@, "casting `&*const"@) ==> repair_is(
            r,
            repair_outcome(source@, regex_replaced(slice_cast_pattern(), source@, "$lit"@)),
        ),
{
    if !contains_str(build_error, "slice_ptr_get") && !contains_str(build_error, "casting `&*const") {
        return Repair::Unchanged;
    }
    let pattern = r#"unsafe\s*\{\s*&(?P<lit>c"((?:\\.|[^"\\])*)"\.as_ptr\(\))\s+as\s+\*const\s+\[::core::ffi::c_char\]\s*\}\s*\.as_ptr\(\)"#;
    let replaced = regex_replace_all(pattern, source, "$lit");
    outcome_of(source, replaced)
}

/// The pattern of an `Option` function field unwrapped where a function pointer is expected.
pub open spec fn fn_unwrap_pattern() -> Seq<char> {
    r#"(?P<prefix>[A-Za-z_][A-Za-z0-9_\[\]\.\(\)\s]*?)\.func\.unwrap\(\)"#@
}

/// Repairs `x.func.unwrap()` into `x.func`, for errors that expected an
/// `Option<…>` and found a function pointer.
pub fn fix_option_fn_unwrap_mismatch(source: &str, build_error: &str) -> (r: Repair)
    ensures
        !(contains(build_error@, "expected enum `Option<"@) && contains(build_error@, "found fn pointer"@)) ==> r is Unchanged,
        contains(build_error@, "expected enum `Option<"@) && contains(build_error@, "found fn pointer"@) ==> repair_is(
            r,
            repair_outcome(source@, regex_replaced(fn_unwrap_pattern(), source@, "${prefix}.func"@)),
        ),
{
    if !contains_str(build_error, "expected enum `Option<") || !contains_str(build_error, "found fn pointer") {
        return Repair::Unchanged;
    }
    let pattern = r#"(?P<prefix>[A-Za-z_][A-Za-z0-9_\[\]\.\(\)\s]*?)\.func\.unwrap\(\)"#;
    let replaced = regex_replace_all(pattern, source, "${prefix}.func");
    outcome_of(source, replaced)
}

/// The pattern of a NUL-terminated byte string cast to a C string pointer.
pub open spec fn char_literal_pattern() -> Seq<char> {
    r#"b"((?:\\.|[^"\\])*)\\0"\.as_ptr\(\)\s+as\s+\*const\s+::core::ffi::c_char"#@
}

/// Rewrites `b"…\0".as_ptr() as *const ::core::ffi::c_char` into the C string
/// literal `c"…".as_ptr()`.
pub fn normalize_c_char_literal_ptrs(source: &str) -> (r: Repair)
    ensures
        repair_is(r, repair_outcome(source@, regex_replaced(char_literal_pattern(), source@, r#"c"$1".as_ptr()"#@))),
{
    let pattern = r#"b"((?:\\.|[^"\\])*)\\0"\.as_ptr\(\)\s+as\s+\*const\s+::core::ffi::c_char"#;
    let replaced = regex_replace_all(pattern, source, r#"c"$1".as_ptr()"#);
    outcome_of(source, replaced)
}

/// The pattern of a location that an error output points at: `--> path.rs`
/// or `at path.rs`, with an optional `:line:column`.
pub open spec fn error_path_pattern() -> Seq<char> {
    r"(?:-->|at)\s+([^\s:]+\.rs)(?::\d+:\d+)?"@
}

/// The Rust file paths an error output points at, in order of appearance,
/// each once.
pub fn error_path_candidates(error_msg: &str) -> (r: Vec<String>)
    ensures
        match regex_group_texts(error_path_pattern(), error_msg@, 1) {
            Some(ps) => texts(r@) == crate::targets::distinct_in_order(present(ps), present(ps).len() as int),
            None => r.len() == 0,
        },
{
    let found = regex_captures_group(r"(?:-->|at)\s+([^\s:]+\.rs)(?::\d+:\d+)?", error_msg, 1);
    match found {
        None => Vec::new(),
        Some(v) => crate::targets::distinct_strings(&present_strings(&v)),
    }
}

/// The replacement that makes `name.as_mut_ptr()` go through `addr_of_mut!`.
pub open spec fn addr_of_mut_replacement() -> Seq<char> {
    "::core::ptr::addr_of_mut!($1).cast()"@
}

/// The patterns of the static-array repair, in the order they apply.
pub open spec fn raw_mut_ptr_pattern() -> Seq<char> {
    r"\(&raw mut\s+([A-Za-z_][A-Za-z0-9_]*)\)\.as_mut_ptr\(\)"@
}

pub open spec fn mut_ptr_pattern() -> Seq<char> {
    r"\b([A-Za-z_][A-Za-z0-9_]*)\.as_mut_ptr\(\)"@
}

pub open spec fn array_len_pattern() -> Seq<char> {
    r"\*const\s+\[[^;\]]+;\s*([0-9_]+)\]"@
}

pub open spec fn size_of_val_pattern() -> Seq<char> {
    r"core::mem::size_of_val\(&([A-Za-z_][A-Za-z0-9_]*)\)"@
}

pub open spec fn raw_const_len_pattern() -> Seq<char> {
    r"\(&raw const\s+([A-Za-z_][A-Za-z0-9_]*)\)\.len\(\)"@
}

pub open spec fn len_call_pattern() -> Seq<char> {
    r"\b([A-Za-z_][A-Za-z0-9_]*)\.len\(\)"@
}

/// Whether an error output is about references to a mutable static.
pub open spec fn mentions_static_mut(e: Seq<char>) -> bool {
    contains(e, "static_mut_refs"@) || contains(e, "creating a mutable reference to mutable static"@) || contains(
        e,
        "creating a shared reference to mutable static"@,
    ) || contains(e, "array_ptr_get"@)
}

/// What the static-array repair makes of `source` (see [`fix_static_mut_array_pointer_access`]).
pub open spec fn static_array_fix(source: Seq<char>, e: Seq<char>) -> Option<Option<Seq<char>>> {
    match regex_replaced(raw_mut_ptr_pattern(), source, addr_of_mut_replacement()) {
        None => None,
        Some(s1) => match regex_replaced(mut_ptr_pattern(), s1, addr_of_mut_replacement()) {
            None => None,
            Some(s2) => match regex_group_texts(array_len_pattern(), e, 1) {
                None => None,
                Some(lens) => if lens.len() == 0 || lens[0] is None {
                    repair_outcome(source, Some(s2))
                } else {
                    let len = lens[0]->0;
                    match regex_replaced(size_of_val_pattern(), s2, len) {
                        None => None,
                        Some(s3) => match regex_replaced(raw_const_len_pattern(), s3, len) {
                            None => None,
                            Some(s4) => repair_outcome(source, regex_replaced(len_call_pattern(), s4, len)),
                        },
                    }
                },
            },
        },
    }
}

/// Repairs pointer access to a mutable static array for errors about
/// `static_mut_refs`, references to a mutable static or `array_ptr_get`:
/// `x.as_mut_ptr()` (also on `&raw mut x`) becomes
/// `::core::ptr::addr_of_mut!(x).cast()`, and where the error names the
/// array's length, `size_of_val(&x)` and `x.len()` become that length.
pub fn fix_static_mut_array_pointer_access(source: &str, build_error: &str) -> (r: Repair)
    ensures
        !mentions_static_mut(build_error@) ==> r is Unchanged,
        mentions_static_mut(build_error@) ==> repair_is(r, static_array_fix(source@, build_error@)),
        mentions_static_mut(build_error@) && !(r is BadPattern) ==> ({
            let s1 = regex_replaced(raw_mut_ptr_pattern(), source@, addr_of_mut_replacement());
            let s2 = regex_replaced(mut_ptr_pattern(), s1->0, addr_of_mut_replacement());
            &&& s1 is Some
            &&& s2 is Some
            &&& regex_group_texts(array_len_pattern(), build_error@, 1) is Some
            &&& ({
                let lens = regex_group_texts(array_len_pattern(), build_error@, 1)->0;
                (lens.len() == 0 || lens[0] is None) ==> if s2->0 == source@ {
                    r is Unchanged
                } else {
                    r matches Repair::Updated(u) && u@ == s2->0
                }
            })
        }),
{
    let m = contains_str(build_error, "static_mut_refs") || contains_str(
        build_error,
        "creating a mutable reference to mutable static",
    ) || contains_str(build_error, "creating a shared reference to mutable static") || contains_str(
        build_error,
        "array_ptr_get",
    );
    if !m {
        return Repair::Unchanged;
    }
    let rep = "::core::ptr::addr_of_mut!($1).cast()";
    let s1 = match regex_replace_all(r"\(&raw mut\s+([A-Za-z_][A-Za-z0-9_]*)\)\.as_mut_ptr\(\)", source, rep) {
        None => return Repair::BadPattern,
        Some(t) => t,
    };
    let s2 = match regex_replace_all(r"\b([A-Za-z_][A-Za-z0-9_]*)\.as_mut_ptr\(\)", s1.as_str(), rep) {
        None => return Repair::BadPattern,
        Some(t) => t,
    };
    let lens = match regex_captures_group(r"\*const\s+\[[^;\]]+;\s*([0-9_]+)\]", build_error, 1) {
        None => return Repair::BadPattern,
        Some(v) => v,
    };
    if lens.len() == 0 {
        proof {
            assert(opt_texts(lens@).len() == 0);
        }
        return outcome_of(source, Some(s2));
    }
    let len_text = match &lens[0] {
        None => {
            proof {
                assert(opt_texts(lens@)[0] is None);
            }
            return outcome_of(source, Some(s2));
        },
        Some(t) => {
            proof {
                assert(opt_texts(lens@)[0] == Some(t@));
            }
            t.as_str()
        },
    };
    let s3 = match regex_replace_all(r"core::mem::size_of_val\(&([A-Za-z_][A-Za-z0-9_]*)\)", s2.as_str(), len_text) {
        None => return Repair::BadPattern,
        Some(t) => t,
    };
    let s4 = match regex_replace_all(r"\(&raw const\s+([A-Za-z_][A-Za-z0-9_]*)\)\.len\(\)", s3.as_str(), len_text) {
        None => return Repair::BadPattern,
        Some(t) => t,
    };
    let s5 = regex_replace_all(r"\b([A-Za-z_][A-Za-z0-9_]*)\.len\(\)", s4.as_str(), len_text);
    outcome_of(source, s5)
}

/// The local repairs, tried in order until one changes the source: the
/// static-array access, the C string slice cast, the unwrapped function field.
pub fn local_repair(source: &str, build_error: &str) -> (r: Repair)
    ensures
        ({
            let a = if mentions_static_mut(build_error@) { static_array_fix(source@, build_error@) } else { Some(None) };
            let b = if contains(build_error@, "slice_ptr_get"@) || contains(build_error@, "casting `&*const"@) {
                repair_outcome(source@, regex_replaced(slice_cast_pattern(), source@, "$lit"@))
            } else {
                Some(None)
            };
            let c = if contains(build_error@, "expected enum `Option<"@) && contains(build_error@, "found fn pointer"@) {
                repair_outcome(source@, regex_replaced(fn_unwrap_pattern(), source@, "${prefix}.func"@))
            } else {
                Some(None)
            };
            if a != Some(None::<Seq<char>>) {
                repair_is(r, a)
            } else if b != Some(None::<Seq<char>>) {
                repair_is(r, b)
            } else {
                repair_is(r, c)
            }
        }),
{
    match fix_static_mut_array_pointer_access(source, build_error) {
        Repair::Unchanged => {},
        other => return other,
    }
    match fix_c_string_slice_pointer_cast(source, build_error) {
        Repair::Unchanged => {},
        other => return other,
    }
    fix_option_fn_unwrap_mismatch(source, build_error)
}


/// The pattern of an error location `--> path:line:column`.
pub open spec fn location_pattern() -> Seq<char> {
    r"--> ([^:]+):(\d+):(\d+)"@
}

/// The pattern of a line that calls a function, alone or as the value of a
/// `let` or a `return`, up to its `;`.
pub open spec fn call_line_pattern() -> Seq<char> {
    r"^(?P<indent>\s*)(?P<prefix>(?:let\s+[^=]+=\s*|return\s+)?)(?P<call>[A-Za-z_][A-Za-z0-9_]*\s*\([^;]*\))(?P<suffix>\s*;.*)$"@
}

/// The same line with the call wrapped in an `unsafe` block.
pub open spec fn call_line_replacement() -> Seq<char> {
    "${indent}${prefix}unsafe { ${call} }${suffix}"@
}

/// `s` with each backslash turned into a slash.
pub open spec fn forward_slashes(s: Seq<char>) -> Seq<char> {
    Seq::new(s.len(), |i: int| if s[i] == '\\' { '/' } else { s[i] })
}

/// `s` ends with `t`.
pub open spec fn ends_with(s: Seq<char>, t: Seq<char>) -> bool {
    t.len() <= s.len() && s.subrange(s.len() - t.len(), s.len() as int) == t
}

/// The lines after the first `k` error locations were handled, and whether
/// any changed; `None` where the call pattern did not compile. A location
/// counts where its path ends with `expected` and its line number names a
/// line that holds no `unsafe {` yet; that line then gets its call wrapped.
pub open spec fn wrapped_lines(
    ls: Seq<Seq<char>>,
    paths: Seq<Option<Seq<char>>>,
    nums: Seq<Option<Seq<char>>>,
    expected: Seq<char>,
    k: int,
) -> Option<(Seq<Seq<char>>, bool)>
    decreases k,
{
    if k <= 0 {
        Some((ls, false))
    } else {
        match wrapped_lines(ls, paths, nums, expected, k - 1) {
            None => None,
            Some((cur, changed)) => match (paths[k - 1], nums[k - 1]) {
                (Some(path), Some(num)) => {
                    if !ends_with(forward_slashes(path), expected) {
                        Some((cur, changed))
                    } else {
                        match crate::text::parse_usize(num) {
                            None => Some((cur, changed)),
                            Some(n) => {
                                if n < 1 || n > cur.len() || contains(cur[n - 1], "unsafe {"@) {
                                    Some((cur, changed))
                                } else {
                                    match regex_replaced(call_line_pattern(), cur[n - 1], call_line_replacement()) {
                                        None => None,
                                        Some(t) => if t == cur[n - 1] {
                                            Some((cur, changed))
                                        } else {
                                            Some((cur.update(n - 1, t), true))
                                        },
                                    }
                                }
                            },
                        }
                    }
                },
                _ => Some((cur, changed)),
            },
        }
    }
}

/// The repair for error E0133 (a call to an unsafe function outside an
/// `unsafe` block): at each location in `rel_path` that the error names, the
/// call on that line is wrapped in `unsafe { … }`. `None` where a pattern
/// did not compile, `Some(None)` where nothing changed.
pub open spec fn e0133_outcome(source: Seq<char>, error: Seq<char>, rel_path: Option<Seq<char>>) -> Option<Option<Seq<char>>> {
    if !contains(error, "error[E0133]: call to unsafe function"@) {
        Some(None)
    } else {
        match rel_path {
            None => Some(None),
            Some(rel) => match (
                regex_group_texts(location_pattern(), error, 1),
                regex_group_texts(location_pattern(), error, 2),
            ) {
                (Some(ps), Some(ns)) => {
                    let k = if ps.len() < ns.len() { ps.len() } else { ns.len() };
                    match wrapped_lines(crate::text::lines(source), ps, ns, forward_slashes(rel), k as int) {
                        None => None,
                        Some((ls, changed)) => if !changed {
                            Some(None)
                        } else if source.len() > 0 && source.last() == '\n' {
                            Some(Some(crate::merger::join_lines(ls) + seq!['\n']))
                        } else {
                            Some(Some(crate::merger::join_lines(ls)))
                        },
                    }
                },
                _ => None,
            },
        }
    }
}

proof fn lemma_wrapped_stays_none(
    ls: Seq<Seq<char>>,
    paths: Seq<Option<Seq<char>>>,
    nums: Seq<Option<Seq<char>>>,
    expected: Seq<char>,
    m: int,
    k: int,
)
    requires
        wrapped_lines(ls, paths, nums, expected, m) is None,
        m <= k,
    ensures
        wrapped_lines(ls, paths, nums, expected, k) is None,
    decreases k - m,
{
    if m < k {
        lemma_wrapped_stays_none(ls, paths, nums, expected, m + 1, k);
    }
}

fn forward_slashed(s: &str) -> (r: Vec<char>)
    ensures
        r@ == forward_slashes(s@),
{
    let v = crate::text::chars_of(s);
    let mut r: Vec<char> = Vec::new();
    let mut i: usize = 0;
    while i < v.len()
        invariant
            i <= v.len(),
            v@ == s@,
            r@ == forward_slashes(v@.take(i as int)),
        decreases v.len() - i,
    {
        let c = if v[i] == '\\' { '/' } else { v[i] };
        r.push(c);
        proof {
            assert(forward_slashes(v@.take(i + 1)) =~= forward_slashes(v@.take(i as int)).push(c));
        }
        i = i + 1;
    }
    proof {
        assert(v@.take(v.len() as int) =~= v@);
    }
    r
}

fn ends_with_chars(s: &Vec<char>, t: &Vec<char>) -> (b: bool)
    ensures
        b == ends_with(s@, t@),
{
    if t.len() > s.len() {
        return false;
    }
    let off = s.len() - t.len();
    let mut i: usize = 0;
    while i < t.len()
        invariant
            i <= t.len(),
            off + t.len() == s.len(),
            forall|j: int| 0 <= j < i ==> s@[off + j] == t@[j],
        decreases t.len() - i,
    {
        if s[off + i] != t[i] {
            proof {
                assert(s@.subrange(off as int, s.len() as int)[i as int] != t@[i as int]);
            }
            return false;
        }
        i = i + 1;
    }
    proof {
        assert(s@.subrange(off as int, s.len() as int) =~= t@);
    }
    true
}

fn join_with_newlines(ls: &Vec<String>) -> (r: String)
    ensures
        r@ == crate::merger::join_lines(texts(ls@)),
{
    let mut r = String::new();
    let mut i: usize = 0;
    while i < ls.len()
        invariant
            i <= ls.len(),
            r@ == crate::merger::join_lines(texts(ls@).take(i as int)),
        decreases ls.len() - i,
    {
        if i > 0 {
            crate::text::push_str_chars(&mut r, "\n");
        }
        crate::text::push_str_chars(&mut r, ls[i].as_str());
        proof {
            let t = texts(ls@).take(i + 1);
            assert(t.drop_last() =~= texts(ls@).take(i as int));
            assert(t.last() == ls@[i as int]@);
            if i > 0 {
                reveal_strlit("\n");
                assert("\n"@ =~= seq!['\n']);
            } else {
                assert(texts(ls@).take(0) =~= Seq::<Seq<char>>::empty());
                assert(t.len() == 1);
            }
        }
        i = i + 1;
    }
    proof {
        assert(texts(ls@).take(ls.len() as int) =~= texts(ls@));
    }
    r
}

/// Wraps in `unsafe { … }` the calls that error E0133 points at in the file
/// `rel_path` (relative to the project root; backslashes count as slashes).
pub fn wrap_unsafe_call_from_e0133(source: &str, build_error: &str, rel_path: Option<&str>) -> (r: Repair)
    ensures
        repair_is(r, e0133_outcome(source@, build_error@, match rel_path { Some(p) => Some(p@), None => None })),
{
    if !contains_str(build_error, "error[E0133]: call to unsafe function") {
        return Repair::Unchanged;
    }
    let expected = match rel_path {
        None => return Repair::Unchanged,
        Some(p) => forward_slashed(p),
    };
    let pattern = r"--> ([^:]+):(\d+):(\d+)";
    let found_paths = regex_captures_group(pattern, build_error, 1);
    let found_nums = regex_captures_group(pattern, build_error, 2);
    let (paths, nums) = match (found_paths, found_nums) {
        (Some(a), Some(b)) => (a, b),
        _ => return Repair::BadPattern,
    };
    let k: usize = if paths.len() < nums.len() { paths.len() } else { nums.len() };
    let sv = crate::text::chars_of(source);
    let split = crate::text::split_lines(&sv);
    let mut ls: Vec<String> = Vec::new();
    let mut j: usize = 0;
    while j < split.len()
        invariant
            j <= split.len(),
            texts(ls@) == split@.map_values(|l: Vec<char>| l@).take(j as int),
        decreases split.len() - j,
    {
        let line = crate::text::string_of(&split[j]);
        let ghost before = texts(ls@);
        ls.push(line);
        proof {
            assert(texts(ls@) =~= before.push(split@[j as int]@));
            assert(split@.map_values(|l: Vec<char>| l@).take(j + 1) =~= split@.map_values(|l: Vec<char>| l@).take(
                j as int,
            ).push(split@[j as int]@));
        }
        j = j + 1;
    }
    proof {
        assert(split@.map_values(|l: Vec<char>| l@).take(split.len() as int) =~= split@.map_values(|l: Vec<char>| l@));
    }
    let ghost ls0 = crate::text::lines(source@);
    let mut changed = false;
    let mut i: usize = 0;
    while i < k
        invariant
            i <= k,
            k <= paths.len(),
            k <= nums.len(),
            wrapped_lines(ls0, opt_texts(paths@), opt_texts(nums@), expected@, i as int) == Some((texts(ls@), changed)),
            regex_group_texts(location_pattern(), build_error@, 1) == Some(opt_texts(paths@)),
            regex_group_texts(location_pattern(), build_error@, 2) == Some(opt_texts(nums@)),
            k == (if paths.len() < nums.len() { paths.len() } else { nums.len() }),
            contains(build_error@, "error[E0133]: call to unsafe function"@),
            rel_path matches Some(p) && expected@ == forward_slashes(p@),
            ls0 == crate::text::lines(source@),
        decreases k - i,
    {
        let (path_text, num_text): (&str, &str) = match (&paths[i], &nums[i]) {
            (Some(a), Some(b)) => (a.as_str(), b.as_str()),
            _ => {
                proof {
                    assert(opt_texts(paths@)[i as int] is None || opt_texts(nums@)[i as int] is None);
                }
                i = i + 1;
                continue;
            },
        };
        proof {
            assert(opt_texts(paths@)[i as int] == Some(path_text@));
            assert(opt_texts(nums@)[i as int] == Some(num_text@));
        }
        let path = forward_slashed(path_text);
        if ends_with_chars(&path, &expected) {
            let nv = crate::text::chars_of(num_text);
            let parsed = crate::text::parse_usize_range(&nv, 0, nv.len());
            proof {
                assert(nv@.subrange(0, nv.len() as int) =~= nv@);
            }
            match parsed {
                None => {},
                Some(n) => {
                    if n >= 1 && n <= ls.len() {
                        proof {
                            assert(texts(ls@)[n - 1] == ls@[n - 1]@);
                        }
                        if !contains_str(ls[n - 1].as_str(), "unsafe {") {
                            let replaced = regex_replace_all(
                                r"^(?P<indent>\s*)(?P<prefix>(?:let\s+[^=]+=\s*|return\s+)?)(?P<call>[A-Za-z_][A-Za-z0-9_]*\s*\([^;]*\))(?P<suffix>\s*;.*)$",
                                ls[n - 1].as_str(),
                                "${indent}${prefix}unsafe { ${call} }${suffix}",
                            );
                            match replaced {
                                None => {
                                    proof {
                                        lemma_wrapped_stays_none(
                                            ls0,
                                            opt_texts(paths@),
                                            opt_texts(nums@),
                                            expected@,
                                            i + 1,
                                            k as int,
                                        );
                                    }
                                    return Repair::BadPattern;
                                },
                                Some(t) => {
                                    if !same_text(t.as_str(), ls[n - 1].as_str()) {
                                        let ghost before = texts(ls@);
                                        let ghost tv = t@;
                                        ls.set(n - 1, t);
                                        changed = true;
                                        proof {
                                            assert(texts(ls@) =~= before.update(n - 1, tv));
                                        }
                                    }
                                },
                            }
                        }
                    }
                },
            }
        }
        i = i + 1;
    }
    proof {
        assert(opt_texts(paths@).len() == paths.len());
        assert(opt_texts(nums@).len() == nums.len());
        assert(sv@ == source@);
    }
    if !changed {
        return Repair::Unchanged;
    }
    let mut updated = join_with_newlines(&ls);
    let ghost joined = updated@;
    if sv.len() > 0 && sv[sv.len() - 1] == '\n' {
        crate::text::push_str_chars(&mut updated, "\n");
        proof {
            reveal_strlit("\n");
            assert(updated@ =~= joined + seq!['\n']);
            assert(source@.last() == '\n');
        }
    } else {
        proof {
            assert(!(source@.len() > 0 && source@.last() == '\n'));
        }
    }
    proof {
        let ps = opt_texts(paths@);
        let ns = opt_texts(nums@);
        assert(i == k);
        assert(wrapped_lines(ls0, ps, ns, expected@, k as int) == Some((texts(ls@), changed)));
    }
    Repair::Updated(updated)
}

} // verus!
