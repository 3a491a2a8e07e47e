//! Names of the per-item Rust files: `var_<name>.rs` for a global variable,
//! `fun_<name>.rs` for a function.

use vstd::prelude::*;
use crate::text::{starts_with_text, strip_prefix_text};

verus! {

/// The kind and the item name that a file name announces.
pub open spec fn file_type_of(filename: Seq<char>) -> Option<(Seq<char>, Seq<char>)> {
    if "var_"@.is_prefix_of(filename) {
        Some(("var"@, filename.skip(4)))
    } else if "fun_"@.is_prefix_of(filename) {
        Some(("fn"@, filename.skip(4)))
    } else {
        None
    }
}

/// Splits `var_x` into `("var", "x")` and `fun_x` into `("fn", "x")`;
/// any other name gives `None`.
pub fn extract_file_type(filename: &str) -> (r: Option<(&'static str, String)>)
    ensures
        match r {
            Some((kind, rest)) => file_type_of(filename@) == Some((kind@, rest@)),
            None => file_type_of(filename@) is None,
        },
{
    proof {
        reveal_strlit("var_");
        reveal_strlit("fun_");
    }
    match strip_prefix_text(filename, "var_") {
        Some(rest) => Some(("var", rest)),
        None => match strip_prefix_text(filename, "fun_") {
            Some(rest) => Some(("fn", rest)),
            None => None,
        },
    }
}

/// Whether a file stem names an item file to translate (`var_…` or `fun_…`).
pub fn is_translatable_stem(stem: &str) -> (b: bool)
    ensures
        b == ("var_"@.is_prefix_of(stem@) || "fun_"@.is_prefix_of(stem@)),
{
    starts_with_text(stem, "var_") || starts_with_text(stem, "fun_")
}

/// Whether a file name is a crate root (`lib.rs`, `main.rs`), never a fix target.
pub open spec fn is_crate_root(name: Seq<char>) -> bool {
    name == "lib.rs"@ || name == "main.rs"@
}

/// The file to run the start-up fix loops on, among Rust files (in the order
/// found) that have a C companion: the first `var_`/`fun_` file with its
/// kind, else the first other file that is not a crate root, as `var`.
pub fn pick_fallback_file(names: &Vec<String>) -> (r: Option<(usize, &'static str)>)
    ensures
        match r {
            Some((i, kind)) => i < names.len() && !is_crate_root(names@[i as int]@) && (
                if "var_"@.is_prefix_of(names@[i as int]@) {
                    kind@ == "var"@ && forall|j: int| 0 <= j < i ==> !#[trigger] is_item_file(names@[j]@)
                } else if "fun_"@.is_prefix_of(names@[i as int]@) {
                    kind@ == "fun"@ && forall|j: int| 0 <= j < i ==> !#[trigger] is_item_file(names@[j]@)
                } else {
                    kind@ == "var"@
                    && (forall|j: int| 0 <= j < names.len() ==> !#[trigger] is_item_file(names@[j]@))
                    && (forall|j: int| 0 <= j < i ==> #[trigger] is_crate_root(names@[j]@))
                }),
            None => forall|j: int| 0 <= j < names.len() ==> #[trigger] is_crate_root(names@[j]@),
        },
{
    let mut generic: Option<usize> = None;
    let mut i: usize = 0;
    while i < names.len()
        invariant
            i <= names.len(),
            forall|j: int| 0 <= j < i ==> !#[trigger] is_item_file(names@[j]@),
            match generic {
                Some(g) => g < i && !is_crate_root(names@[g as int]@) && forall|j: int| 0 <= j < g ==> #[trigger] is_crate_root(names@[j]@),
                None => forall|j: int| 0 <= j < i ==> #[trigger] is_crate_root(names@[j]@),
            },
        decreases names.len() - i,
    {
        let n = names[i].as_str();
        let root = crate::text::same_text(n, "lib.rs") || crate::text::same_text(n, "main.rs");
        if !root {
            if starts_with_text(n, "var_") {
                return Some((i, "var"));
            }
            if starts_with_text(n, "fun_") {
                return Some((i, "fun"));
            }
            if generic.is_none() {
                generic = Some(i);
            }
        } else {
            proof {
                assert(is_crate_root(names@[i as int]@));
            }
        }
        proof {
            if !root {
                assert(!is_item_file(names@[i as int]@));
            } else {
                assert(is_crate_root(names@[i as int]@));
                reveal_strlit("lib.rs");
                reveal_strlit("main.rs");
                reveal_strlit("var_");
                reveal_strlit("fun_");
                let nm = names@[i as int]@;
                assert(!"var_"@.is_prefix_of(nm)) by {
                    if "var_"@.is_prefix_of(nm) {
                        assert(nm[0] == "var_"@[0]);
                        if nm == "lib.rs"@ {
                            assert(nm[0] == "lib.rs"@[0]);
                        } else {
                            assert(nm[0] == "main.rs"@[0]);
                        }
                    }
                }
                assert(!"fun_"@.is_prefix_of(nm)) by {
                    if "fun_"@.is_prefix_of(nm) {
                        assert(nm[0] == "fun_"@[0]);
                        if nm == "lib.rs"@ {
                            assert(nm[0] == "lib.rs"@[0]);
                        } else {
                            assert(nm[0] == "main.rs"@[0]);
                        }
                    }
                }
            }
        }
        i = i + 1;
    }
    match generic {
        Some(g) => {
            proof {
                assert(!is_item_file(names@[g as int]@));
            }
            Some((g, "var"))
        },
        None => None,
    }
}

/// A file named as a variable or function item (`var_…`, `fun_…`).
pub open spec fn is_item_file(name: Seq<char>) -> bool {
    "var_"@.is_prefix_of(name) || "fun_"@.is_prefix_of(name)
}

} // verus!
