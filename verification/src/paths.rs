//! Where the tool's files live under a project root, and the location of the
//! translation script.

use vstd::prelude::*;
use crate::text::{chars_of, owned, push_str_chars, string_of_range, trim, trim_bounds};
use crate::util::{validate_feature_name, valid_feature_name, FeatureNameError};

verus! {

/// `base` joined with the relative path `rel`, as `Path::join` does: a `/`
/// goes between them unless `base` is empty or already ends with one.
pub open spec fn join_path(base: Seq<char>, rel: Seq<char>) -> Seq<char> {
    if base.len() == 0 || base.last() == '/' {
        base + rel
    } else {
        base + seq!['/'] + rel
    }
}

/// Joins the relative path `rel` to `base`.
pub fn join(base: &str, rel: &str) -> (r: String)
    ensures
        r@ == join_path(base@, rel@),
{
    let b = chars_of(base);
    let mut r = owned(base);
    if b.len() > 0 && b[b.len() - 1] != '/' {
        push_str_chars(&mut r, "/");
        proof {
            reveal_strlit("/");
            assert(r@ == base@ + seq!['/']);
        }
    }
    push_str_chars(&mut r, rel);
    r
}

/// The statistics file of a feature under the project root:
/// `<root>/.c2rust/<feature>/translation_stats.json`.
pub fn stats_file_path(project_root: &str, feature: &str) -> (r: Result<String, FeatureNameError>)
    ensures
        match r {
            Ok(p) => valid_feature_name(feature@) && p@ == join_path(
                join_path(join_path(project_root@, ".c2rust"@), feature@),
                "translation_stats.json"@,
            ),
            Err(e) => !valid_feature_name(feature@) && e.feature@ == feature@,
        },
{
    match validate_feature_name(feature) {
        Err(e) => Err(e),
        Ok(()) => {
            let a = join(project_root, ".c2rust");
            let b = join(a.as_str(), feature);
            Ok(join(b.as_str(), "translation_stats.json"))
        },
    }
}

/// The suggestions file under the project root: `<root>/suggestions.txt`.
pub fn get_suggestion_file_path(project_root: &str) -> (r: String)
    ensures
        r@ == join_path(project_root@, "suggestions.txt"@),
{
    join(project_root, "suggestions.txt")
}

/// The tool's configuration file under the project root: `<root>/.c2rust/config.toml`.
pub fn get_config_path(project_root: &str) -> (r: String)
    ensures
        r@ == join_path(project_root@, ".c2rust/config.toml"@),
{
    join(project_root, ".c2rust/config.toml")
}

/// What the environment holds for a variable.
pub enum EnvValue {
    /// The variable is not set.
    Unset,
    /// The variable holds data that is not UTF-8.
    NotUnicode,
    /// The variable holds this text.
    Text(String),
}

/// Why the translation script cannot be located.
pub enum ScriptDirError {
    NotSet,
    NotUnicode,
    Empty,
}

impl ScriptDirError {
    /// The text of the error.
    pub fn message(&self) -> (s: String)
        ensures
            s@ == match self {
                ScriptDirError::NotSet => "Environment variable C2RUST_TRANSLATE_DIT is not set. Please set it to the directory containing translate_and_fix.py script."@,
                ScriptDirError::NotUnicode => "Environment variable C2RUST_TRANSLATE_DIT contains non-UTF8 data. Please ensure it contains a valid UTF-8 path."@,
                ScriptDirError::Empty => "Environment variable C2RUST_TRANSLATE_DIT is empty. Please set it to the directory containing translate_and_fix.py script."@,
            },
    {
        match self {
            ScriptDirError::NotSet => owned(
                "Environment variable C2RUST_TRANSLATE_DIT is not set. Please set it to the directory containing translate_and_fix.py script.",
            ),
            ScriptDirError::NotUnicode => owned(
                "Environment variable C2RUST_TRANSLATE_DIT contains non-UTF8 data. Please ensure it contains a valid UTF-8 path.",
            ),
            ScriptDirError::Empty => owned(
                "Environment variable C2RUST_TRANSLATE_DIT is empty. Please set it to the directory containing translate_and_fix.py script.",
            ),
        }
    }
}

/// The directory of the translation script, from the value of
/// `C2RUST_TRANSLATE_DIT`: the value trimmed, which must not be empty.
pub fn translate_script_dir(value: &EnvValue) -> (r: Result<String, ScriptDirError>)
    ensures
        match value {
            EnvValue::Unset => r matches Err(ScriptDirError::NotSet),
            EnvValue::NotUnicode => r matches Err(ScriptDirError::NotUnicode),
            EnvValue::Text(t) => if trim(t@).len() == 0 {
                r matches Err(ScriptDirError::Empty)
            } else {
                r matches Ok(d) && d@ == trim(t@)
            },
        },
{
    match value {
        EnvValue::Unset => Err(ScriptDirError::NotSet),
        EnvValue::NotUnicode => Err(ScriptDirError::NotUnicode),
        EnvValue::Text(t) => {
            let v = chars_of(t.as_str());
            let (a, b) = trim_bounds(&v, 0, v.len());
            proof {
                assert(v@.subrange(0, v@.len() as int) =~= v@);
            }
            if a == b {
                Err(ScriptDirError::Empty)
            } else {
                Ok(string_of_range(&v, a, b))
            }
        },
    }
}

/// The translation script, `translate_and_fix.py` in that directory.
pub fn get_translate_script_full_path(value: &EnvValue) -> (r: Result<String, ScriptDirError>)
    ensures
        match value {
            EnvValue::Unset => r matches Err(ScriptDirError::NotSet),
            EnvValue::NotUnicode => r matches Err(ScriptDirError::NotUnicode),
            EnvValue::Text(t) => if trim(t@).len() == 0 {
                r matches Err(ScriptDirError::Empty)
            } else {
                r matches Ok(p) && p@ == join_path(trim(t@), "translate_and_fix.py"@)
            },
        },
{
    match translate_script_dir(value) {
        Err(e) => Err(e),
        Ok(dir) => Ok(join(dir.as_str(), "translate_and_fix.py")),
    }
}

} // verus!
