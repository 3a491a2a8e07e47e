//! Shared helpers: feature-name checks, and the statistics and progress
//! records in the form that keeps file names as they were given.

use vstd::prelude::*;
use crate::stats::{bucket, push_once, texts, with_once, FileAttemptMap};
use crate::text::{chars_of, contains, has_char, matches_at, owned, push_str_chars};
pub use crate::progress::{ProgressState, CODE_PREVIEW_LINES, ERROR_PREVIEW_LINES, MAX_TRANSLATION_ATTEMPTS};
pub use crate::stats::FileAttemptStat;

verus! {

/// A feature name that could leave the feature directory.
pub struct FeatureNameError {
    /// The refused name.
    pub feature: String,
}

impl FeatureNameError {
    /// The text of the error.
    pub fn message(&self) -> (s: String)
        ensures
            s@ == "Invalid feature name '"@ + self.feature@
                + "': must be a simple directory name without path separators or '..'"@,
    {
        let mut s = owned("Invalid feature name '");
        push_str_chars(&mut s, self.feature.as_str());
        push_str_chars(&mut s, "': must be a simple directory name without path separators or '..'");
        s
    }
}

/// A feature name is a plain directory name: not empty, without `/`, `\\` or `..`.
pub open spec fn valid_feature_name(feature: Seq<char>) -> bool {
    !feature.contains('/') && !feature.contains('\\') && !contains(feature, ".."@) && feature.len() > 0
}

/// Refuses feature names that are empty or hold a path separator or `..`.
pub fn validate_feature_name(feature: &str) -> (r: Result<(), FeatureNameError>)
    ensures
        match r {
            Ok(()) => valid_feature_name(feature@),
            Err(e) => !valid_feature_name(feature@) && e.feature@ == feature@,
        },
{
    let v = chars_of(feature);
    let mut dots = false;
    let mut i: usize = 0;
    proof {
        reveal_strlit("..");
    }
    while v.len() > 0 && i < v.len() - 1
        invariant
            v@ == feature@,
            i <= v.len(),
            ".."@ == seq!['.', '.'],
            dots == exists|j: int| 0 <= j < i && #[trigger] matches_at(feature@, j, ".."@),
        decreases v.len() - i,
    {
        proof {
            assert(matches_at(feature@, i as int, ".."@) <== (v@[i as int] == '.' && v@[i + 1] == '.')) by {
                if v@[i as int] == '.' && v@[i + 1] == '.' {
                    assert(feature@.subrange(i as int, i + 2) =~= ".."@);
                }
            }
            assert(matches_at(feature@, i as int, ".."@) ==> (v@[i as int] == '.' && v@[i + 1] == '.')) by {
                if matches_at(feature@, i as int, ".."@) {
                    assert(feature@.subrange(i as int, i + 2)[0] == feature@[i as int]);
                    assert(feature@.subrange(i as int, i + 2)[1] == feature@[i + 1]);
                }
            }
        }
        if v[i] == '.' && v[i + 1] == '.' {
            dots = true;
        }
        i = i + 1;
    }
    proof {
        assert(dots == contains(feature@, ".."@)) by {
            if contains(feature@, ".."@) {
                let j = choose|j: int| matches_at(feature@, j, ".."@);
                assert(0 <= j < i);
            }
        }
    }
    if has_char(&v, '/') || has_char(&v, '\\') || dots || v.len() == 0 {
        return Err(FeatureNameError { feature: owned(feature) });
    }
    Ok(())
}

/// Translation statistics of a session, file names kept as given.
pub struct TranslationStats {
    /// Files successfully translated.
    pub total_files: usize,
    /// Files that passed on the first try.
    pub success_first_try: usize,
    /// Files that passed after one retry.
    pub success_retry_1: usize,
    /// Files that passed after two retries.
    pub success_retry_2: usize,
    /// Files that passed after three or more retries.
    pub success_retry_3_plus: usize,
    /// Files that were retranslated from scratch.
    pub restart_count: usize,
    /// Per-file attempt statistics.
    pub file_attempts: FileAttemptMap,
    /// Files the user skipped.
    pub skipped_files: Vec<String>,
    /// Files whose translation command failed.
    pub translation_failed_files: Vec<String>,
}

impl TranslationStats {
    /// The four success counters, first try to three-or-more retries.
    pub open spec fn buckets(&self) -> Seq<usize> {
        seq![self.success_first_try, self.success_retry_1, self.success_retry_2, self.success_retry_3_plus]
    }

    pub open spec fn well_formed(&self) -> bool {
        self.file_attempts.well_formed()
    }

    /// Statistics with nothing recorded.
    pub fn new() -> (s: Self)
        ensures
            s.well_formed(),
            s.total_files == 0,
            s.buckets() == seq![0usize, 0usize, 0usize, 0usize],
            s.restart_count == 0,
            s.file_attempts@ == Map::<Seq<char>, FileAttemptStat>::empty(),
            s.skipped_files@ == Seq::<String>::empty(),
            s.translation_failed_files@ == Seq::<String>::empty(),
    {
        TranslationStats {
            total_files: 0,
            success_first_try: 0,
            success_retry_1: 0,
            success_retry_2: 0,
            success_retry_3_plus: 0,
            restart_count: 0,
            file_attempts: FileAttemptMap::new(),
            skipped_files: Vec::new(),
            translation_failed_files: Vec::new(),
        }
    }

    /// Records that `file_name` was translated after `attempts` translation attempts.
    pub fn record_file_completion(&mut self, file_name: String, attempts: usize, had_restart: bool, fix_attempts: usize)
        requires
            old(self).well_formed(),
            attempts >= 1,
            old(self).total_files < usize::MAX,
            old(self).buckets()[bucket(attempts)] < usize::MAX,
            had_restart ==> old(self).restart_count < usize::MAX,
        ensures
            final(self).well_formed(),
            final(self).total_files == old(self).total_files + 1,
            final(self).buckets() == old(self).buckets().update(
                bucket(attempts),
                (old(self).buckets()[bucket(attempts)] + 1) as usize,
            ),
            final(self).restart_count == old(self).restart_count + (if had_restart { 1int } else { 0int }),
            final(self).file_attempts@ == old(self).file_attempts@.insert(
                file_name@,
                FileAttemptStat { translation_attempts: attempts, fix_attempts, had_restart },
            ),
            final(self).skipped_files@ == old(self).skipped_files@,
            final(self).translation_failed_files@ == old(self).translation_failed_files@,
    {
        self.total_files = self.total_files + 1;
        if attempts == 1 {
            self.success_first_try = self.success_first_try + 1;
        } else if attempts == 2 {
            self.success_retry_1 = self.success_retry_1 + 1;
        } else if attempts == 3 {
            self.success_retry_2 = self.success_retry_2 + 1;
        } else {
            self.success_retry_3_plus = self.success_retry_3_plus + 1;
        }
        if had_restart {
            self.restart_count = self.restart_count + 1;
        }
        self.file_attempts.insert(
            file_name,
            FileAttemptStat { translation_attempts: attempts, fix_attempts, had_restart },
        );
        proof {
            assert(self.buckets() =~= old(self).buckets().update(
                bucket(attempts),
                (old(self).buckets()[bucket(attempts)] + 1) as usize,
            ));
        }
    }

    /// Records that `file_name` was skipped (once).
    pub fn record_file_skipped(&mut self, file_name: String)
        ensures
            texts(final(self).skipped_files@) == with_once(texts(old(self).skipped_files@), file_name@),
            final(self).total_files == old(self).total_files,
            final(self).buckets() == old(self).buckets(),
            final(self).restart_count == old(self).restart_count,
            final(self).file_attempts == old(self).file_attempts,
            final(self).translation_failed_files@ == old(self).translation_failed_files@,
    {
        push_once(&mut self.skipped_files, file_name);
    }

    /// Records that the translation command failed for `file_name` (once).
    pub fn record_file_translation_failed(&mut self, file_name: String)
        ensures
            texts(final(self).translation_failed_files@) == with_once(
                texts(old(self).translation_failed_files@),
                file_name@,
            ),
            final(self).total_files == old(self).total_files,
            final(self).buckets() == old(self).buckets(),
            final(self).restart_count == old(self).restart_count,
            final(self).file_attempts == old(self).file_attempts,
            final(self).skipped_files@ == old(self).skipped_files@,
    {
        push_once(&mut self.translation_failed_files, file_name);
    }

    /// The names of all files with recorded attempts, each once.
    pub fn get_completed_files(&self) -> (r: Vec<String>)
        requires
            self.well_formed(),
        ensures
            r.len() == self.file_attempts@.len(),
            forall|k: Seq<char>| self.file_attempts@.contains_key(k) <==> exists|i: int| 0 <= i < r.len() && #[trigger] r@[i]@ == k,
            forall|i: int, j: int| 0 <= i < r.len() && 0 <= j < r.len() && i != j ==> #[trigger] r@[i]@ != #[trigger] r@[j]@,
    {
        self.file_attempts.keys()
    }
}

impl Default for TranslationStats {
    fn default() -> (s: Self)
        ensures
            s.well_formed(),
            s.total_files == 0,
            s.buckets() == seq![0usize, 0usize, 0usize, 0usize],
            s.restart_count == 0,
            s.file_attempts@ == Map::<Seq<char>, FileAttemptStat>::empty(),
            s.skipped_files@ == Seq::<String>::empty(),
            s.translation_failed_files@ == Seq::<String>::empty(),
    {
        TranslationStats::new()
    }
}

impl TranslationStats {
    /// The statistics file of `feature` under the project root:
    /// `<root>/.c2rust/<feature>/translation_stats.json`; refused for a
    /// feature name that is not a plain directory name.
    pub fn get_stats_file_path(project_root: &str, feature: &str) -> (r: Result<String, crate::util::FeatureNameError>)
        ensures
            match r {
                Ok(p) => crate::util::valid_feature_name(feature@) && p@ == crate::paths::join_path(
                    crate::paths::join_path(crate::paths::join_path(project_root@, ".c2rust"@), feature@),
                    "translation_stats.json"@,
                ),
                Err(e) => !crate::util::valid_feature_name(feature@) && e.feature@ == feature@,
            },
    {
        crate::paths::stats_file_path(project_root, feature)
    }
}

} // verus!
