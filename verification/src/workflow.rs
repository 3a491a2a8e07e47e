//! Decisions of the translation session: resuming, scheduling, which files
//! are pending, and how skipped files are retried without losing any.

use vstd::prelude::*;
use crate::interaction::ContinueChoice;
use crate::progress::ProgressState;
use crate::settings::{next_counter, runs_test, lemma_interval_schedule};
use crate::stats::{canonical_key, texts, with_once, TranslationStats};
use crate::text::{chars_of, contains_text, owned, push_str_chars, same_text, split_pieces, split_on};

verus! {

/// Files processed between two periodic compactions of the tool's git store.
pub const GIT_GC_INTERVAL: usize = 10;

/// Whether the periodic compaction runs after this file: every
/// `GIT_GC_INTERVAL` processed files.
pub fn should_run_periodic_git_gc(processed_count: usize) -> (b: bool)
    ensures
        b == (processed_count % GIT_GC_INTERVAL == 0 && processed_count > 0),
{
    processed_count % GIT_GC_INTERVAL == 0 && processed_count > 0
}

/// What to do with the progress of an earlier session.
pub enum ResumeAction {
    /// Resume; first record the unfinished work in a snapshot commit with
    /// this message, if there is one.
    Continue { snapshot_message: Option<String> },
    /// Start again from nothing.
    Restart,
    /// Reprocess the skipped files.
    FixSkippedFiles,
}

/// The message of the snapshot commit taken before resuming.
pub open spec fn snapshot_message(feature: Seq<char>) -> Seq<char> {
    "Snapshot unfinished translation progress before resume (feature: "@ + feature + ")"@
}

/// The action for the user's answer; resuming takes a snapshot where the
/// working tree held uncommitted progress before the session.
pub fn compute_resume_action(choice: ContinueChoice, feature: &str, preexisting_resume_snapshot_needed: bool) -> (r: ResumeAction)
    ensures
        match choice {
            ContinueChoice::Continue => r matches ResumeAction::Continue { snapshot_message: m } && if preexisting_resume_snapshot_needed {
                m matches Some(t) && t@ == snapshot_message(feature@)
            } else {
                m is None
            },
            ContinueChoice::Restart => r is Restart,
            ContinueChoice::FixSkippedFiles => r is FixSkippedFiles,
        },
{
    match choice {
        ContinueChoice::Continue => {
            let snapshot_message = if preexisting_resume_snapshot_needed {
                let mut m = owned("Snapshot unfinished translation progress before resume (feature: ");
                push_str_chars(&mut m, feature);
                push_str_chars(&mut m, ")");
                Some(m)
            } else {
                None
            };
            ResumeAction::Continue { snapshot_message }
        },
        ContinueChoice::Restart => ResumeAction::Restart,
        ContinueChoice::FixSkippedFiles => ResumeAction::FixSkippedFiles,
    }
}

/// Whether a final build-and-test pass is due at the end of a session: the
/// tests are configured and some translations since the last run are untested.
pub fn final_interval_test_needed(skip_test: bool, translations_since_last_test: usize) -> (b: bool)
    ensures
        b == (!skip_test && translations_since_last_test != 0),
{
    !skip_test && translations_since_last_test != 0
}

/// The counter after `n` successful translations from a fresh session.
pub open spec fn counter_after(n: nat, interval: nat) -> nat
    decreases n,
{
    if n == 0 {
        0
    } else {
        let c = counter_after((n - 1) as nat, interval);
        next_counter(c, runs_test(c, interval))
    }
}

/// Over a session of `n` successful translations, the tests run after the
/// `k`-th one exactly when `k` is a multiple of the interval, the counter is
/// left at `n % interval`, and the final pass is due exactly when some
/// translations were left untested: every translation is covered by a test run.
pub proof fn lemma_session_coverage(n: nat, interval: nat)
    requires
        1 <= interval <= usize::MAX,
    ensures
        counter_after(n, interval) == n % interval,
        n > 0 ==> (runs_test(counter_after((n - 1) as nat, interval), interval) <==> n % interval == 0),
        (n % interval != 0) == (counter_after(n, interval) != 0),
    decreases n,
{
    if n == 0 {
        assert(0nat % interval == 0) by (nonlinear_arith)
            requires interval >= 1;
    } else {
        lemma_session_coverage((n - 1) as nat, interval);
        let c = counter_after((n - 1) as nat, interval);
        assert(c < interval) by (nonlinear_arith)
            requires c == (n - 1) as nat % interval, interval >= 1;
        lemma_interval_schedule(c, interval);
        assert((c + 1) % interval == n % interval) by (nonlinear_arith)
            requires c == (n - 1) as nat % interval, interval >= 1, n >= 1;
        if c + 1 == interval {
            assert(n % interval == 0) by (nonlinear_arith)
                requires c == (n - 1) as nat % interval, c + 1 == interval, interval >= 1, n >= 1;
        } else {
            assert(n % interval == c + 1) by (nonlinear_arith)
                requires c == (n - 1) as nat % interval, c + 1 < interval, interval >= 1, n >= 1;
        }
    }
}

/// Why a statistics entry cannot name a stash location.
pub enum StashPathError {
    Absolute { path: String },
    Traversal { path: String },
    Empty { path: String },
}

impl StashPathError {
    /// The text of the error.
    pub fn message(&self) -> (s: String)
        ensures
            s@ == match self {
                StashPathError::Absolute { path } => "Skipped file path must be relative, got: "@ + path@,
                StashPathError::Traversal { path } => "Skipped file path must not contain path traversal: "@ + path@,
                StashPathError::Empty { path } => "Skipped file path is empty: "@ + path@,
            },
    {
        match self {
            StashPathError::Absolute { path } => {
                let mut s = owned("Skipped file path must be relative, got: ");
                push_str_chars(&mut s, path.as_str());
                s
            },
            StashPathError::Traversal { path } => {
                let mut s = owned("Skipped file path must not contain path traversal: ");
                push_str_chars(&mut s, path.as_str());
                s
            },
            StashPathError::Empty { path } => {
                let mut s = owned("Skipped file path is empty: ");
                push_str_chars(&mut s, path.as_str());
                s
            },
        }
    }
}

/// The normal components among the first `n` `/`-separated pieces (empty
/// pieces and `.` dropped).
pub open spec fn normal_parts(ps: Seq<Seq<char>>, n: int) -> Seq<Seq<char>>
    decreases n,
{
    if n <= 0 {
        Seq::<Seq<char>>::empty()
    } else if ps[n - 1].len() == 0 || ps[n - 1] == seq!['.'] {
        normal_parts(ps, n - 1)
    } else {
        normal_parts(ps, n - 1).push(ps[n - 1])
    }
}

/// Whether one of the pieces is `..`.
pub open spec fn has_parent_part(ps: Seq<Seq<char>>) -> bool {
    exists|j: int| 0 <= j < ps.len() && #[trigger] ps[j] == seq!['.', '.']
}

/// The parts joined with `/`.
pub open spec fn join_parts(ps: Seq<Seq<char>>) -> Seq<char>
    decreases ps.len(),
{
    if ps.len() == 0 {
        Seq::<char>::empty()
    } else if ps.len() == 1 {
        ps[0]
    } else {
        join_parts(ps.drop_last()) + seq!['/'] + ps.last()
    }
}

/// Checks a file name from the statistics before it is used under the stash
/// directory: it must be relative, hold no `..` component and name
/// something; returns it with empty and `.` components dropped.
pub fn validate_relative_stats_path(file_name: &str) -> (r: Result<String, StashPathError>)
    ensures
        ({
            let ps = split_on(file_name@, '/');
            let parts = normal_parts(ps, ps.len() as int);
            if file_name@.len() > 0 && file_name@[0] == '/' {
                r matches Err(StashPathError::Absolute { path }) && path@ == file_name@
            } else if has_parent_part(ps) {
                r matches Err(StashPathError::Traversal { path }) && path@ == file_name@
            } else if parts.len() == 0 {
                r matches Err(StashPathError::Empty { path }) && path@ == file_name@
            } else {
                r matches Ok(p) && p@ == join_parts(parts)
            }
        }),
{
    let v = chars_of(file_name);
    if v.len() > 0 && v[0] == '/' {
        return Err(StashPathError::Absolute { path: owned(file_name) });
    }
    let pieces = split_pieces(&v, '/');
    let ghost ps = split_on(file_name@, '/');
    proof {
        assert(pieces@.map_values(|q: Vec<char>| q@).len() == pieces.len());
    }
    let mut out = String::new();
    let mut count: usize = 0;
    let mut i: usize = 0;
    proof {
        assert(ps.take(0) =~= Seq::<Seq<char>>::empty());
    }
    while i < pieces.len()
        invariant
            i <= pieces.len(),
            count <= i,
            v@ == file_name@,
            !(file_name@.len() > 0 && file_name@[0] == '/'),
            ps == split_on(file_name@, '/'),
            ps == pieces@.map_values(|q: Vec<char>| q@),
            !has_parent_part(ps.take(i as int)),
            count == normal_parts(ps, i as int).len(),
            out@ == join_parts(normal_parts(ps, i as int)),
        decreases pieces.len() - i,
    {
        let q = &pieces[i];
        proof {
            assert(ps[i as int] == q@);
        }
        if q.len() == 2 && q[0] == '.' && q[1] == '.' {
            proof {
                assert(q@ =~= seq!['.', '.']);
                assert(ps[i as int] == seq!['.', '.']);
            }
            return Err(StashPathError::Traversal { path: owned(file_name) });
        }
        proof {
            if q@ == seq!['.', '.'] {
                assert(q@[0] == '.' && q@[1] == '.');
            }
            assert forall|j: int| 0 <= j < i + 1 implies #[trigger] ps.take(i + 1)[j] != seq!['.', '.'] by {
                if j < i {
                    assert(ps.take(i + 1)[j] == ps.take(i as int)[j]);
                }
            }
        }
        let is_dot = q.len() == 1 && q[0] == '.';
        proof {
            if q@ == seq!['.'] {
                assert(q@[0] == '.');
            }
            if is_dot {
                assert(q@ =~= seq!['.']);
            }
        }
        if q.len() > 0 && !is_dot {
            let ghost before = out@;
            if count > 0 {
                crate::text::push_char(&mut out, '/');
            }
            crate::text::push_range(&mut out, q, 0, q.len());
            proof {
                assert(q@.subrange(0, q@.len() as int) =~= q@);
                let np = normal_parts(ps, i + 1);
                assert(np == normal_parts(ps, i as int).push(q@));
                assert(np.drop_last() =~= normal_parts(ps, i as int));
            }
            count = count + 1;
        }
        i = i + 1;
    }
    proof {
        assert(ps.take(pieces.len() as int) =~= ps);
    }
    if count == 0 {
        return Err(StashPathError::Empty { path: owned(file_name) });
    }
    Ok(out)
}

/// The skipped list after recording each of `names` once, in order.
pub open spec fn skipped_after(s: Seq<Seq<char>>, names: Seq<Seq<char>>) -> Seq<Seq<char>>
    decreases names.len(),
{
    if names.len() == 0 {
        s
    } else {
        with_once(skipped_after(s, names.drop_last()), canonical_key(names.last()))
    }
}

proof fn lemma_skipped_after_keeps(s: Seq<Seq<char>>, names: Seq<Seq<char>>)
    ensures
        forall|k: Seq<char>| s.contains(k) ==> skipped_after(s, names).contains(k),
        forall|j: int| 0 <= j < names.len() ==> skipped_after(s, names).contains(canonical_key(#[trigger] names[j])),
    decreases names.len(),
{
    if names.len() > 0 {
        lemma_skipped_after_keeps(s, names.drop_last());
        let prev = skipped_after(s, names.drop_last());
        let k = canonical_key(names.last());
        assert forall|x: Seq<char>| prev.contains(x) implies with_once(prev, k).contains(x) by {
            if !prev.contains(k) {
                let t = choose|t: int| 0 <= t < prev.len() && prev[t] == x;
                assert(prev.push(k)[t] == x);
            }
        }
        assert(with_once(prev, k).contains(k)) by {
            if !prev.contains(k) {
                assert(prev.push(k)[prev.len() as int] == k);
            }
        }
        assert forall|j: int| 0 <= j < names.len() implies skipped_after(s, names).contains(canonical_key(#[trigger] names[j])) by {
            if j < names.len() - 1 {
                assert(names.drop_last()[j] == names[j]);
            }
        }
    }
}

/// After a real error while retrying skipped files, puts the current file
/// and every file after it back on the skipped list, so that none is lost.
pub fn requeue_remaining(stats: &mut TranslationStats, files: &Vec<String>, from: usize)
    requires
        from <= files.len(),
    ensures
        texts(final(stats).skipped_files@) == skipped_after(texts(old(stats).skipped_files@), texts(files@).skip(from as int)),
        final(stats).total_files == old(stats).total_files,
        final(stats).buckets() == old(stats).buckets(),
        final(stats).restart_count == old(stats).restart_count,
        final(stats).file_attempts == old(stats).file_attempts,
        final(stats).translation_failed_files@ == old(stats).translation_failed_files@,
{
    let ghost base = texts(stats.skipped_files@);
    let ghost names = texts(files@).skip(from as int);
    let mut k: usize = from;
    proof {
        assert(names.take(0) =~= Seq::<Seq<char>>::empty());
    }
    while k < files.len()
        invariant
            from <= k <= files.len(),
            names == texts(files@).skip(from as int),
            texts(stats.skipped_files@) == skipped_after(base, names.take(k - from)),
            stats.total_files == old(stats).total_files,
            stats.buckets() == old(stats).buckets(),
            stats.restart_count == old(stats).restart_count,
            stats.file_attempts == old(stats).file_attempts,
            stats.translation_failed_files@ == old(stats).translation_failed_files@,
        decreases files.len() - k,
    {
        stats.record_file_skipped(crate::text::copy_string(&files[k]));
        proof {
            assert(names.take(k + 1 - from).drop_last() =~= names.take(k - from));
            assert(names.take(k + 1 - from).last() == files@[k as int]@);
        }
        k = k + 1;
    }
    proof {
        assert(names.take(files.len() - from) =~= names);
    }
}

/// A failed retry of skipped files loses none of them: the current file and
/// every later one end up on the skipped list, and what was there stays.
pub proof fn lemma_requeue_loses_nothing(before: Seq<Seq<char>>, files: Seq<Seq<char>>, from: int)
    requires
        0 <= from <= files.len(),
    ensures
        forall|k: Seq<char>| before.contains(k) ==> skipped_after(before, files.skip(from)).contains(k),
        forall|j: int| from <= j < files.len() ==> skipped_after(before, files.skip(from)).contains(
            canonical_key(#[trigger] files[j]),
        ),
{
    lemma_skipped_after_keeps(before, files.skip(from));
    assert forall|j: int| from <= j < files.len() implies skipped_after(before, files.skip(from)).contains(
        canonical_key(#[trigger] files[j]),
    ) by {
        assert(files.skip(from)[j - from] == files[j]);
    }
}

/// The entries of `v` whose text is not among `exclude`, in order.
pub open spec fn not_in(v: Seq<Seq<char>>, exclude: Seq<Seq<char>>) -> Seq<Seq<char>> {
    v.filter(|x: Seq<char>| !exclude.contains(x))
}

/// The copies of `v`'s entries that are not in `exclude`, in order.
pub fn entries_not_in(v: &Vec<String>, exclude: &Vec<String>) -> (r: Vec<String>)
    ensures
        texts(r@) == not_in(texts(v@), texts(exclude@)),
{
    let ghost ex = texts(exclude@);
    let mut r: Vec<String> = Vec::new();
    let mut i: usize = 0;
    proof {
        assert(texts(v@).take(0) =~= Seq::<Seq<char>>::empty());
        reveal(Seq::filter);
        assert(not_in(Seq::<Seq<char>>::empty(), ex) =~= Seq::<Seq<char>>::empty());
    }
    while i < v.len()
        invariant
            i <= v.len(),
            ex == texts(exclude@),
            texts(r@) == not_in(texts(v@).take(i as int), ex),
        decreases v.len() - i,
    {
        let present = contains_text(exclude, v[i].as_str());
        let ghost before = texts(r@);
        proof {
            reveal(Seq::filter);
            assert(texts(v@).take(i + 1).drop_last() =~= texts(v@).take(i as int));
            assert(texts(v@).take(i + 1).last() == v@[i as int]@);
            if present {
                let j = choose|j: int| 0 <= j < exclude.len() && #[trigger] exclude@[j]@ == v@[i as int]@;
                assert(ex[j] == v@[i as int]@);
            } else {
                assert forall|j: int| 0 <= j < ex.len() implies ex[j] != v@[i as int]@ by {
                    assert(ex[j] == exclude@[j]@);
                }
            }
        }
        if !present {
            r.push(crate::text::copy_string(&v[i]));
            proof {
                assert(texts(r@) =~= before.push(v@[i as int]@));
            }
        }
        i = i + 1;
    }
    proof {
        assert(texts(v@).take(v.len() as int) =~= texts(v@));
    }
    r
}

/// The failed files to set aside while skipped files are retried: those that
/// are not themselves being retried.
pub fn files_to_isolate(translation_failed_files: &Vec<String>, retry_files: &Vec<String>) -> (r: Vec<String>)
    ensures
        texts(r@) == not_in(texts(translation_failed_files@), texts(retry_files@)),
{
    entries_not_in(translation_failed_files, retry_files)
}

/// The other skipped files to set aside while `current` is retried.
pub fn other_skipped_files(remaining: &Vec<String>, current: &str) -> (r: Vec<String>)
    ensures
        texts(r@) == not_in(texts(remaining@), seq![current@]),
{
    let mut one: Vec<String> = Vec::new();
    one.push(owned(current));
    proof {
        assert(texts(one@) =~= seq![current@]);
    }
    entries_not_in(remaining, &one)
}

/// How a file is brought to the check-and-fix phase.
#[derive(Debug, Clone, Copy, PartialEq, Eq, Structural)]
pub enum TranslationInputMode {
    /// Run the translator on the C source.
    TranslateFromC,
    /// Check and fix the Rust output that is already there.
    ReuseExistingRust,
}

/// A retried skipped file reuses its earlier Rust output when a stashed copy
/// was restored or the file still has content; else it is translated again.
pub fn retry_input_mode(restored: bool, has_content: bool) -> (m: TranslationInputMode)
    ensures
        m == if restored || has_content {
            TranslationInputMode::ReuseExistingRust
        } else {
            TranslationInputMode::TranslateFromC
        },
{
    if restored || has_content {
        TranslationInputMode::ReuseExistingRust
    } else {
        TranslationInputMode::TranslateFromC
    }
}

/// The progress of a session over the whole workspace: the files that are
/// not empty any more count as processed.
pub fn workspace_progress(total_rs_files: usize, empty_count: usize) -> (p: ProgressState)
    ensures
        p.total_count == total_rs_files,
        p.processed_count == if empty_count <= total_rs_files { total_rs_files - empty_count } else { 0 },
        p.consistent(),
{
    let already = if empty_count <= total_rs_files { total_rs_files - empty_count } else { 0 };
    ProgressState::with_initial_progress(total_rs_files, already)
}

/// The progress of a targeted rerun of one file: done if the file exists and is not empty.
pub fn target_progress(exists: bool, is_empty: bool) -> (p: ProgressState)
    ensures
        p.total_count == 1,
        p.processed_count == if exists && !is_empty { 1usize } else { 0usize },
        p.consistent(),
{
    let already: usize = if exists && !is_empty { 1 } else { 0 };
    ProgressState::with_initial_progress(1, already)
}

/// The empty files still to translate: those the statistics do not list as
/// skipped or as failed.
pub fn pending_files(empty_files: &Vec<String>, stats: &TranslationStats) -> (r: Vec<String>)
    ensures
        texts(r@) == not_in(texts(empty_files@), texts(stats.skipped_files@) + texts(stats.translation_failed_files@)),
{
    let mut excluded: Vec<String> = Vec::new();
    let mut i: usize = 0;
    while i < stats.skipped_files.len()
        invariant
            i <= stats.skipped_files.len(),
            texts(excluded@) == texts(stats.skipped_files@).take(i as int),
        decreases stats.skipped_files.len() - i,
    {
        let ghost before = texts(excluded@);
        excluded.push(crate::text::copy_string(&stats.skipped_files[i]));
        proof {
            assert(texts(excluded@) =~= before.push(stats.skipped_files@[i as int]@));
            assert(texts(stats.skipped_files@).take(i + 1) =~= texts(stats.skipped_files@).take(i as int).push(
                stats.skipped_files@[i as int]@,
            ));
        }
        i = i + 1;
    }
    let mut j: usize = 0;
    proof {
        assert(texts(stats.skipped_files@).take(stats.skipped_files.len() as int) =~= texts(stats.skipped_files@));
    }
    while j < stats.translation_failed_files.len()
        invariant
            j <= stats.translation_failed_files.len(),
            texts(excluded@) == texts(stats.skipped_files@) + texts(stats.translation_failed_files@).take(j as int),
        decreases stats.translation_failed_files.len() - j,
    {
        let ghost before = texts(excluded@);
        excluded.push(crate::text::copy_string(&stats.translation_failed_files[j]));
        proof {
            assert(texts(excluded@) =~= before.push(stats.translation_failed_files@[j as int]@));
            assert(texts(stats.translation_failed_files@).take(j + 1) =~= texts(stats.translation_failed_files@).take(
                j as int,
            ).push(stats.translation_failed_files@[j as int]@));
            assert(texts(excluded@) =~= texts(stats.skipped_files@) + texts(stats.translation_failed_files@).take(j + 1));
        }
        j = j + 1;
    }
    proof {
        assert(texts(stats.translation_failed_files@).take(stats.translation_failed_files.len() as int)
            =~= texts(stats.translation_failed_files@));
    }
    entries_not_in(empty_files, &excluded)
}

/// Why a targeted rerun cannot go ahead.
pub enum TargetFileError {
    /// No such file in the feature workspace.
    NotFound { target: String },
    /// The file exists but is not pending (skipped or failed before).
    Excluded { target: String },
}

impl TargetFileError {
    /// The text of the error.
    pub fn message(&self) -> (s: String)
        ensures
            s@ == match self {
                TargetFileError::NotFound { target } => "Target Rust file not found under feature workspace: "@ + target@,
                TargetFileError::Excluded { target } => "Target Rust file is currently excluded from translation (likely skipped or marked translation-failed): "@ + target@,
            },
    {
        match self {
            TargetFileError::NotFound { target } => {
                let mut s = owned("Target Rust file not found under feature workspace: ");
                push_str_chars(&mut s, target.as_str());
                s
            },
            TargetFileError::Excluded { target } => {
                let mut s = owned(
                    "Target Rust file is currently excluded from translation (likely skipped or marked translation-failed): ",
                );
                push_str_chars(&mut s, target.as_str());
                s
            },
        }
    }
}

/// Narrows the pending files to the target of a targeted rerun, if any; with
/// a target that is not pending, says whether it is missing or excluded.
pub fn filter_target_files(pending: Vec<String>, target_file: Option<&str>, target_exists: bool) -> (r: Result<Vec<String>, TargetFileError>)
    ensures
        match target_file {
            None => r matches Ok(v) && v@ == pending@,
            Some(t) => {
                let kept = texts(pending@).filter(|x: Seq<char>| x == t@);
                if kept.len() > 0 {
                    r matches Ok(v) && texts(v@) == kept
                } else if !target_exists {
                    r matches Err(TargetFileError::NotFound { target }) && target@ == t@
                } else {
                    r matches Err(TargetFileError::Excluded { target }) && target@ == t@
                }
            },
        },
{
    match target_file {
        None => Ok(pending),
        Some(t) => {
            let ghost kept = texts(pending@).filter(|x: Seq<char>| x == t@);
            let mut out: Vec<String> = Vec::new();
            let mut i: usize = 0;
            proof {
                reveal(Seq::filter);
                assert(texts(pending@).take(0) =~= Seq::<Seq<char>>::empty());
                assert(Seq::<Seq<char>>::empty().filter(|x: Seq<char>| x == t@) =~= Seq::<Seq<char>>::empty());
            }
            while i < pending.len()
                invariant
                    i <= pending.len(),
                    texts(out@) == texts(pending@).take(i as int).filter(|x: Seq<char>| x == t@),
                decreases pending.len() - i,
            {
                let same = same_text(pending[i].as_str(), t);
                let ghost before = texts(out@);
                proof {
                    reveal(Seq::filter);
                    assert(texts(pending@).take(i + 1).drop_last() =~= texts(pending@).take(i as int));
                    assert(texts(pending@).take(i + 1).last() == pending@[i as int]@);
                }
                if same {
                    out.push(crate::text::copy_string(&pending[i]));
                    proof {
                        assert(texts(out@) =~= before.push(pending@[i as int]@));
                    }
                }
                i = i + 1;
            }
            proof {
                assert(texts(pending@).take(pending.len() as int) =~= texts(pending@));
            }
            if out.len() > 0 {
                return Ok(out);
            }
            proof {
                assert(texts(out@).len() == 0);
            }
            if !target_exists {
                Err(TargetFileError::NotFound { target: owned(t) })
            } else {
                Err(TargetFileError::Excluded { target: owned(t) })
            }
        },
    }
}

} // verus!
