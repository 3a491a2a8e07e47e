//! Settings read from environment values, and the schedule of the periodic
//! build-and-test runs.

use vstd::prelude::*;
use crate::text::{
    chars_of, eq_ignore_case, eq_ignore_case_range, parse_usize, parse_usize_range, starts_with_at, trim,
    trim_bounds,
};

verus! {

/// Whether `v[lo..hi]` is exactly `t`.
fn range_is(v: &Vec<char>, lo: usize, hi: usize, t: &str) -> (b: bool)
    requires
        lo <= hi <= v.len(),
    ensures
        b == (v@.subrange(lo as int, hi as int) == t@),
{
    let w = chars_of(t);
    if hi - lo != w.len() {
        return false;
    }
    let b = starts_with_at(v, lo, &w);
    b
}

/// Whether warnings are to be processed, given the value of the setting
/// (absent: yes; `0` or `false` in any case, surrounding whitespace ignored: no).
pub open spec fn process_warnings_spec(value: Option<Seq<char>>) -> bool {
    match value {
        None => true,
        Some(v) => trim(v) != "0"@ && !eq_ignore_case(trim(v), "false"@),
    }
}

/// Whether a setting holds a yes: `1`, `true` or `yes` in any case, surrounding whitespace ignored.
pub open spec fn is_yes(value: Option<Seq<char>>) -> bool {
    match value {
        None => false,
        Some(v) => trim(v) == "1"@ || eq_ignore_case(trim(v), "true"@) || eq_ignore_case(trim(v), "yes"@),
    }
}

/// The test interval that a setting gives: a positive number, else 1.
pub open spec fn test_interval_spec(value: Option<Seq<char>>) -> nat {
    match value {
        None => 1,
        Some(v) => match parse_usize(trim(v)) {
            Some(n) => if n > 0 { n } else { 1 },
            None => 1,
        },
    }
}

/// Whether warning detection and fixing runs, given the value of the setting, if set.
pub fn process_warnings_from(value: Option<&str>) -> (b: bool)
    ensures
        b == process_warnings_spec(match value { Some(v) => Some(v@), None => None }),
{
    match value {
        None => true,
        Some(val) => {
            let v = chars_of(val);
            let (a, z) = trim_bounds(&v, 0, v.len());
            proof {
                assert(v@.subrange(0, v@.len() as int) =~= v@);
            }
            !range_is(&v, a, z, "0") && !eq_ignore_case_range(&v, a, z, "false")
        },
    }
}

/// Whether a yes/no setting, if set, says yes.
pub fn setting_is_yes(value: Option<&str>) -> (b: bool)
    ensures
        b == is_yes(match value { Some(v) => Some(v@), None => None }),
{
    match value {
        None => false,
        Some(val) => {
            let v = chars_of(val);
            let (a, z) = trim_bounds(&v, 0, v.len());
            proof {
                assert(v@.subrange(0, v@.len() as int) =~= v@);
            }
            range_is(&v, a, z, "1") || eq_ignore_case_range(&v, a, z, "true") || eq_ignore_case_range(
                &v,
                a,
                z,
                "yes",
            )
        },
    }
}

/// The test interval: run the build and tests once every N translations; a
/// missing, empty, zero or non-numeric setting gives 1.
pub fn test_interval_from(value: Option<&str>) -> (n: usize)
    ensures
        n == test_interval_spec(match value { Some(v) => Some(v@), None => None }),
        n >= 1,
{
    match value {
        None => 1,
        Some(val) => {
            let v = chars_of(val);
            let (a, z) = trim_bounds(&v, 0, v.len());
            proof {
                assert(v@.subrange(0, v@.len() as int) =~= v@);
            }
            match parse_usize_range(&v, a, z) {
                Some(n) => if n > 0 { n } else { 1 },
                None => 1,
            }
        },
    }
}

/// Whether the next translation is followed by the tests: the count of
/// translations since the last test run, this one included (not above
/// `usize::MAX`), is a multiple of the interval.
pub open spec fn runs_test(translations_since_last_test: nat, interval: nat) -> bool {
    let proposed = if translations_since_last_test + 1 > usize::MAX { usize::MAX as nat } else {
        translations_since_last_test + 1
    };
    proposed % interval == 0
}

/// Decides whether the tests run after the next translation; returns
/// `(should_run_test, skip_interval_test)`, the second the negation of the first.
pub fn compute_interval_test_decision(translations_since_last_test: usize, interval: usize) -> (r: (bool, bool))
    requires
        interval >= 1,
    ensures
        r.0 == runs_test(translations_since_last_test as nat, interval as nat),
        r.1 == !r.0,
{
    let proposed_count = translations_since_last_test.saturating_add(1);
    let should_run_test = proposed_count % interval == 0;
    (should_run_test, !should_run_test)
}

/// The counter after a translation: back to 0 where the tests ran, else one
/// more (not above `usize::MAX`).
pub open spec fn next_counter(counter: nat, tests_ran: bool) -> nat {
    if tests_ran {
        0
    } else if counter + 1 > usize::MAX {
        usize::MAX as nat
    } else {
        counter + 1
    }
}

/// Updates the count of translations since the last test run.
pub fn update_interval_counter(translations_since_last_test: &mut usize, tests_ran: bool)
    ensures
        *final(translations_since_last_test) as nat == next_counter(*old(translations_since_last_test) as nat, tests_ran),
{
    if tests_ran {
        *translations_since_last_test = 0;
    } else {
        *translations_since_last_test = translations_since_last_test.saturating_add(1);
    }
}

/// The schedule runs the tests after every `interval`-th translation: from a
/// counter below the interval, the tests run exactly when this translation
/// completes a round of `interval`, and the counter then stands at the number
/// of translations since the last run, modulo the interval.
pub proof fn lemma_interval_schedule(counter: nat, interval: nat)
    requires
        1 <= interval <= usize::MAX,
        counter < interval,
    ensures
        runs_test(counter, interval) == (counter + 1 == interval),
        next_counter(counter, runs_test(counter, interval)) == (counter + 1) % interval,
        next_counter(counter, runs_test(counter, interval)) < interval,
{
    assert(counter + 1 <= usize::MAX);
    if counter + 1 == interval {
        assert((counter + 1) % interval == 0) by (nonlinear_arith)
            requires counter + 1 == interval, interval >= 1;
    } else {
        assert((counter + 1) % interval == counter + 1) by (nonlinear_arith)
            requires counter + 1 < interval;
    }
}

/// Reads a positive count from the command line (`usize::from_str`, not 0).
pub fn parse_positive_usize(s: &str) -> (r: Result<usize, String>)
    ensures
        match parse_usize(s@) {
            None => r matches Err(e) && e@ == "`"@ + s@ + "` is not a valid number"@,
            Some(n) => if n == 0 {
                r matches Err(e) && e@ == "value must be greater than 0"@
            } else {
                r matches Ok(v) && v == n
            },
        },
{
    let v = chars_of(s);
    match parse_usize_range(&v, 0, v.len()) {
        None => {
            proof {
                assert(v@.subrange(0, v@.len() as int) =~= v@);
            }
            let mut e = crate::text::owned("`");
            crate::text::push_str_chars(&mut e, s);
            crate::text::push_str_chars(&mut e, "` is not a valid number");
            Err(e)
        },
        Some(value) => {
            proof {
                assert(v@.subrange(0, v@.len() as int) =~= v@);
            }
            if value == 0 {
                Err(crate::text::owned("value must be greater than 0"))
            } else {
                Ok(value)
            }
        },
    }
}

} // verus!
