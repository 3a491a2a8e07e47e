//! Reading a user's choice of files: `3`, `1,3-5,7` or `all`.

use vstd::prelude::*;
use crate::text::{
    ascii_lower, is_digit, is_ws, lemma_decimal_reads_back, strip_lead, strip_trail, ws_pred, chars_of, has_char, owned, parse_usize, parse_usize_range, push_decimal,
    push_str_chars, split_on, split_pieces, string_of, string_of_range, sub_chars, trim,
    trim_bounds, decimal,
};

verus! {

/// Why a selection was refused.
pub enum SelectionError {
    /// Nothing but whitespace was entered.
    NoInput,
    /// A part with `-` did not split into exactly two sides.
    InvalidRangeFormat { part: String },
    /// A side of a range was empty.
    MissingRangeBound,
    /// A side of a range is not a number.
    InvalidRangeNumber { text: String },
    /// A side of a range lies outside `1..=total`.
    RangeOutOfBounds { start: usize, end: usize, total: usize },
    /// A range runs backwards.
    ReversedRange { start: usize, end: usize },
    /// A single entry is not a number.
    InvalidNumber { text: String },
    /// A single entry lies outside `1..=total`.
    NumberOutOfBounds { number: usize, total: usize },
}

/// The mathematical form of a [`SelectionError`].
pub enum SelectionFault {
    NoInput,
    InvalidRangeFormat(Seq<char>),
    MissingRangeBound,
    InvalidRangeNumber(Seq<char>),
    RangeOutOfBounds(nat, nat, nat),
    ReversedRange(nat, nat),
    InvalidNumber(Seq<char>),
    NumberOutOfBounds(nat, nat),
}

impl View for SelectionError {
    type V = SelectionFault;

    open spec fn view(&self) -> SelectionFault {
        match self {
            SelectionError::NoInput => SelectionFault::NoInput,
            SelectionError::InvalidRangeFormat { part } => SelectionFault::InvalidRangeFormat(part@),
            SelectionError::MissingRangeBound => SelectionFault::MissingRangeBound,
            SelectionError::InvalidRangeNumber { text } => SelectionFault::InvalidRangeNumber(text@),
            SelectionError::RangeOutOfBounds { start, end, total } => SelectionFault::RangeOutOfBounds(
                *start as nat,
                *end as nat,
                *total as nat,
            ),
            SelectionError::ReversedRange { start, end } => SelectionFault::ReversedRange(*start as nat, *end as nat),
            SelectionError::InvalidNumber { text } => SelectionFault::InvalidNumber(text@),
            SelectionError::NumberOutOfBounds { number, total } => SelectionFault::NumberOutOfBounds(
                *number as nat,
                *total as nat,
            ),
        }
    }
}

/// The text of a refusal, as the prompt reports it.
pub open spec fn fault_message(f: SelectionFault) -> Seq<char> {
    match f {
        SelectionFault::NoInput => "No input provided. Please select at least one file."@,
        SelectionFault::InvalidRangeFormat(p) => "Invalid range format: "@ + p + ". Expected format like '1-3'"@,
        SelectionFault::MissingRangeBound => "Invalid range format: ranges must have both start and end values (e.g., '1-3')"@,
        SelectionFault::InvalidRangeNumber(t) => "Invalid number in range: "@ + t,
        SelectionFault::RangeOutOfBounds(a, b, n) => "Range "@ + decimal(a) + "-"@ + decimal(b)
            + " is out of bounds (valid: 1-"@ + decimal(n) + ")"@,
        SelectionFault::ReversedRange(a, b) => "Invalid range: "@ + decimal(a) + " is greater than "@ + decimal(b),
        SelectionFault::InvalidNumber(t) => "Invalid number: "@ + t,
        SelectionFault::NumberOutOfBounds(a, n) => "Number "@ + decimal(a) + " is out of bounds (valid: 1-"@
            + decimal(n) + ")"@,
    }
}

impl SelectionError {
    /// The text of the refusal.
    pub fn message(&self) -> (s: String)
        ensures
            s@ == fault_message(self@),
    {
        match self {
            SelectionError::NoInput => owned("No input provided. Please select at least one file."),
            SelectionError::InvalidRangeFormat { part } => {
                let mut s = owned("Invalid range format: ");
                push_str_chars(&mut s, part.as_str());
                push_str_chars(&mut s, ". Expected format like '1-3'");
                s
            },
            SelectionError::MissingRangeBound => owned(
                "Invalid range format: ranges must have both start and end values (e.g., '1-3')",
            ),
            SelectionError::InvalidRangeNumber { text } => {
                let mut s = owned("Invalid number in range: ");
                push_str_chars(&mut s, text.as_str());
                s
            },
            SelectionError::RangeOutOfBounds { start, end, total } => {
                let mut s = owned("Range ");
                push_decimal(&mut s, *start);
                push_str_chars(&mut s, "-");
                push_decimal(&mut s, *end);
                push_str_chars(&mut s, " is out of bounds (valid: 1-");
                push_decimal(&mut s, *total);
                push_str_chars(&mut s, ")");
                s
            },
            SelectionError::ReversedRange { start, end } => {
                let mut s = owned("Invalid range: ");
                push_decimal(&mut s, *start);
                push_str_chars(&mut s, " is greater than ");
                push_decimal(&mut s, *end);
                s
            },
            SelectionError::InvalidNumber { text } => {
                let mut s = owned("Invalid number: ");
                push_str_chars(&mut s, text.as_str());
                s
            },
            SelectionError::NumberOutOfBounds { number, total } => {
                let mut s = owned("Number ");
                push_decimal(&mut s, *number);
                push_str_chars(&mut s, " is out of bounds (valid: 1-");
                push_decimal(&mut s, *total);
                push_str_chars(&mut s, ")");
                s
            },
        }
    }
}

/// What one comma-separated part (already trimmed) selects: the 1-based bounds
/// `(first, last)` it covers, or why it is refused.
pub open spec fn part_check(p: Seq<char>, total: nat) -> Result<(nat, nat), SelectionFault> {
    if p.contains('-') {
        let sides = split_on(p, '-');
        if sides.len() != 2 {
            Err(SelectionFault::InvalidRangeFormat(p))
        } else {
            let a = trim(sides[0]);
            let b = trim(sides[1]);
            if a.len() == 0 || b.len() == 0 {
                Err(SelectionFault::MissingRangeBound)
            } else if parse_usize(a) is None {
                Err(SelectionFault::InvalidRangeNumber(a))
            } else if parse_usize(b) is None {
                Err(SelectionFault::InvalidRangeNumber(b))
            } else {
                let x = parse_usize(a).unwrap();
                let y = parse_usize(b).unwrap();
                if x < 1 || y < 1 || x > total || y > total {
                    Err(SelectionFault::RangeOutOfBounds(x, y, total))
                } else if x > y {
                    Err(SelectionFault::ReversedRange(x, y))
                } else {
                    Ok((x, y))
                }
            }
        }
    } else {
        match parse_usize(p) {
            None => Err(SelectionFault::InvalidNumber(p)),
            Some(n) => if n < 1 || n > total {
                Err(SelectionFault::NumberOutOfBounds(n, total))
            } else {
                Ok((n, n))
            },
        }
    }
}

/// The trimmed comma-separated parts of a selection.
pub open spec fn selection_parts(input: Seq<char>) -> Seq<Seq<char>> {
    split_on(trim(input), ',').map_values(|p: Seq<char>| trim(p))
}

/// Whether `t` is `all` in any mix of cases.
pub open spec fn is_all(t: Seq<char>) -> bool {
    t.len() == 3 && ascii_lower(t[0]) == 'a' && ascii_lower(t[1]) == 'l' && ascii_lower(t[2]) == 'l'
}

/// Whether the first `n` parts are all accepted.
pub open spec fn parts_ok(parts: Seq<Seq<char>>, n: int, total: nat) -> bool {
    forall|j: int| 0 <= j < n ==> #[trigger] part_check(parts[j], total) is Ok
}

/// Whether 0-based index `x` lies in a range of one of the first `n` parts.
pub open spec fn covered(parts: Seq<Seq<char>>, n: int, total: nat, x: int) -> bool
    decreases n,
{
    if n <= 0 {
        false
    } else {
        covered(parts, n - 1, total, x) || match part_check(parts[n - 1], total) {
            Ok((a, b)) => a <= x + 1 <= b,
            Err(_) => false,
        }
    }
}

/// Strictly increasing.
pub open spec fn increasing(v: Seq<usize>) -> bool {
    forall|i: int, j: int| 0 <= i < j < v.len() ==> v[i] < v[j]
}

fn is_all_exec(t: &Vec<char>, lo: usize, hi: usize) -> (b: bool)
    requires
        lo <= hi <= t.len(),
    ensures
        b == is_all(t@.subrange(lo as int, hi as int)),
{
    if hi - lo != 3 {
        return false;
    }
    let c0 = t[lo];
    let c1 = t[lo + 1];
    let c2 = t[lo + 2];
    let r = (c0 == 'a' || c0 == 'A') && (c1 == 'l' || c1 == 'L') && (c2 == 'l' || c2 == 'L');
    proof {
        let s = t@.subrange(lo as int, hi as int);
        assert(s[0] == c0 && s[1] == c1 && s[2] == c2);
        assert(('A' as u32) + 32 == 'a' as u32);
        assert(('L' as u32) + 32 == 'l' as u32);
        if 'A' <= c0 && c0 <= 'Z' && ((c0 as u32) + 32) as char == 'a' {
            assert(c0 == 'A');
        }
        if 'A' <= c1 && c1 <= 'Z' && ((c1 as u32) + 32) as char == 'l' {
            assert(c1 == 'L');
        }
        if 'A' <= c2 && c2 <= 'Z' && ((c2 as u32) + 32) as char == 'l' {
            assert(c2 == 'L');
        }
    }
    r
}

/// Checks one trimmed part against `1..=total`.
fn check_part(p: &Vec<char>, total: usize) -> (r: Result<(usize, usize), SelectionError>)
    ensures
        match r {
            Ok((a, b)) => part_check(p@, total as nat) == Ok::<(nat, nat), SelectionFault>((a as nat, b as nat)),
            Err(e) => part_check(p@, total as nat) == Err::<(nat, nat), SelectionFault>(e@),
        },
{
    if has_char(p, '-') {
        let sides = split_pieces(p, '-');
        proof {
            assert(sides@.map_values(|q: Vec<char>| q@).len() == sides.len());
        }
        if sides.len() != 2 {
            return Err(SelectionError::InvalidRangeFormat { part: string_of(p) });
        }
        proof {
            assert(sides@.map_values(|q: Vec<char>| q@)[0] == sides@[0]@);
            assert(sides@.map_values(|q: Vec<char>| q@)[1] == sides@[1]@);
        }
        let left = &sides[0];
        let right = &sides[1];
        let (a0, a1) = trim_bounds(left, 0, left.len());
        let (b0, b1) = trim_bounds(right, 0, right.len());
        proof {
            assert(left@.subrange(0, left@.len() as int) =~= left@);
            assert(right@.subrange(0, right@.len() as int) =~= right@);
        }
        if a0 == a1 || b0 == b1 {
            return Err(SelectionError::MissingRangeBound);
        }
        let x = match parse_usize_range(left, a0, a1) {
            Some(x) => x,
            None => {
                return Err(SelectionError::InvalidRangeNumber { text: string_of_range(left, a0, a1) });
            },
        };
        let y = match parse_usize_range(right, b0, b1) {
            Some(y) => y,
            None => {
                return Err(SelectionError::InvalidRangeNumber { text: string_of_range(right, b0, b1) });
            },
        };
        if x < 1 || y < 1 || x > total || y > total {
            return Err(SelectionError::RangeOutOfBounds { start: x, end: y, total });
        }
        if x > y {
            return Err(SelectionError::ReversedRange { start: x, end: y });
        }
        Ok((x, y))
    } else {
        match parse_usize_range(p, 0, p.len()) {
            None => {
                proof {
                    assert(p@.subrange(0, p@.len() as int) =~= p@);
                }
                Err(SelectionError::InvalidNumber { text: string_of(p) })
            },
            Some(n) => {
                proof {
                    assert(p@.subrange(0, p@.len() as int) =~= p@);
                }
                if n < 1 || n > total {
                    Err(SelectionError::NumberOutOfBounds { number: n, total })
                } else {
                    Ok((n, n))
                }
            },
        }
    }
}

/// The selection read part by part (see [`parse_file_selection`]).
fn select_files(input: &str, total_files: usize) -> (r: Result<Vec<usize>, SelectionError>)
    ensures
        trim(input@).len() == 0 ==> match r {
            Err(e) => e@ == SelectionFault::NoInput,
            Ok(_) => false,
        },
        trim(input@).len() > 0 && is_all(trim(input@)) ==> match r {
            Ok(v) => v@ == Seq::new(total_files as nat, |i: int| i as usize),
            Err(_) => false,
        },
        trim(input@).len() > 0 && !is_all(trim(input@)) ==> ({
            let parts = selection_parts(input@);
            match r {
                Ok(v) => {
                    &&& parts_ok(parts, parts.len() as int, total_files as nat)
                    &&& increasing(v@)
                    &&& forall|i: int| 0 <= i < v.len() ==> #[trigger] v@[i] < total_files
                    &&& forall|x: int| 0 <= x < total_files ==>
                        (v@.contains(x as usize) <==> covered(parts, parts.len() as int, total_files as nat, x))
                },
                Err(e) => exists|k: int| 0 <= k < parts.len() && parts_ok(parts, k, total_files as nat)
                    && #[trigger] part_check(parts[k], total_files as nat) == Err::<(nat, nat), SelectionFault>(e@),
            }
        }),
{
    let v = chars_of(input);
    let (lo, hi) = trim_bounds(&v, 0, v.len());
    proof {
        assert(v@.subrange(0, v@.len() as int) =~= v@);
    }
    if lo == hi {
        return Err(SelectionError::NoInput);
    }
    if is_all_exec(&v, lo, hi) {
        let mut all: Vec<usize> = Vec::new();
        let mut i: usize = 0;
        while i < total_files
            invariant
                i <= total_files,
                all@ == Seq::new(i as nat, |j: int| j as usize),
            decreases total_files - i,
        {
            all.push(i);
            i = i + 1;
            proof {
                assert(all@ =~= Seq::new(i as nat, |j: int| j as usize));
            }
        }
        return Ok(all);
    }
    let t = sub_chars(&v, lo, hi);
    let raw = split_pieces(&t, ',');
    let ghost parts = selection_parts(input@);
    let ghost total = total_files as nat;
    proof {
        assert(raw@.map_values(|q: Vec<char>| q@).len() == raw.len());
        assert(parts.len() == raw.len());
    }
    let mut bounds: Vec<(usize, usize)> = Vec::new();
    let mut j: usize = 0;
    while j < raw.len()
        invariant
            j <= raw.len(),
            trim(input@).len() > 0 && !is_all(trim(input@)),
            parts.len() == raw.len(),
            parts == selection_parts(input@),
            raw@.map_values(|q: Vec<char>| q@) == split_on(trim(input@), ','),
            total == total_files as nat,
            bounds.len() == j,
            parts_ok(parts, j as int, total),
            forall|k: int| 0 <= k < j ==> part_check(#[trigger] parts[k], total) == Ok::<(nat, nat), SelectionFault>(
                (bounds@[k].0 as nat, bounds@[k].1 as nat),
            ),
        decreases raw.len() - j,
    {
        let q = &raw[j];
        let (a, b) = trim_bounds(q, 0, q.len());
        let p = sub_chars(q, a, b);
        proof {
            assert(q@.subrange(0, q@.len() as int) =~= q@);
            assert(raw@.map_values(|q: Vec<char>| q@)[j as int] == q@);
            assert(parts[j as int] == p@);
        }
        match check_part(&p, total_files) {
            Err(e) => {
                proof {
                    assert(parts_ok(parts, j as int, total));
                    assert(part_check(parts[j as int], total) == Err::<(nat, nat), SelectionFault>(e@));
                }
                return Err(e);
            },
            Ok(ab) => {
                bounds.push(ab);
                proof {
                    assert forall|k: int| 0 <= k < j + 1 implies part_check(#[trigger] parts[k], total) is Ok by {
                        if k < j {
                            assert(part_check(parts[k], total) == Ok::<(nat, nat), SelectionFault>(
                                (bounds@[k].0 as nat, bounds@[k].1 as nat)));
                        }
                    }
                }
            },
        }
        j = j + 1;
    }
    let mut chosen: Vec<bool> = Vec::new();
    let mut x: usize = 0;
    while x < total_files
        invariant
            x <= total_files,
            chosen.len() == x,
            forall|y: int| 0 <= y < x ==> !#[trigger] chosen@[y],
        decreases total_files - x,
    {
        chosen.push(false);
        x = x + 1;
    }
    let mut k: usize = 0;
    while k < bounds.len()
        invariant
            k <= bounds.len(),
            bounds.len() == parts.len(),
            chosen.len() == total_files,
            total == total_files as nat,
            forall|m: int| 0 <= m < bounds.len() ==> part_check(#[trigger] parts[m], total) == Ok::<(nat, nat), SelectionFault>(
                (bounds@[m].0 as nat, bounds@[m].1 as nat),
            ),
            forall|y: int| 0 <= y < total_files ==> #[trigger] chosen@[y] == covered(parts, k as int, total, y),
        decreases bounds.len() - k,
    {
        let (a, b) = bounds[k];
        proof {
            assert(part_check(parts[k as int], total) == Ok::<(nat, nat), SelectionFault>((a as nat, b as nat)));
            assert(1 <= a <= b <= total_files);
        }
        let mut y: usize = a - 1;
        while y < b
            invariant
                1 <= a <= b <= total_files,
                a - 1 <= y <= b,
                chosen.len() == total_files,
                forall|z: int| 0 <= z < total_files ==> #[trigger] chosen@[z] == (covered(parts, k as int, total, z)
                    || (a - 1 <= z < y)),
            decreases b - y,
        {
            chosen.set(y, true);
            y = y + 1;
        }
        proof {
            assert forall|z: int| 0 <= z < total_files implies #[trigger] chosen@[z] == covered(parts, k + 1, total, z) by {
                assert(covered(parts, k + 1, total, z) == (covered(parts, k as int, total, z) || (a <= z + 1 <= b)));
            }
        }
        k = k + 1;
    }
    let mut out: Vec<usize> = Vec::new();
    let mut x: usize = 0;
    while x < total_files
        invariant
            x <= total_files,
            chosen.len() == total_files,
            increasing(out@),
            forall|i: int| 0 <= i < out.len() ==> #[trigger] out@[i] < x && chosen@[out@[i] as int],
            forall|y: int| 0 <= y < x && #[trigger] chosen@[y] ==> out@.contains(y as usize),
        decreases total_files - x,
    {
        if chosen[x] {
            let ghost before = out@;
            out.push(x);
            proof {
                assert forall|y: int| 0 <= y < x + 1 && #[trigger] chosen@[y] implies out@.contains(y as usize) by {
                    if y < x {
                        let i = choose|i: int| 0 <= i < before.len() && before[i] == y as usize;
                        assert(out@[i] == y as usize);
                    } else {
                        assert(out@[before.len() as int] == x);
                    }
                }
            }
        }
        x = x + 1;
    }
    proof {
        assert forall|z: int| 0 <= z < total_files implies (out@.contains(z as usize) <==> covered(
            parts,
            parts.len() as int,
            total,
            z,
        )) by {
            if out@.contains(z as usize) {
                let i = choose|i: int| 0 <= i < out.len() && out@[i] == z as usize;
                assert(chosen@[out@[i] as int]);
            }
            assert(chosen@[z] == covered(parts, bounds.len() as int, total, z));
        }
    }
    Ok(out)
}


/// Reads a selection of files among `total_files`: `all` (in any case), or
/// comma-separated 1-based numbers and `a-b` ranges. Returns the chosen
/// 0-based indices in increasing order, each once; the first refused part
/// decides the error. A range `a-b` with `1 <= a <= b <= total_files` is
/// always accepted and selects exactly the indices `a-1` to `b-1`, and a
/// number `n` in `1..=total_files` selects `n-1`; a range end or a number
/// above `total_files` is refused as out of bounds.
pub fn parse_file_selection(input: &str, total_files: usize) -> (r: Result<Vec<usize>, SelectionError>)
    ensures
        trim(input@).len() == 0 ==> match r {
            Err(e) => e@ == SelectionFault::NoInput,
            Ok(_) => false,
        },
        trim(input@).len() > 0 && is_all(trim(input@)) ==> match r {
            Ok(v) => v@ == Seq::new(total_files as nat, |i: int| i as usize),
            Err(_) => false,
        },
        trim(input@).len() > 0 && !is_all(trim(input@)) ==> ({
            let parts = selection_parts(input@);
            match r {
                Ok(v) => {
                    &&& parts_ok(parts, parts.len() as int, total_files as nat)
                    &&& increasing(v@)
                    &&& forall|i: int| 0 <= i < v.len() ==> #[trigger] v@[i] < total_files
                    &&& forall|x: int| 0 <= x < total_files ==>
                        (v@.contains(x as usize) <==> covered(parts, parts.len() as int, total_files as nat, x))
                },
                Err(e) => exists|k: int| 0 <= k < parts.len() && parts_ok(parts, k, total_files as nat)
                    && #[trigger] part_check(parts[k], total_files as nat) == Err::<(nat, nat), SelectionFault>(e@),
            }
        }),
        forall|a: nat, b: nat| #[trigger] range_text(a, b) == input@ && 1 <= a <= b <= total_files ==> match r {
            Ok(v) => v@ == Seq::new((b - a + 1) as nat, |i: int| (a - 1 + i) as usize),
            Err(_) => false,
        },
        forall|a: nat, b: nat| #[trigger] range_text(a, b) == input@ && 1 <= a <= usize::MAX && total_files < b <= usize::MAX
            ==> match r {
            Ok(_) => false,
            Err(e) => e@ == SelectionFault::RangeOutOfBounds(a, b, total_files as nat),
        },
        forall|n: nat| #[trigger] decimal(n) == input@ && 1 <= n <= total_files ==> match r {
            Ok(v) => v@ == seq![(n - 1) as usize],
            Err(_) => false,
        },
        forall|n: nat| #[trigger] decimal(n) == input@ && total_files < n <= usize::MAX ==> match r {
            Ok(_) => false,
            Err(e) => e@ == SelectionFault::NumberOutOfBounds(n, total_files as nat),
        },
{
    let r = select_files(input, total_files);
    proof {
        let total = total_files as nat;
        assert forall|a: nat, b: nat| #[trigger] range_text(a, b) == input@ && 1 <= a <= b <= total_files implies match r {
            Ok(v) => v@ == Seq::new((b - a + 1) as nat, |i: int| (a - 1 + i) as usize),
            Err(_) => false,
        } by {
            lemma_range_part(a, b, total);
            let parts = selection_parts(input@);
            match r {
                Ok(v) => {
                    assert forall|i: int| 0 <= i < v.len() implies a - 1 <= #[trigger] v@[i] <= b - 1 by {
                        assert(v@.contains(v@[i]));
                        assert(covered(parts, 1, total, v@[i] as int));
                    }
                    assert forall|x: usize| a - 1 <= x <= b - 1 implies #[trigger] v@.contains(x) by {
                        assert(covered(parts, 1, total, x as int));
                    }
                    lemma_exact_range(v@, a - 1, b - 1);
                },
                Err(e) => {
                    let k = choose|k: int| 0 <= k < parts.len() && parts_ok(parts, k, total)
                        && #[trigger] part_check(parts[k], total) == Err::<(nat, nat), SelectionFault>(e@);
                    assert(k == 0);
                },
            }
        }
        assert forall|a: nat, b: nat| #[trigger] range_text(a, b) == input@ && 1 <= a <= usize::MAX && total_files < b <= usize::MAX
            implies match r {
            Ok(_) => false,
            Err(e) => e@ == SelectionFault::RangeOutOfBounds(a, b, total),
        } by {
            lemma_range_part(a, b, total);
            let parts = selection_parts(input@);
            match r {
                Ok(v) => {
                    assert(parts_ok(parts, 1, total));
                    assert(part_check(parts[0], total) is Ok);
                },
                Err(e) => {
                    let k = choose|k: int| 0 <= k < parts.len() && parts_ok(parts, k, total)
                        && #[trigger] part_check(parts[k], total) == Err::<(nat, nat), SelectionFault>(e@);
                    assert(k == 0);
                },
            }
        }
        assert forall|n: nat| #[trigger] decimal(n) == input@ && 1 <= n <= total_files implies match r {
            Ok(v) => v@ == seq![(n - 1) as usize],
            Err(_) => false,
        } by {
            lemma_number_part(n, total);
            let parts = selection_parts(input@);
            match r {
                Ok(v) => {
                    assert forall|i: int| 0 <= i < v.len() implies n - 1 <= #[trigger] v@[i] <= n - 1 by {
                        assert(v@.contains(v@[i]));
                        assert(covered(parts, 1, total, v@[i] as int));
                    }
                    assert forall|x: usize| n - 1 <= x <= n - 1 implies #[trigger] v@.contains(x) by {
                        assert(covered(parts, 1, total, x as int));
                    }
                    lemma_exact_range(v@, n - 1, n - 1);
                    assert(v@ =~= seq![(n - 1) as usize]);
                },
                Err(e) => {
                    let k = choose|k: int| 0 <= k < parts.len() && parts_ok(parts, k, total)
                        && #[trigger] part_check(parts[k], total) == Err::<(nat, nat), SelectionFault>(e@);
                    assert(k == 0);
                },
            }
        }
        assert forall|n: nat| #[trigger] decimal(n) == input@ && total_files < n <= usize::MAX implies match r {
            Ok(_) => false,
            Err(e) => e@ == SelectionFault::NumberOutOfBounds(n, total),
        } by {
            lemma_number_part(n, total);
            let parts = selection_parts(input@);
            match r {
                Ok(v) => {
                    assert(parts_ok(parts, 1, total));
                    assert(part_check(parts[0], total) is Ok);
                },
                Err(e) => {
                    let k = choose|k: int| 0 <= k < parts.len() && parts_ok(parts, k, total)
                        && #[trigger] part_check(parts[k], total) == Err::<(nat, nat), SelectionFault>(e@);
                    assert(k == 0);
                },
            }
        }
    }
    r
}

/// The text `a-b` of a range of file numbers.
pub open spec fn range_text(a: nat, b: nat) -> Seq<char> {
    decimal(a) + seq!['-'] + decimal(b)
}

proof fn lemma_split_single(s: Seq<char>, c: char)
    requires
        !s.contains(c),
    ensures
        split_on(s, c) == seq![s],
    decreases s.len(),
{
    if s.len() == 0 {
        assert(s =~= Seq::<char>::empty());
    } else {
        assert(!s.drop_last().contains(c)) by {
            if s.drop_last().contains(c) {
                let i = choose|i: int| 0 <= i < s.drop_last().len() && s.drop_last()[i] == c;
                assert(s[i] == c);
            }
        }
        lemma_split_single(s.drop_last(), c);
        assert(s[s.len() - 1] == s.last());
        assert(s.drop_last().push(s.last()) =~= s);
        assert(split_on(s, c) =~= seq![s]);
    }
}

proof fn lemma_split_after(s: Seq<char>, c: char, t: Seq<char>)
    requires
        !t.contains(c),
    ensures
        split_on(s.push(c) + t, c) == split_on(s, c).push(t),
    decreases t.len(),
{
    let u = s.push(c) + t;
    if t.len() == 0 {
        assert(u =~= s.push(c));
        assert(u.drop_last() =~= s);
        assert(t =~= Seq::<char>::empty());
    } else {
        assert(!t.drop_last().contains(c)) by {
            if t.drop_last().contains(c) {
                let i = choose|i: int| 0 <= i < t.drop_last().len() && t.drop_last()[i] == c;
                assert(t[i] == c);
            }
        }
        lemma_split_after(s, c, t.drop_last());
        assert(u.drop_last() =~= s.push(c) + t.drop_last());
        assert(u.last() == t.last());
        assert(t[t.len() - 1] == t.last());
        assert(t.drop_last().push(t.last()) =~= t);
        assert(split_on(u, c) =~= split_on(s, c).push(t));
    }
}

/// A text made of digits holds neither `-` nor `,`.
proof fn lemma_digits_no_sep(d: Seq<char>)
    requires
        forall|i: int| 0 <= i < d.len() ==> is_digit(#[trigger] d[i]),
    ensures
        !d.contains('-'),
        !d.contains(','),
{
    if d.contains('-') {
        let i = choose|i: int| 0 <= i < d.len() && d[i] == '-';
        assert(is_digit(d[i]));
    }
    if d.contains(',') {
        let i = choose|i: int| 0 <= i < d.len() && d[i] == ',';
        assert(is_digit(d[i]));
    }
}

/// A text whose first and last characters are not whitespace is its own trim.
proof fn lemma_trim_plain(s: Seq<char>)
    requires
        s.len() > 0,
        !is_ws(s[0]),
        !is_ws(s.last()),
    ensures
        trim(s) == s,
{
    assert(strip_lead(s, ws_pred()) == s);
    assert(strip_trail(s, ws_pred()) == s);
}

/// The range text `a-b` is one part; it is accepted and covers exactly
/// `a..=b` where `1 <= a <= b <= total`, and refused as out of bounds where `b > total`.
proof fn lemma_range_part(a: nat, b: nat, total: nat)
    requires
        1 <= a <= usize::MAX,
        1 <= b <= usize::MAX,
        total <= usize::MAX,
    ensures
        trim(range_text(a, b)).len() > 0,
        !is_all(trim(range_text(a, b))),
        selection_parts(range_text(a, b)) == seq![range_text(a, b)],
        a <= b <= total ==> part_check(range_text(a, b), total) == Ok::<(nat, nat), SelectionFault>((a, b)),
        a <= b <= total ==> forall|x: int| #[trigger] covered(selection_parts(range_text(a, b)), 1, total, x)
            <==> a <= x + 1 <= b,
        total < b ==> part_check(range_text(a, b), total) == Err::<(nat, nat), SelectionFault>(
            SelectionFault::RangeOutOfBounds(a, b, total),
        ),
{
    let da = decimal(a);
    let db = decimal(b);
    let x = range_text(a, b);
    lemma_decimal_reads_back(a);
    lemma_decimal_reads_back(b);
    lemma_digits_no_sep(da);
    lemma_digits_no_sep(db);
    assert(x =~= da.push('-') + db);
    lemma_split_single(da, '-');
    lemma_split_after(da, '-', db);
    assert(split_on(x, '-') == seq![da, db]);
    assert(!is_ws(da[0]));
    assert(!is_ws(da[da.len() - 1]));
    assert(!is_ws(db[db.len() - 1]));
    lemma_trim_plain(da);
    lemma_trim_plain(db);
    assert(x[0] == da[0]);
    assert(x.last() == db[db.len() - 1]);
    lemma_trim_plain(x);
    assert(x[da.len() as int] == '-');
    assert(x.contains('-'));
    assert(!x.contains(',')) by {
        if x.contains(',') {
            let i = choose|i: int| 0 <= i < x.len() && x[i] == ',';
            if i < da.len() {
                assert(da[i] == ',');
                assert(da.contains(','));
            } else if i > da.len() {
                assert(db[i - da.len() - 1] == ',');
                assert(db.contains(','));
            }
        }
    }
    lemma_split_single(x, ',');
    assert(selection_parts(x) =~= seq![x]);
    assert(is_digit(x[0]));
    assert(!is_all(x));
    assert(parse_usize(da) == Some(a));
    assert(parse_usize(db) == Some(b));
    if a <= b <= total {
        assert(part_check(x, total) == Ok::<(nat, nat), SelectionFault>((a, b)));
        assert forall|y: int| #[trigger] covered(selection_parts(x), 1, total, y) <==> a <= y + 1 <= b by {
            let parts = selection_parts(x);
            assert(parts[0] == x);
            assert(!covered(parts, 0, total, y));
            assert(covered(parts, 1, total, y) == (covered(parts, 0, total, y) || match part_check(parts[0], total) {
                Ok((lo, hi)) => lo <= y + 1 <= hi,
                Err(_) => false,
            }));
        }
    }
}

/// The decimal text of a number `n` is one part; it is accepted and covers
/// exactly `n` where `1 <= n <= total`, and refused as out of bounds where `n > total`.
proof fn lemma_number_part(n: nat, total: nat)
    requires
        1 <= n <= usize::MAX,
        total <= usize::MAX,
    ensures
        trim(decimal(n)).len() > 0,
        !is_all(trim(decimal(n))),
        selection_parts(decimal(n)) == seq![decimal(n)],
        n <= total ==> part_check(decimal(n), total) == Ok::<(nat, nat), SelectionFault>((n, n)),
        n <= total ==> forall|x: int| #[trigger] covered(selection_parts(decimal(n)), 1, total, x) <==> x + 1 == n,
        total < n ==> part_check(decimal(n), total) == Err::<(nat, nat), SelectionFault>(
            SelectionFault::NumberOutOfBounds(n, total),
        ),
{
    let d = decimal(n);
    lemma_decimal_reads_back(n);
    lemma_digits_no_sep(d);
    assert(!is_ws(d[0]));
    assert(!is_ws(d[d.len() - 1]));
    lemma_trim_plain(d);
    lemma_split_single(d, ',');
    assert(selection_parts(d) =~= seq![d]);
    assert(is_digit(d[0]));
    assert(!is_all(d));
    if n <= total {
        assert(part_check(d, total) == Ok::<(nat, nat), SelectionFault>((n, n)));
        assert forall|y: int| #[trigger] covered(selection_parts(d), 1, total, y) <==> y + 1 == n by {
            let parts = selection_parts(d);
            assert(parts[0] == d);
            assert(!covered(parts, 0, total, y));
            assert(covered(parts, 1, total, y) == (covered(parts, 0, total, y) || match part_check(parts[0], total) {
                Ok((lo, hi)) => lo <= y + 1 <= hi,
                Err(_) => false,
            }));
        }
    }
}

/// An increasing sequence holding exactly the numbers `lo..=hi` is that run.
proof fn lemma_exact_range(v: Seq<usize>, lo: int, hi: int)
    requires
        0 <= lo <= hi <= usize::MAX,
        increasing(v),
        forall|i: int| 0 <= i < v.len() ==> lo <= #[trigger] v[i] <= hi,
        forall|x: usize| lo <= x <= hi ==> #[trigger] v.contains(x),
    ensures
        v == Seq::new((hi - lo + 1) as nat, |i: int| (lo + i) as usize),
{
    assert(v.contains(lo as usize));
    assert(v.len() > 0);
    lemma_exact_upto(v, lo, hi, v.len() - 1);
    assert(v.contains(hi as usize));
    let j = choose|j: int| 0 <= j < v.len() && v[j] == hi as usize;
    assert(v[j] == lo + j);
    assert(v[v.len() - 1] == lo + v.len() - 1);
    assert(v =~= Seq::new((hi - lo + 1) as nat, |i: int| (lo + i) as usize));
}

proof fn lemma_exact_upto(v: Seq<usize>, lo: int, hi: int, i: int)
    requires
        0 <= lo <= hi <= usize::MAX,
        increasing(v),
        forall|k: int| 0 <= k < v.len() ==> lo <= #[trigger] v[k] <= hi,
        forall|x: usize| lo <= x <= hi ==> #[trigger] v.contains(x),
        0 <= i < v.len(),
    ensures
        forall|j: int| 0 <= j <= i ==> #[trigger] v[j] == lo + j,
    decreases i,
{
    if i > 0 {
        lemma_exact_upto(v, lo, hi, i - 1);
        assert(v[i - 1] < v[i]);
    }
    assert(v[i] >= lo + i);
    if v[i] > lo + i {
        let x = lo + i;
        assert(v.contains(x as usize));
        let j = choose|j: int| 0 <= j < v.len() && v[j] == x as usize;
        if j < i {
            assert(v[j] == lo + j);
        } else if j > i {
            assert(v[i] < v[j]);
        }
        assert(false);
    }
}

} // verus!
