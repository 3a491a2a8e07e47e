//! Layout of the side-by-side C / Rust comparison.

use vstd::prelude::*;
use crate::text::{chars_of, lines, split_lines, string_of, string_of_range};

verus! {

/// Width of each code column where the terminal size is unknown or too small.
pub const DEFAULT_C_COLUMN_WIDTH: usize = 95;
/// Width of the Rust column where the terminal size is unknown or too small.
pub const DEFAULT_RUST_COLUMN_WIDTH: usize = 95;
/// Width of the line-number field.
pub const LINE_NUM_WIDTH: usize = 3;
/// The smallest column width that keeps code readable.
pub const MIN_COLUMN_WIDTH: usize = 40;
/// Border and separator characters of a row (`│` three times).
pub const SEPARATOR_CHAR_COUNT: usize = 3;
/// Spaces around the separators.
pub const SEPARATOR_SPACING: usize = 2;
/// The narrowest terminal that gives each column `MIN_COLUMN_WIDTH`.
pub const MIN_TERMINAL_WIDTH: usize = (MIN_COLUMN_WIDTH * 2) + ((LINE_NUM_WIDTH + 1) * 2) + SEPARATOR_CHAR_COUNT
    + SEPARATOR_SPACING;

/// The two column widths for a terminal `term_width` columns wide.
pub open spec fn column_widths(term_width: nat) -> (nat, nat) {
    if term_width < MIN_TERMINAL_WIDTH {
        (DEFAULT_C_COLUMN_WIDTH as nat, DEFAULT_RUST_COLUMN_WIDTH as nat)
    } else {
        let w = ((term_width - ((LINE_NUM_WIDTH + 1) * 2 + SEPARATOR_CHAR_COUNT + SEPARATOR_SPACING)) / 2) as nat;
        (w, w)
    }
}

/// The (C, Rust) column widths for a terminal `term_width` columns wide: the
/// space left by the line numbers and separators, shared equally; the
/// defaults for a terminal narrower than [`MIN_TERMINAL_WIDTH`].
pub fn compute_column_widths(term_width: usize) -> (r: (usize, usize))
    ensures
        (r.0 as nat, r.1 as nat) == column_widths(term_width as nat),
{
    if term_width < MIN_TERMINAL_WIDTH {
        return (DEFAULT_C_COLUMN_WIDTH, DEFAULT_RUST_COLUMN_WIDTH);
    }
    let line_num_space = (LINE_NUM_WIDTH + 1) * 2;
    let separators = SEPARATOR_CHAR_COUNT + SEPARATOR_SPACING;
    let available_width = term_width - (line_num_space + separators);
    let column_width = available_width / 2;
    (column_width, column_width)
}

/// The column widths for the terminal width that was detected, if any.
pub fn adaptive_column_widths(term_width: Option<usize>) -> (r: (usize, usize))
    ensures
        (r.0 as nat, r.1 as nat) == match term_width {
            Some(w) => column_widths(w as nat),
            None => (DEFAULT_C_COLUMN_WIDTH as nat, DEFAULT_RUST_COLUMN_WIDTH as nat),
        },
{
    match term_width {
        Some(w) => compute_column_widths(w),
        None => (DEFAULT_C_COLUMN_WIDTH, DEFAULT_RUST_COLUMN_WIDTH),
    }
}

/// `s` cut into pieces of `width` characters, the last one shorter; a text
/// no longer than `width` (the empty text too) is one piece.
pub open spec fn chunks(s: Seq<char>, width: nat) -> Seq<Seq<char>>
    decreases s.len(),
{
    if s.len() <= width || width == 0 {
        seq![s]
    } else {
        seq![s.take(width as int)] + chunks(s.skip(width as int), width)
    }
}

/// Cuts `line` into pieces of at most `width` characters.
pub fn wrap_line(line: &str, width: usize) -> (r: Vec<String>)
    requires
        width > 0 || line@.len() == 0,
    ensures
        r@.map_values(|s: String| s@) == chunks(line@, width as nat),
{
    let chars = chars_of(line);
    let n = chars.len();
    let mut out: Vec<String> = Vec::new();
    if n <= width {
        out.push(string_of_range(&chars, 0, n));
        proof {
            assert(chars@.subrange(0, n as int) =~= chars@);
            assert(out@.map_values(|s: String| s@) =~= seq![line@]);
        }
        return out;
    }
    let mut start: usize = 0;
    proof {
        assert(chars@.skip(0) =~= chars@);
        assert(out@.map_values(|s: String| s@) + chunks(chars@, width as nat) =~= chunks(chars@, width as nat));
    }
    while start < n
        invariant
            0 < width < n == chars.len(),
            chars@ == line@,
            start <= n,
            start < n ==> out@.map_values(|s: String| s@) + chunks(chars@.skip(start as int), width as nat)
                == chunks(chars@, width as nat),
            start == n ==> out@.map_values(|s: String| s@) == chunks(chars@, width as nat),
        decreases n - start,
    {
        let end = if n - start < width { n } else { start + width };
        let ghost before = out@.map_values(|s: String| s@);
        let ghost rest = chars@.skip(start as int);
        out.push(string_of_range(&chars, start, end));
        proof {
            assert(out@.map_values(|s: String| s@) =~= before.push(chars@.subrange(start as int, end as int)));
            if rest.len() <= width {
                assert(end == n);
                assert(chars@.subrange(start as int, end as int) =~= rest);
                assert(chunks(rest, width as nat) == seq![rest]);
                assert(before + seq![rest] =~= before.push(rest));
            } else {
                assert(chars@.subrange(start as int, end as int) =~= rest.take(width as int));
                assert(rest.skip(width as int) =~= chars@.skip(end as int));
                assert(chunks(rest, width as nat) == seq![rest.take(width as int)] + chunks(rest.skip(width as int), width as nat));
                assert(before + chunks(rest, width as nat) =~= before.push(rest.take(width as int)) + chunks(
                    chars@.skip(end as int),
                    width as nat,
                ));
            }
        }
        start = end;
    }
    out
}

/// What a comparison reports under the code.
#[derive(Debug, Clone, Copy, PartialEq, Eq, Structural)]
pub enum ResultType {
    TestPass,
    TestFail,
    BuildFail,
}

impl ResultType {
    /// The heading of the result section.
    pub fn title(&self) -> (s: &'static str)
        ensures
            s@ == match self {
                ResultType::TestPass | ResultType::TestFail => "Test Result"@,
                ResultType::BuildFail => "Build Result"@,
            },
    {
        match self {
            ResultType::TestPass | ResultType::TestFail => "Test Result",
            ResultType::BuildFail => "Build Result",
        }
    }

    /// Whether the result is shown as a success (green) rather than a failure (red).
    pub fn is_success(&self) -> (b: bool)
        ensures
            b == (*self == ResultType::TestPass),
    {
        match self {
            ResultType::TestPass => true,
            _ => false,
        }
    }
}

/// `s` right-aligned in a field of `width` characters.
pub open spec fn pad_left(s: Seq<char>, width: nat) -> Seq<char> {
    if s.len() >= width {
        s
    } else {
        Seq::new((width - s.len()) as nat, |i: int| ' ') + s
    }
}

/// Marks `s` as dimmed text for the terminal (`colored`'s `dimmed`, then
/// `to_string`): the text itself where colouring is off, else the text
/// between the dim and reset escape sequences. Which of the two depends on
/// the environment (`NO_COLOR`, `CLICOLOR`, whether the output is a terminal)
/// and is not stated.
#[verifier::external_body]
fn dim(s: &str) -> (r: String)
    requires
        !crate::text::contains(s@, "\u{1b}[0m"@),
    ensures
        r@ == s@ || r@ == "\u{1b}[2m"@ + s@ + "\u{1b}[0m"@,
{
    colored::Colorize::dimmed(s).to_string()
}

/// The line-number field of a comparison row: the number right-aligned in
/// `LINE_NUM_WIDTH` columns and dimmed on the first piece of a line, blank
/// on the pieces that continue it.
pub fn format_line_number(wrap_index: usize, line_number: usize) -> (r: String)
    ensures
        wrap_index == 0 ==> (r@ == pad_left(crate::text::decimal(line_number as nat), LINE_NUM_WIDTH as nat)
            || r@ == "\u{1b}[2m"@ + pad_left(crate::text::decimal(line_number as nat), LINE_NUM_WIDTH as nat)
            + "\u{1b}[0m"@),
        wrap_index != 0 ==> r@ == "   "@,
{
    if wrap_index != 0 {
        return crate::text::owned("   ");
    }
    let mut digits = String::new();
    crate::text::push_decimal(&mut digits, line_number);
    let dv = chars_of(digits.as_str());
    let mut padded = String::new();
    let mut k: usize = dv.len();
    while k < LINE_NUM_WIDTH
        invariant
            dv.len() <= k <= LINE_NUM_WIDTH || dv.len() >= LINE_NUM_WIDTH,
            dv.len() >= LINE_NUM_WIDTH ==> k == dv.len(),
            k >= dv.len(),
            padded@ == Seq::new((k - dv.len()) as nat, |i: int| ' '),
        decreases LINE_NUM_WIDTH - k,
    {
        crate::text::push_char(&mut padded, ' ');
        proof {
            assert(padded@ =~= Seq::new((k + 1 - dv.len()) as nat, |i: int| ' '));
        }
        k = k + 1;
    }
    crate::text::push_str_chars(&mut padded, digits.as_str());
    proof {
        let d = crate::text::decimal(line_number as nat);
        assert(digits@ == d);
        if d.len() >= LINE_NUM_WIDTH {
            assert(Seq::new(0nat, |i: int| ' ') =~= Seq::<char>::empty());
            assert(padded@ =~= d);
        } else {
            assert(padded@ =~= Seq::new((LINE_NUM_WIDTH - d.len()) as nat, |i: int| ' ') + d);
        }
        lemma_decimal_plain(line_number as nat);
        lemma_pad_plain(d, LINE_NUM_WIDTH as nat);
    }
    dim(padded.as_str())
}

/// Decimal digits hold no escape character.
proof fn lemma_decimal_plain(n: nat)
    ensures
        forall|i: int| 0 <= i < crate::text::decimal(n).len() ==> #[trigger] crate::text::decimal(n)[i] != '\u{1b}',
    decreases n,
{
    if n >= 10 {
        lemma_decimal_plain(n / 10);
        let d = crate::text::decimal(n);
        assert forall|i: int| 0 <= i < d.len() implies #[trigger] d[i] != '\u{1b}' by {
            if i < d.len() - 1 {
                assert(d[i] == crate::text::decimal(n / 10)[i]);
            }
        }
    }
}

proof fn lemma_pad_plain(d: Seq<char>, w: nat)
    requires
        forall|i: int| 0 <= i < d.len() ==> #[trigger] d[i] != '\u{1b}',
    ensures
        !crate::text::contains(pad_left(d, w), "\u{1b}[0m"@),
{
    let p = pad_left(d, w);
    assert forall|i: int| 0 <= i < p.len() implies #[trigger] p[i] != '\u{1b}' by {
        if d.len() < w && i >= w - d.len() {
            assert(p[i] == d[i - (w - d.len())]);
        }
    }
    reveal_strlit("\u{1b}[0m");
    if crate::text::contains(p, "\u{1b}[0m"@) {
        let k = choose|k: int| crate::text::matches_at(p, k, "\u{1b}[0m"@);
        assert(p.subrange(k, k + 4)[0] == p[k]);
        assert("\u{1b}[0m"@[0] == '\u{1b}');
    }
}

/// One printed row of the comparison: the source line number on the first
/// piece of a line, then the C and the Rust piece (empty where that side has
/// fewer pieces).
pub struct ComparisonRow {
    pub line_number: Option<usize>,
    pub c_text: String,
    pub rust_text: String,
}

/// The line at `i`, or the empty line past the end.
pub open spec fn line_or_empty(ls: Seq<Seq<char>>, i: int) -> Seq<char> {
    if 0 <= i < ls.len() { ls[i] } else { Seq::<char>::empty() }
}

/// The rows for one source line `num` with C text `c` and Rust text `r`.
pub open spec fn line_rows(c: Seq<char>, r: Seq<char>, cw: nat, rw: nat, num: nat) -> Seq<(Option<nat>, Seq<char>, Seq<char>)> {
    let a = chunks(c, cw);
    let b = chunks(r, rw);
    let m = if a.len() > b.len() { a.len() } else { b.len() };
    Seq::new(m, |j: int| (if j == 0 { Some(num) } else { None }, line_or_empty(a, j), line_or_empty(b, j)))
}

/// The rows for the first `n` source lines.
pub open spec fn rows_upto(cl: Seq<Seq<char>>, rl: Seq<Seq<char>>, cw: nat, rw: nat, n: nat) -> Seq<(Option<nat>, Seq<char>, Seq<char>)>
    decreases n,
{
    if n == 0 {
        Seq::empty()
    } else {
        rows_upto(cl, rl, cw, rw, (n - 1) as nat) + line_rows(
            line_or_empty(cl, n - 1),
            line_or_empty(rl, n - 1),
            cw,
            rw,
            n,
        )
    }
}

/// A row as mathematical values.
pub open spec fn row_view(r: ComparisonRow) -> (Option<nat>, Seq<char>, Seq<char>) {
    (match r.line_number {
        Some(n) => Some(n as nat),
        None => None,
    }, r.c_text@, r.rust_text@)
}

/// The rows of the side-by-side comparison of a C text and a Rust text, line
/// by line (the shorter side padded with empty lines), each line cut to its
/// column width.
pub fn comparison_rows(c_content: &str, rust_content: &str, c_width: usize, rust_width: usize) -> (r: Vec<ComparisonRow>)
    requires
        c_width > 0,
        rust_width > 0,
    ensures
        r@.map_values(|x: ComparisonRow| row_view(x)) == rows_upto(
            lines(c_content@),
            lines(rust_content@),
            c_width as nat,
            rust_width as nat,
            if lines(c_content@).len() > lines(rust_content@).len() {
                lines(c_content@).len()
            } else {
                lines(rust_content@).len()
            },
        ),
{
    let cv = chars_of(c_content);
    let rv = chars_of(rust_content);
    let cls = split_lines(&cv);
    let rls = split_lines(&rv);
    let ghost cl = cls@.map_values(|l: Vec<char>| l@);
    let ghost rl = rls@.map_values(|l: Vec<char>| l@);
    let max_lines = if cls.len() > rls.len() { cls.len() } else { rls.len() };
    let mut rows: Vec<ComparisonRow> = Vec::new();
    let mut i: usize = 0;
    proof {
        assert(cl.len() == cls.len() && rl.len() == rls.len());
        assert(rows@.map_values(|x: ComparisonRow| row_view(x)) =~= rows_upto(cl, rl, c_width as nat, rust_width as nat, 0));
    }
    while i < max_lines
        invariant
            i <= max_lines,
            max_lines == if cls.len() > rls.len() { cls.len() } else { rls.len() },
            cl == cls@.map_values(|l: Vec<char>| l@),
            rl == rls@.map_values(|l: Vec<char>| l@),
            c_width > 0,
            rust_width > 0,
            rows@.map_values(|x: ComparisonRow| row_view(x)) == rows_upto(cl, rl, c_width as nat, rust_width as nat, i as nat),
        decreases max_lines - i,
    {
        let c_line = if i < cls.len() { string_of(&cls[i]) } else { String::new() };
        let r_line = if i < rls.len() { string_of(&rls[i]) } else { String::new() };
        proof {
            if i < cls.len() {
                assert(cl[i as int] == cls@[i as int]@);
            }
            if i < rls.len() {
                assert(rl[i as int] == rls@[i as int]@);
            }
            assert(c_line@ == line_or_empty(cl, i as int));
            assert(r_line@ == line_or_empty(rl, i as int));
        }
        let a = wrap_line(c_line.as_str(), c_width);
        let b = wrap_line(r_line.as_str(), rust_width);
        let ghost av = a@.map_values(|s: String| s@);
        let ghost bv = b@.map_values(|s: String| s@);
        let m = if a.len() > b.len() { a.len() } else { b.len() };
        let ghost base = rows@.map_values(|x: ComparisonRow| row_view(x));
        let ghost target = line_rows(c_line@, r_line@, c_width as nat, rust_width as nat, (i + 1) as nat);
        let mut j: usize = 0;
        proof {
            assert(av.len() == a.len() && bv.len() == b.len());
            assert(target.len() == m);
            assert(target.take(0) =~= Seq::<(Option<nat>, Seq<char>, Seq<char>)>::empty());
            assert(base + target.take(0) =~= base);
        }
        while j < m
            invariant
                j <= m,
                m == if a.len() > b.len() { a.len() } else { b.len() },
                av == a@.map_values(|s: String| s@),
                bv == b@.map_values(|s: String| s@),
                av == chunks(c_line@, c_width as nat),
                bv == chunks(r_line@, rust_width as nat),
                target == line_rows(c_line@, r_line@, c_width as nat, rust_width as nat, (i + 1) as nat),
                target.len() == m,
                i < max_lines,
                rows@.map_values(|x: ComparisonRow| row_view(x)) == base + target.take(j as int),
            decreases m - j,
        {
            let number = if j == 0 { Some(i + 1) } else { None };
            let ct = if j < a.len() { crate::text::copy_string(&a[j]) } else { String::new() };
            let rt = if j < b.len() { crate::text::copy_string(&b[j]) } else { String::new() };
            let ghost before = rows@.map_values(|x: ComparisonRow| row_view(x));
            let row = ComparisonRow { line_number: number, c_text: ct, rust_text: rt };
            proof {
                if j < a.len() {
                    assert(av[j as int] == a@[j as int]@);
                }
                if j < b.len() {
                    assert(bv[j as int] == b@[j as int]@);
                }
                assert(row_view(row) == target[j as int]);
            }
            rows.push(row);
            proof {
                assert(rows@.map_values(|x: ComparisonRow| row_view(x)) =~= before.push(target[j as int]));
                assert(target.take(j + 1) =~= target.take(j as int).push(target[j as int]));
                assert(base + target.take(j + 1) =~= (base + target.take(j as int)).push(target[j as int]));
            }
            j = j + 1;
        }
        proof {
            assert(target.take(m as int) =~= target);
        }
        i = i + 1;
    }
    rows
}

/// The pieces joined back together.
pub open spec fn concat_pieces(ps: Seq<Seq<char>>) -> Seq<char>
    decreases ps.len(),
{
    if ps.len() == 0 {
        Seq::<char>::empty()
    } else {
        ps[0] + concat_pieces(ps.drop_first())
    }
}

/// Wrapping loses and adds nothing: the pieces joined give back the line, and
/// with a positive width no piece is wider than the column.
pub proof fn lemma_wrap_keeps_text(s: Seq<char>, width: nat)
    ensures
        concat_pieces(chunks(s, width)) == s,
        width > 0 ==> forall|i: int| 0 <= i < chunks(s, width).len() ==> #[trigger] chunks(s, width)[i].len() <= width,
    decreases s.len(),
{
    if s.len() <= width || width == 0 {
        assert(chunks(s, width) == seq![s]);
        assert(seq![s].drop_first() =~= Seq::<Seq<char>>::empty());
        assert(concat_pieces(seq![s].drop_first()) == Seq::<char>::empty());
        assert(seq![s][0] == s);
        assert(s + Seq::<char>::empty() =~= s);
    } else {
        let rest = s.skip(width as int);
        lemma_wrap_keeps_text(rest, width);
        let c = chunks(s, width);
        assert(c == seq![s.take(width as int)] + chunks(rest, width));
        assert(c.drop_first() =~= chunks(rest, width));
        assert(c[0] == s.take(width as int));
        assert(concat_pieces(c) == c[0] + concat_pieces(c.drop_first()));
        assert(s.take(width as int) + rest =~= s);
        assert forall|i: int| 0 <= i < c.len() implies #[trigger] c[i].len() <= width by {
            if i > 0 {
                assert(c[i] == chunks(rest, width)[i - 1]);
            }
        }
    }
}

} // verus!
