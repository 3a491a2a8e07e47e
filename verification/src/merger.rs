//! Merging the translated item files of a feature into one Rust file: the
//! leading `use` lines of every file are gathered, each distinct line once in
//! lexicographic order, and the remaining bodies follow in file order.

use vstd::prelude::*;
use crate::stats::texts;
use crate::text::{
    copy_string,
    starts_with_at,
    chars_of, lines, push_char, push_range, push_str_chars, split_lines, string_of, sub_chars, trim,
    trim_bounds,
};

verus! {

// ---------------------------------------------------------------------------
// Lexicographic order of texts (the order of `String`'s `Ord`)
// ---------------------------------------------------------------------------

/// `a` comes strictly before `b` character by character, a proper prefix first.
pub open spec fn lex_lt(a: Seq<char>, b: Seq<char>) -> bool
    decreases a.len(),
{
    if a.len() == 0 {
        b.len() > 0
    } else if b.len() == 0 {
        false
    } else if a[0] < b[0] {
        true
    } else if a[0] > b[0] {
        false
    } else {
        lex_lt(a.drop_first(), b.drop_first())
    }
}

pub proof fn lemma_lex_irreflexive(a: Seq<char>)
    ensures
        !lex_lt(a, a),
    decreases a.len(),
{
    if a.len() > 0 {
        lemma_lex_irreflexive(a.drop_first());
    }
}

pub proof fn lemma_lex_total(a: Seq<char>, b: Seq<char>)
    ensures
        a == b || lex_lt(a, b) || lex_lt(b, a),
        !(lex_lt(a, b) && lex_lt(b, a)),
    decreases a.len(),
{
    if a.len() > 0 && b.len() > 0 {
        lemma_lex_total(a.drop_first(), b.drop_first());
        if a[0] == b[0] && a.drop_first() == b.drop_first() {
            assert(a =~= seq![a[0]] + a.drop_first());
            assert(b =~= seq![b[0]] + b.drop_first());
        }
    } else if a.len() == 0 && b.len() == 0 {
        assert(a =~= b);
    }
}

pub proof fn lemma_lex_transitive(a: Seq<char>, b: Seq<char>, c: Seq<char>)
    requires
        lex_lt(a, b),
        lex_lt(b, c),
    ensures
        lex_lt(a, c),
    decreases a.len(),
{
    if a.len() > 0 && b.len() > 0 && c.len() > 0 {
        if a[0] == b[0] && b[0] == c[0] {
            lemma_lex_transitive(a.drop_first(), b.drop_first(), c.drop_first());
        }
    }
}

/// Strictly increasing in [`lex_lt`].
pub open spec fn lex_sorted(s: Seq<Seq<char>>) -> bool {
    forall|i: int, j: int| 0 <= i < j < s.len() ==> lex_lt(#[trigger] s[i], #[trigger] s[j])
}

/// Whether `a` comes strictly before `b`.
pub fn text_lt(a: &Vec<char>, b: &Vec<char>) -> (r: bool)
    ensures
        r == lex_lt(a@, b@),
{
    let mut i: usize = 0;
    proof {
        assert(a@.skip(0) =~= a@);
        assert(b@.skip(0) =~= b@);
    }
    while i < a.len() && i < b.len()
        invariant
            i <= a.len(),
            i <= b.len(),
            a@.take(i as int) == b@.take(i as int),
            lex_lt(a@, b@) == lex_lt(a@.skip(i as int), b@.skip(i as int)),
        decreases a.len() - i,
    {
        let x = a[i];
        let y = b[i];
        proof {
            assert(a@.skip(i as int)[0] == x);
            assert(b@.skip(i as int)[0] == y);
        }
        if x < y {
            return true;
        }
        if x > y {
            return false;
        }
        proof {
            assert(a@.skip(i as int).drop_first() =~= a@.skip(i + 1));
            assert(b@.skip(i as int).drop_first() =~= b@.skip(i + 1));
            assert(x == y);
            assert(a@.take(i + 1) =~= a@.take(i as int).push(x));
            assert(b@.take(i + 1) =~= b@.take(i as int).push(y));
        }
        i = i + 1;
    }
    proof {
        assert(a@.skip(i as int).len() == a.len() - i);
        assert(b@.skip(i as int).len() == b.len() - i);
    }
    i == a.len() && i < b.len()
}

// ---------------------------------------------------------------------------
// The set of gathered `use` lines
// ---------------------------------------------------------------------------

/// Distinct `use` lines kept in lexicographic order (the order in which a
/// `BTreeSet<String>` yields them).
pub struct UseSet {
    items: Vec<String>,
}

impl UseSet {
    /// The lines, in order.
    pub closed spec fn ordered(&self) -> Seq<Seq<char>> {
        self.items@.map_values(|s: String| s@)
    }

    pub closed spec fn well_formed(&self) -> bool {
        lex_sorted(self.ordered())
    }

    /// An empty set.
    pub fn new() -> (u: Self)
        ensures
            u.well_formed(),
            u.ordered() == Seq::<Seq<char>>::empty(),
    {
        let u = UseSet { items: Vec::new() };
        proof {
            assert(u.ordered() =~= Seq::<Seq<char>>::empty());
        }
        u
    }

    /// The number of lines.
    pub fn len(&self) -> (n: usize)
        ensures
            n == self.ordered().len(),
    {
        self.items.len()
    }

    /// Whether no line is held.
    pub fn is_empty(&self) -> (b: bool)
        ensures
            b == (self.ordered().len() == 0),
    {
        self.items.len() == 0
    }

    /// The lines, in order.
    pub fn lines(&self) -> (r: &Vec<String>)
        ensures
            r@.map_values(|s: String| s@) == self.ordered(),
    {
        &self.items
    }

    /// Adds `stmt` unless an equal line is already held.
    pub fn insert(&mut self, stmt: String)
        requires
            old(self).well_formed(),
        ensures
            final(self).well_formed(),
            final(self).ordered().to_set() == old(self).ordered().to_set().insert(stmt@),
    {
        let ghost s = self.ordered();
        let x = chars_of(stmt.as_str());
        let mut i: usize = 0;
        while i < self.items.len()
            invariant
                i <= self.items.len(),
                s == self.ordered(),
                lex_sorted(s),
                x@ == stmt@,
                forall|j: int| 0 <= j < i ==> lex_lt(#[trigger] s[j], x@),
            ensures
                i <= self.items.len(),
                s == self.ordered(),
                forall|j: int| 0 <= j < i ==> lex_lt(#[trigger] s[j], x@),
                i < self.items.len() ==> !lex_lt(s[i as int], x@),
            decreases self.items.len() - i,
        {
            let y = chars_of(self.items[i].as_str());
            proof {
                assert(s[i as int] == y@);
            }
            if !text_lt(&y, &x) {
                break;
            }
            i = i + 1;
        }
        if i < self.items.len() {
            let y = chars_of(self.items[i].as_str());
            proof {
                assert(s[i as int] == y@);
                lemma_lex_total(y@, x@);
            }
            if !text_lt(&x, &y) {
                proof {
                    assert(y@ == x@);
                    assert(s.to_set().insert(stmt@) =~= s.to_set()) by {
                        assert(s.contains(stmt@));
                    }
                }
                return;
            }
        }
        self.items.insert(i, stmt);
        proof {
            let t = self.ordered();
            assert(t =~= s.take(i as int).push(x@) + s.skip(i as int));
            assert forall|a: int, b: int| 0 <= a < b < t.len() implies lex_lt(#[trigger] t[a], #[trigger] t[b]) by {
                if b < i {
                    assert(t[a] == s[a] && t[b] == s[b]);
                } else if b == i {
                    assert(t[a] == s[a]);
                } else if a == i {
                    assert(t[b] == s[b - 1]);
                    lemma_lex_total(s[i as int], x@);
                    if b - 1 > i {
                        lemma_lex_transitive(x@, s[i as int], s[b - 1]);
                    }
                } else if a < i {
                    assert(t[a] == s[a] && t[b] == s[b - 1]);
                } else {
                    assert(t[a] == s[a - 1] && t[b] == s[b - 1]);
                }
            }
            assert(t.to_set() =~= s.to_set().insert(stmt@)) by {
                assert forall|e: Seq<char>| t.contains(e) implies s.to_set().insert(stmt@).contains(e) by {
                    let k = choose|k: int| 0 <= k < t.len() && t[k] == e;
                    if k < i {
                        assert(s[k] == e);
                    } else if k > i {
                        assert(s[k - 1] == e);
                    }
                }
                assert forall|e: Seq<char>| s.to_set().insert(stmt@).contains(e) implies t.contains(e) by {
                    if e == stmt@ {
                        assert(t[i as int] == e);
                    } else {
                        let k = choose|k: int| 0 <= k < s.len() && s[k] == e;
                        if k < i {
                            assert(t[k] == e);
                        } else {
                            assert(t[k + 1] == e);
                        }
                    }
                }
            }
        }
    }
}

// ---------------------------------------------------------------------------
// Splitting one file into its `use` lines and its body
// ---------------------------------------------------------------------------

/// A one-line `use` statement (already trimmed).
pub open spec fn is_use_stmt(t: Seq<char>) -> bool {
    "use "@.is_prefix_of(t) && t.len() > 0 && t.last() == ';'
}

/// A line that may stand in the leading `use` section: a `use` line, an empty line or a `//` comment.
pub open spec fn is_header_line(l: Seq<char>) -> bool {
    is_use_stmt(trim(l)) || trim(l).len() == 0 || "//"@.is_prefix_of(trim(l))
}

/// How many of the first `n` lines form the leading `use` section.
pub open spec fn header_len(ls: Seq<Seq<char>>, n: int) -> int
    decreases n,
{
    if n <= 0 {
        0
    } else {
        let h = header_len(ls, n - 1);
        if h == n - 1 && is_header_line(ls[n - 1]) {
            n
        } else {
            h
        }
    }
}

/// The trimmed `use` lines among the first `n` lines.
pub open spec fn uses_upto(ls: Seq<Seq<char>>, n: int) -> Seq<Seq<char>>
    decreases n,
{
    if n <= 0 {
        Seq::<Seq<char>>::empty()
    } else {
        let u = uses_upto(ls, n - 1);
        if is_use_stmt(trim(ls[n - 1])) {
            u.push(trim(ls[n - 1]))
        } else {
            u
        }
    }
}

/// The lines joined with `\n` between them (`join("\n")`).
pub open spec fn join_lines(ls: Seq<Seq<char>>) -> Seq<char>
    decreases ls.len(),
{
    if ls.len() == 0 {
        Seq::<char>::empty()
    } else if ls.len() == 1 {
        ls[0]
    } else {
        join_lines(ls.drop_last()) + seq!['\n'] + ls.last()
    }
}

pub proof fn lemma_header_len_bounds(ls: Seq<Seq<char>>, n: int)
    requires
        0 <= n,
    ensures
        0 <= header_len(ls, n) <= n,
        forall|j: int| 0 <= j < header_len(ls, n) ==> is_header_line(#[trigger] ls[j]),
    decreases n,
{
    if n > 0 {
        lemma_header_len_bounds(ls, n - 1);
    }
}

/// Whether the trimmed line `t` is a one-line `use` statement.
fn is_use_stmt_exec(t: &Vec<char>) -> (b: bool)
    ensures
        b == is_use_stmt(t@),
{
    let p = chars_of("use ");
    starts_with_at(t, 0, &p) && t.len() > 0 && t[t.len() - 1] == ';' && {
        proof {
            assert(t@.subrange(0, p@.len() as int) =~= t@.take(p@.len() as int));
        }
        true
    }
}

/// Splits a Rust file into its leading `use` lines (trimmed, in order) and
/// the rest. The leading section is made of `use …;` lines, empty lines and
/// `//` comments; from the first other line on, everything (a `use` inside a
/// function too) belongs to the body, whose lines are joined with `\n`.
pub fn split_use_and_code(content: &str) -> (r: (Vec<String>, String))
    ensures
        ({
            let ls = lines(content@);
            let h = header_len(ls, ls.len() as int);
            &&& r.0@.map_values(|s: String| s@) == uses_upto(ls, h)
            &&& r.1@ == join_lines(ls.skip(h))
            &&& 0 <= h <= ls.len()
            &&& forall|j: int| 0 <= j < h ==> ({
                let t = trim(#[trigger] ls[j]);
                ("use "@.is_prefix_of(t) && t.len() > 0 && t.last() == ';') || t.len() == 0 || "//"@.is_prefix_of(t)
            })
            &&& h < ls.len() ==> ({
                let t = trim(ls[h]);
                &&& !("use "@.is_prefix_of(t) && t.len() > 0 && t.last() == ';')
                &&& t.len() > 0
                &&& !"//"@.is_prefix_of(t)
            })
            &&& forall|i: int| 0 <= i < r.0.len() ==> "use "@.is_prefix_of(#[trigger] r.0@[i]@) && r.0@[i]@.len() > 0
                && r.0@[i]@.last() == ';'
        }),
{
    let v = chars_of(content);
    let ls = split_lines(&v);
    let ghost lsv = ls@.map_values(|l: Vec<char>| l@);
    let ghost n = lsv.len() as int;
    let mut uses: Vec<String> = Vec::new();
    let mut i: usize = 0;
    let comment = chars_of("//");
    while i < ls.len()
        invariant
            i <= ls.len(),
            lsv == ls@.map_values(|l: Vec<char>| l@),
            lsv == lines(content@),
            n == ls.len(),
            comment@ == "//"@,
            header_len(lsv, i as int) == i,
            uses@.map_values(|s: String| s@) == uses_upto(lsv, i as int),
        ensures
            i <= ls.len(),
            header_len(lsv, i as int) == i,
            i < ls.len() ==> !is_header_line(lsv[i as int]),
            uses@.map_values(|s: String| s@) == uses_upto(lsv, i as int),
        decreases ls.len() - i,
    {
        let l = &ls[i];
        proof {
            assert(lsv[i as int] == l@);
        }
        let (a, b) = trim_bounds(l, 0, l.len());
        proof {
            assert(l@.subrange(0, l@.len() as int) =~= l@);
        }
        let t = sub_chars(l, a, b);
        if is_use_stmt_exec(&t) {
            let ghost before = uses@.map_values(|s: String| s@);
            uses.push(string_of(&t));
            proof {
                assert(uses@.map_values(|s: String| s@) =~= before.push(t@));
            }
        } else if t.len() == 0 || starts_with_at(&t, 0, &comment) {
            proof {
                if t.len() > 0 {
                    assert(t@.subrange(0, 2) =~= t@.take(2));
                }
            }
        } else {
            proof {
                if "//"@.is_prefix_of(t@) {
                    assert(t@.subrange(0, comment@.len() as int) =~= comment@);
                }
            }
            break;
        }
        i = i + 1;
    }
    let h = i;
    proof {
        assert forall|m: int| h < m <= n implies header_len(lsv, m) == h by {
            lemma_header_len_step(lsv, h as int, m);
        }
        assert(uses_upto(lsv, h as int) == uses_upto(lsv, header_len(lsv, n)));
    }
    let mut body = String::new();
    let mut k: usize = h;
    proof {
        assert(lsv.subrange(h as int, h as int) =~= Seq::<Seq<char>>::empty());
    }
    while k < ls.len()
        invariant
            h <= k <= ls.len(),
            lsv == ls@.map_values(|l: Vec<char>| l@),
            body@ == join_lines(lsv.subrange(h as int, k as int)),
        decreases ls.len() - k,
    {
        let ghost before = body@;
        if k > h {
            push_char(&mut body, '\n');
        }
        let l = &ls[k];
        push_range(&mut body, l, 0, l.len());
        proof {
            assert(lsv[k as int] == l@);
            assert(l@.subrange(0, l@.len() as int) =~= l@);
            let s1 = lsv.subrange(h as int, k + 1);
            assert(s1.drop_last() =~= lsv.subrange(h as int, k as int));
            assert(s1.last() == l@);
            if k == h {
                assert(s1.len() == 1);
            }
        }
        k = k + 1;
    }
    proof {
        assert(lsv.subrange(h as int, n) =~= lsv.skip(h as int));
        lemma_split_point(content@);
        lemma_uses_are_use_lines(lsv, h as int);
        assert forall|i: int| 0 <= i < uses.len() implies "use "@.is_prefix_of(#[trigger] uses@[i]@) && uses@[i]@.len() > 0
            && uses@[i]@.last() == ';' by {
            assert(uses@.map_values(|s: String| s@)[i] == uses@[i]@);
        }
    }
    (uses, body)
}

/// Every line collected as a `use` is a one-line `use` statement.
proof fn lemma_uses_are_use_lines(ls: Seq<Seq<char>>, n: int)
    ensures
        forall|i: int| 0 <= i < uses_upto(ls, n).len() ==> is_use_stmt(#[trigger] uses_upto(ls, n)[i]),
    decreases n,
{
    if n > 0 {
        lemma_uses_are_use_lines(ls, n - 1);
        let u = uses_upto(ls, n - 1);
        assert forall|i: int| 0 <= i < uses_upto(ls, n).len() implies is_use_stmt(#[trigger] uses_upto(ls, n)[i]) by {
            if i < u.len() {
                assert(uses_upto(ls, n)[i] == u[i]);
            }
        }
    }
}

/// The leading `use` section of a file ends at its first line that is not a
/// `use …;` statement, not blank and not a `//` comment: every line before the
/// split point is one of those three, and the line at the split point, when
/// there is one, is none of them, so it and every line after it stay in the body.
pub proof fn lemma_split_point(content: Seq<char>)
    ensures
        ({
            let ls = lines(content);
            let h = header_len(ls, ls.len() as int);
            &&& 0 <= h <= ls.len()
            &&& forall|j: int| 0 <= j < h ==> ({
                let t = trim(#[trigger] ls[j]);
                ("use "@.is_prefix_of(t) && t.len() > 0 && t.last() == ';') || t.len() == 0 || "//"@.is_prefix_of(t)
            })
            &&& h < ls.len() ==> ({
                let t = trim(ls[h]);
                &&& !("use "@.is_prefix_of(t) && t.len() > 0 && t.last() == ';')
                &&& t.len() > 0
                &&& !"//"@.is_prefix_of(t)
            })
        }),
{
    let ls = lines(content);
    lemma_header_len_bounds(ls, ls.len() as int);
    lemma_header_len_stop(ls, ls.len() as int);
}

/// Where the leading section stops before `n`, the line it stops at does not belong to it.
proof fn lemma_header_len_stop(ls: Seq<Seq<char>>, n: int)
    requires
        0 <= n,
    ensures
        header_len(ls, n) < n ==> !is_header_line(ls[header_len(ls, n)]) && header_len(ls, header_len(ls, n))
            == header_len(ls, n),
    decreases n,
{
    if n > 0 {
        lemma_header_len_stop(ls, n - 1);
        lemma_header_len_bounds(ls, n - 1);
    }
}

proof fn lemma_header_len_step(ls: Seq<Seq<char>>, h: int, m: int)
    requires
        0 <= h < m,
        h < ls.len(),
        header_len(ls, h) == h,
        !is_header_line(ls[h]),
    ensures
        header_len(ls, m) == h,
    decreases m,
{
    if m > h + 1 {
        lemma_header_len_step(ls, h, m - 1);
    }
}

// ---------------------------------------------------------------------------
// Assembling the merged file
// ---------------------------------------------------------------------------

/// Each line followed by `\n`.
pub open spec fn use_block(us: Seq<Seq<char>>) -> Seq<char>
    decreases us.len(),
{
    if us.len() == 0 {
        Seq::<char>::empty()
    } else {
        use_block(us.drop_last()) + us.last() + seq!['\n']
    }
}

/// Each body that is not blank, trimmed and followed by an empty line.
pub open spec fn body_block(bs: Seq<Seq<char>>) -> Seq<char>
    decreases bs.len(),
{
    if bs.len() == 0 {
        Seq::<char>::empty()
    } else {
        body_block(bs.drop_last()) + if trim(bs.last()).len() > 0 {
            trim(bs.last()) + seq!['\n', '\n']
        } else {
            Seq::<char>::empty()
        }
    }
}

/// The merged file: the `use` lines, an empty line if there were any, then the bodies.
pub open spec fn merged_text(us: Seq<Seq<char>>, bs: Seq<Seq<char>>) -> Seq<char> {
    use_block(us) + (if us.len() > 0 { seq!['\n'] } else { Seq::<char>::empty() }) + body_block(bs)
}

/// Assembles the merged file from the gathered `use` lines and the bodies, in order.
pub fn build_merged_content(use_statements: &UseSet, code_bodies: &Vec<String>) -> (r: String)
    ensures
        r@ == merged_text(use_statements.ordered(), code_bodies@.map_values(|s: String| s@)),
{
    let items = use_statements.lines();
    let ghost us = use_statements.ordered();
    let mut merged = String::new();
    let mut i: usize = 0;
    proof {
        assert(us.take(0) =~= Seq::<Seq<char>>::empty());
    }
    while i < items.len()
        invariant
            i <= items.len(),
            items@.map_values(|s: String| s@) == us,
            merged@ == use_block(us.take(i as int)),
        decreases items.len() - i,
    {
        push_str_chars(&mut merged, items[i].as_str());
        push_char(&mut merged, '\n');
        proof {
            assert(us[i as int] == items@[i as int]@);
            assert(us.take(i + 1).drop_last() =~= us.take(i as int));
        }
        i = i + 1;
    }
    proof {
        assert(us.take(items.len() as int) =~= us);
    }
    if !use_statements.is_empty() {
        push_char(&mut merged, '\n');
    }
    let ghost prefix = merged@;
    let ghost bs = code_bodies@.map_values(|s: String| s@);
    let mut k: usize = 0;
    proof {
        assert(bs.take(0) =~= Seq::<Seq<char>>::empty());
    }
    while k < code_bodies.len()
        invariant
            k <= code_bodies.len(),
            bs == code_bodies@.map_values(|s: String| s@),
            merged@ == prefix + body_block(bs.take(k as int)),
        decreases code_bodies.len() - k,
    {
        let b = chars_of(code_bodies[k].as_str());
        let (lo, hi) = trim_bounds(&b, 0, b.len());
        let ghost before = merged@;
        proof {
            assert(b@.subrange(0, b@.len() as int) =~= b@);
            assert(bs[k as int] == b@);
            assert(bs.take(k + 1).drop_last() =~= bs.take(k as int));
        }
        if lo < hi {
            push_range(&mut merged, &b, lo, hi);
            push_char(&mut merged, '\n');
            push_char(&mut merged, '\n');
            proof {
                assert(merged@ =~= before + (trim(b@) + seq!['\n', '\n']));
            }
        } else {
            proof {
                assert(merged@ =~= before + Seq::<char>::empty());
            }
        }
        k = k + 1;
    }
    proof {
        assert(bs.take(code_bodies.len() as int) =~= bs);
    }
    merged
}

/// The `use` lines of a file (see [`split_use_and_code`]).
pub open spec fn file_uses(c: Seq<char>) -> Seq<Seq<char>> {
    uses_upto(lines(c), header_len(lines(c), lines(c).len() as int))
}

/// The body of a file (see [`split_use_and_code`]).
pub open spec fn file_body(c: Seq<char>) -> Seq<char> {
    join_lines(lines(c).skip(header_len(lines(c), lines(c).len() as int)))
}

/// The distinct `use` lines of the first `n` files.
pub open spec fn all_uses(cs: Seq<Seq<char>>, n: int) -> Set<Seq<char>>
    decreases n,
{
    if n <= 0 {
        Set::<Seq<char>>::empty()
    } else {
        all_uses(cs, n - 1) + file_uses(cs[n - 1]).to_set()
    }
}

/// The bodies of the first `n` files that are not blank.
pub open spec fn kept_bodies(cs: Seq<Seq<char>>, n: int) -> Seq<Seq<char>>
    decreases n,
{
    if n <= 0 {
        Seq::<Seq<char>>::empty()
    } else if trim(file_body(cs[n - 1])).len() > 0 {
        kept_bodies(cs, n - 1).push(file_body(cs[n - 1]))
    } else {
        kept_bodies(cs, n - 1)
    }
}

/// Merges the texts of translated item files, in the order given: every
/// distinct leading `use` line once, in lexicographic order, then the bodies
/// that are not blank.
pub fn merge_contents(contents: &Vec<String>) -> (r: String)
    ensures
        exists|us: Seq<Seq<char>>| #[trigger] lex_sorted(us) && us.to_set() == all_uses(texts(contents@), contents.len() as int)
            && r@ == merged_text(us, kept_bodies(texts(contents@), contents.len() as int)),
{
    let ghost cs = texts(contents@);
    let mut set = UseSet::new();
    let mut bodies: Vec<String> = Vec::new();
    let mut i: usize = 0;
    proof {
        assert(set.ordered().to_set() =~= Set::<Seq<char>>::empty());
    }
    while i < contents.len()
        invariant
            i <= contents.len(),
            cs == texts(contents@),
            set.well_formed(),
            set.ordered().to_set() == all_uses(cs, i as int),
            bodies@.map_values(|s: String| s@) == kept_bodies(cs, i as int),
        decreases contents.len() - i,
    {
        let (uses, body) = split_use_and_code(contents[i].as_str());
        proof {
            assert(cs[i as int] == contents@[i as int]@);
        }
        let ghost base = set.ordered().to_set();
        let ghost fu = uses@.map_values(|s: String| s@);
        let mut j: usize = 0;
        proof {
            assert(fu.take(0).to_set() =~= Set::<Seq<char>>::empty());
            assert(base + fu.take(0).to_set() =~= base);
        }
        while j < uses.len()
            invariant
                j <= uses.len(),
                fu == uses@.map_values(|s: String| s@),
                set.well_formed(),
                set.ordered().to_set() == base + fu.take(j as int).to_set(),
            decreases uses.len() - j,
        {
            let ghost before = set.ordered().to_set();
            set.insert(copy_string(&uses[j]));
            proof {
                assert(fu[j as int] == uses@[j as int]@);
                assert(fu.take(j + 1) =~= fu.take(j as int).push(fu[j as int]));
                assert(fu.take(j + 1).to_set() =~= fu.take(j as int).to_set().insert(fu[j as int])) by {
                    fu.take(j as int).lemma_push_to_set_commute(fu[j as int]);
                }
                assert(set.ordered().to_set() =~= base + fu.take(j + 1).to_set());
            }
            j = j + 1;
        }
        proof {
            assert(fu.take(uses.len() as int) =~= fu);
        }
        let bc = chars_of(body.as_str());
        let (lo, hi) = trim_bounds(&bc, 0, bc.len());
        proof {
            assert(bc@.subrange(0, bc@.len() as int) =~= bc@);
        }
        if lo < hi {
            let ghost before = bodies@.map_values(|s: String| s@);
            bodies.push(body);
            proof {
                assert(bodies@.map_values(|s: String| s@) =~= before.push(file_body(cs[i as int])));
            }
        }
        i = i + 1;
    }
    let r = build_merged_content(&set, &bodies);
    proof {
        let us = set.ordered();
        assert(lex_sorted(us));
        assert(r@ == merged_text(us, kept_bodies(cs, contents.len() as int)));
    }
    r
}

/// In the merged file every gathered `use` line stands exactly once: the
/// lines in lexicographic order hold no repeats.
pub proof fn lemma_sorted_uses_distinct(us: Seq<Seq<char>>)
    requires
        lex_sorted(us),
    ensures
        us.no_duplicates(),
{
    assert forall|i: int, j: int| 0 <= i < us.len() && 0 <= j < us.len() && i != j implies us[i] != us[j] by {
        if i < j {
            assert(lex_lt(us[i], us[j]));
            if us[i] == us[j] {
                lemma_lex_irreflexive(us[i]);
            }
        } else {
            assert(lex_lt(us[j], us[i]));
            if us[i] == us[j] {
                lemma_lex_irreflexive(us[j]);
            }
        }
    }
}

} // verus!
