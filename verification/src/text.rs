//! Character-level text helpers shared by the parsers of this crate.
//!
//! Text is modelled as `Seq<char>`, the view of `str` and `String`.

use vstd::prelude::*;

verus! {

// ---------------------------------------------------------------------------
// Whitespace and trimming
// ---------------------------------------------------------------------------

/// Unicode `White_Space` (what `char::is_whitespace` tests).
pub open spec fn is_ws(c: char) -> bool {
    let u = c as u32;
    (9 <= u && u <= 13) || u == 32 || u == 0x85 || u == 0xa0 || u == 0x1680 || (0x2000 <= u
        && u <= 0x200a) || u == 0x2028 || u == 0x2029 || u == 0x202f || u == 0x205f || u == 0x3000
}

pub fn is_ws_char(c: char) -> (b: bool)
    ensures
        b == is_ws(c),
{
    let u = c as u32;
    (9 <= u && u <= 13) || u == 32 || u == 0x85 || u == 0xa0 || u == 0x1680 || (0x2000 <= u
        && u <= 0x200a) || u == 0x2028 || u == 0x2029 || u == 0x202f || u == 0x205f || u == 0x3000
}

/// `s` without its leading characters that satisfy `f`.
pub open spec fn strip_lead(s: Seq<char>, f: spec_fn(char) -> bool) -> Seq<char>
    decreases s.len(),
{
    if s.len() > 0 && f(s[0]) {
        strip_lead(s.drop_first(), f)
    } else {
        s
    }
}

/// `s` without its trailing characters that satisfy `f`.
pub open spec fn strip_trail(s: Seq<char>, f: spec_fn(char) -> bool) -> Seq<char>
    decreases s.len(),
{
    if s.len() > 0 && f(s.last()) {
        strip_trail(s.drop_last(), f)
    } else {
        s
    }
}

pub open spec fn ws_pred() -> spec_fn(char) -> bool {
    |c: char| is_ws(c)
}

pub open spec fn char_pred(ch: char) -> spec_fn(char) -> bool {
    |c: char| c == ch
}

/// What `str::trim` returns.
pub open spec fn trim(s: Seq<char>) -> Seq<char> {
    strip_trail(strip_lead(s, ws_pred()), ws_pred())
}

/// What `str::trim_matches(ch)` returns for a single character pattern.
pub open spec fn trim_char(s: Seq<char>, ch: char) -> Seq<char> {
    strip_trail(strip_lead(s, char_pred(ch)), char_pred(ch))
}

pub proof fn lemma_strip_lead_at(s: Seq<char>, f: spec_fn(char) -> bool, i: int)
    requires
        0 <= i <= s.len(),
        forall|j: int| 0 <= j < i ==> f(#[trigger] s[j]),
        i == s.len() || !f(s[i]),
    ensures
        strip_lead(s, f) == s.skip(i),
    decreases i,
{
    if i > 0 {
        let t = s.drop_first();
        assert forall|j: int| 0 <= j < i - 1 implies f(#[trigger] t[j]) by {
            assert(t[j] == s[j + 1]);
        }
        if i - 1 < t.len() {
            assert(t[i - 1] == s[i]);
        }
        lemma_strip_lead_at(t, f, i - 1);
        assert(t.skip(i - 1) =~= s.skip(i));
    } else {
        assert(s.skip(0) =~= s);
    }
}

pub proof fn lemma_strip_trail_at(s: Seq<char>, f: spec_fn(char) -> bool, k: int)
    requires
        0 <= k <= s.len(),
        forall|j: int| k <= j < s.len() ==> f(#[trigger] s[j]),
        k == 0 || !f(s[k - 1]),
    ensures
        strip_trail(s, f) == s.take(k),
    decreases s.len() - k,
{
    if k < s.len() {
        let t = s.drop_last();
        assert forall|j: int| k <= j < t.len() implies f(#[trigger] t[j]) by {
            assert(t[j] == s[j]);
        }
        if k > 0 {
            assert(t[k - 1] == s[k - 1]);
        }
        assert(f(s.last()));
        lemma_strip_trail_at(t, f, k);
        assert(t.take(k) =~= s.take(k));
    } else {
        assert(s.take(k) =~= s);
    }
}

/// Bounds `(a, b)` with `s[a..b]` equal to `trim(s[lo..hi])`.
pub fn trim_bounds(s: &Vec<char>, lo: usize, hi: usize) -> (r: (usize, usize))
    requires
        lo <= hi <= s.len(),
    ensures
        lo <= r.0 <= r.1 <= hi,
        s@.subrange(r.0 as int, r.1 as int) == trim(s@.subrange(lo as int, hi as int)),
{
    let mut a: usize = lo;
    while a < hi && is_ws_char(s[a])
        invariant
            lo <= a <= hi <= s.len(),
            forall|j: int| lo <= j < a ==> is_ws(#[trigger] s@[j]),
        decreases hi - a,
    {
        a = a + 1;
    }
    let mut b: usize = hi;
    while b > a && is_ws_char(s[b - 1])
        invariant
            lo <= a <= b <= hi <= s.len(),
            forall|j: int| b <= j < hi ==> is_ws(#[trigger] s@[j]),
        decreases b - a,
    {
        b = b - 1;
    }
    proof {
        let t = s@.subrange(lo as int, hi as int);
        assert forall|j: int| 0 <= j < a - lo implies ws_pred()(#[trigger] t[j]) by {
            assert(t[j] == s@[lo + j]);
        }
        lemma_strip_lead_at(t, ws_pred(), a - lo);
        let u = t.skip(a - lo);
        assert(u =~= s@.subrange(a as int, hi as int));
        assert forall|j: int| b - a <= j < u.len() implies ws_pred()(#[trigger] u[j]) by {
            assert(u[j] == s@[a + j]);
        }
        lemma_strip_trail_at(u, ws_pred(), b - a);
        assert(u.take(b - a) =~= s@.subrange(a as int, b as int));
    }
    (a, b)
}

/// Bounds `(a, b)` with `s[a..b]` equal to `trim_char(s[lo..hi], ch)`.
pub fn trim_char_bounds(s: &Vec<char>, lo: usize, hi: usize, ch: char) -> (r: (usize, usize))
    requires
        lo <= hi <= s.len(),
    ensures
        lo <= r.0 <= r.1 <= hi,
        s@.subrange(r.0 as int, r.1 as int) == trim_char(s@.subrange(lo as int, hi as int), ch),
{
    let mut a: usize = lo;
    while a < hi && s[a] == ch
        invariant
            lo <= a <= hi <= s.len(),
            forall|j: int| lo <= j < a ==> #[trigger] s@[j] == ch,
        decreases hi - a,
    {
        a = a + 1;
    }
    let mut b: usize = hi;
    while b > a && s[b - 1] == ch
        invariant
            lo <= a <= b <= hi <= s.len(),
            forall|j: int| b <= j < hi ==> #[trigger] s@[j] == ch,
        decreases b - a,
    {
        b = b - 1;
    }
    proof {
        let t = s@.subrange(lo as int, hi as int);
        assert forall|j: int| 0 <= j < a - lo implies char_pred(ch)(#[trigger] t[j]) by {
            assert(t[j] == s@[lo + j]);
        }
        lemma_strip_lead_at(t, char_pred(ch), a - lo);
        let u = t.skip(a - lo);
        assert(u =~= s@.subrange(a as int, hi as int));
        assert forall|j: int| b - a <= j < u.len() implies char_pred(ch)(#[trigger] u[j]) by {
            assert(u[j] == s@[a + j]);
        }
        lemma_strip_trail_at(u, char_pred(ch), b - a);
        assert(u.take(b - a) =~= s@.subrange(a as int, b as int));
    }
    (a, b)
}

// ---------------------------------------------------------------------------
// Conversions between `str`/`String` and characters
// ---------------------------------------------------------------------------

/// The characters of `s`, one per element.
pub fn chars_of(s: &str) -> (res: Vec<char>)
    ensures
        res@ == s@,
{
    let mut res: Vec<char> = Vec::new();
    for c in it: s.chars()
        invariant
            res@ == it.seq().take(it.index() as int),
            it.seq() == s@,
    {
        res.push(c);
    }
    res
}

/// Appends one character to `s` (std `String::push`).
#[verifier::external_body]
pub fn push_char(s: &mut String, c: char)
    ensures
        final(s)@ == old(s)@.push(c),
{
    s.push(c);
}

/// Appends `v[lo..hi]` to `out`.
pub fn push_range(out: &mut String, v: &Vec<char>, lo: usize, hi: usize)
    requires
        lo <= hi <= v.len(),
    ensures
        final(out)@ == old(out)@ + v@.subrange(lo as int, hi as int),
{
    let mut i: usize = lo;
    while i < hi
        invariant
            lo <= i <= hi <= v.len(),
            out@ == old(out)@ + v@.subrange(lo as int, i as int),
        decreases hi - i,
    {
        push_char(out, v[i]);
        proof {
            assert(v@.subrange(lo as int, i + 1) =~= v@.subrange(lo as int, i as int).push(v@[i as int]));
        }
        i = i + 1;
    }
}

/// Appends all characters of `t` to `out`.
pub fn push_str_chars(out: &mut String, t: &str)
    ensures
        final(out)@ == old(out)@ + t@,
{
    let v = chars_of(t);
    push_range(out, &v, 0, v.len());
    proof {
        assert(v@.subrange(0, v@.len() as int) =~= v@);
    }
}

/// A new `String` holding `v[lo..hi]`.
pub fn string_of_range(v: &Vec<char>, lo: usize, hi: usize) -> (s: String)
    requires
        lo <= hi <= v.len(),
    ensures
        s@ == v@.subrange(lo as int, hi as int),
{
    let mut s = String::new();
    push_range(&mut s, v, lo, hi);
    proof {
        assert(Seq::<char>::empty() + v@.subrange(lo as int, hi as int) =~= v@.subrange(lo as int, hi as int));
    }
    s
}

/// A new `String` holding all of `v`.
pub fn string_of(v: &Vec<char>) -> (s: String)
    ensures
        s@ == v@,
{
    let s = string_of_range(v, 0, v.len());
    proof {
        assert(v@.subrange(0, v@.len() as int) =~= v@);
    }
    s
}

/// A copy of `t` as an owned `String`.
pub fn owned(t: &str) -> (s: String)
    ensures
        s@ == t@,
{
    let mut s = String::new();
    push_str_chars(&mut s, t);
    proof {
        assert(Seq::<char>::empty() + t@ =~= t@);
    }
    s
}

// ---------------------------------------------------------------------------
// Searching
// ---------------------------------------------------------------------------

/// `p` occurs in `s` at position `i`.
pub open spec fn matches_at(s: Seq<char>, i: int, p: Seq<char>) -> bool {
    0 <= i && i + p.len() <= s.len() && s.subrange(i, i + p.len()) == p
}

/// `k` is the first position at which `p` occurs in `s`.
pub open spec fn first_match(s: Seq<char>, p: Seq<char>, k: int) -> bool {
    matches_at(s, k, p) && forall|j: int| 0 <= j < k ==> !matches_at(s, j, p)
}

/// What `str::find` returns for a string pattern, counted in characters.
pub open spec fn find(s: Seq<char>, p: Seq<char>) -> Option<int> {
    if exists|k: int| matches_at(s, k, p) {
        Some(choose|k: int| first_match(s, p, k))
    } else {
        None
    }
}

/// `s` contains `p`.
pub open spec fn contains(s: Seq<char>, p: Seq<char>) -> bool {
    exists|k: int| matches_at(s, k, p)
}

pub proof fn lemma_find_first(s: Seq<char>, p: Seq<char>, k: int)
    requires
        first_match(s, p, k),
    ensures
        find(s, p) == Some(k),
{
    assert(exists|k: int| matches_at(s, k, p));
    let c = choose|c: int| first_match(s, p, c);
    assert(first_match(s, p, c));
    if c < k {
        assert(!matches_at(s, c, p));
    }
    if k < c {
        assert(!matches_at(s, k, p));
    }
}

pub proof fn lemma_find_none(s: Seq<char>, p: Seq<char>)
    requires
        forall|j: int| !matches_at(s, j, p),
    ensures
        find(s, p) == None::<int>,
{
}

/// Whether `p` occurs in `s` at position `i`.
pub fn matches_at_exec(s: &Vec<char>, i: usize, p: &Vec<char>) -> (b: bool)
    ensures
        b == matches_at(s@, i as int, p@),
{
    if i > s.len() || p.len() > s.len() - i {
        return false;
    }
    let mut j: usize = 0;
    while j < p.len()
        invariant
            i + p.len() <= s.len(),
            0 <= j <= p.len(),
            forall|t: int| 0 <= t < j ==> s@[i + t] == p@[t],
        decreases p.len() - j,
    {
        if s[i + j] != p[j] {
            proof {
                assert(s@.subrange(i as int, i + p.len())[j as int] != p@[j as int]);
            }
            return false;
        }
        j = j + 1;
    }
    proof {
        assert(s@.subrange(i as int, i + p.len()) =~= p@);
    }
    true
}

/// The first position at or after `from` where `p` occurs in `s[..to]`, as an index into `s`.
/// It equals `from + find(s[from..to], p)`.
pub fn find_in(s: &Vec<char>, from: usize, to: usize, p: &Vec<char>) -> (r: Option<usize>)
    requires
        from <= to <= s.len(),
    ensures
        match find(s@.subrange(from as int, to as int), p@) {
            Some(k) => r == Some((from + k) as usize),
            None => r is None,
        },
{
    let ghost t = s@.subrange(from as int, to as int);
    if p.len() == 0 {
        proof {
            assert(t.subrange(0, 0) =~= p@);
            lemma_find_first(t, p@, 0);
        }
        return Some(from);
    }
    let mut i: usize = from;
    while i < to && p.len() <= to - i
        invariant
            from <= i <= to,
            p.len() > 0,
            to <= s.len(),
            t == s@.subrange(from as int, to as int),
            forall|j: int| 0 <= j < i - from ==> !matches_at(t, j, p@),
        decreases to - i,
    {
        if matches_at_exec(s, i, p) {
            proof {
                assert(t.subrange(i - from, i - from + p@.len()) =~= s@.subrange(i as int, i + p@.len()));
                lemma_find_first(t, p@, i - from);
            }
            return Some(i);
        }
        proof {
            if matches_at(t, i - from, p@) {
                assert(t.subrange(i - from, i - from + p@.len()) =~= s@.subrange(i as int, i + p@.len()));
            }
        }
        i = i + 1;
    }
    proof {
        assert forall|j: int| !matches_at(t, j, p@) by {
            if 0 <= j && j + p@.len() <= t.len() {
                assert(j < i - from);
            }
        }
        lemma_find_none(t, p@);
    }
    None
}

} // verus!

verus! {

/// A first occurrence exists whenever some occurrence does, and `find` names it.
pub proof fn lemma_find_some(s: Seq<char>, p: Seq<char>, k0: int)
    requires
        matches_at(s, k0, p),
    ensures
        find(s, p) is Some,
        first_match(s, p, find(s, p)->0),
    decreases k0,
{
    if exists|j: int| 0 <= j < k0 && matches_at(s, j, p) {
        let j = choose|j: int| 0 <= j < k0 && matches_at(s, j, p);
        lemma_find_some(s, p, j);
    } else {
        lemma_find_first(s, p, k0);
    }
}

/// `find` returns a first occurrence, or `None` when there is none.
pub proof fn lemma_find_spec(s: Seq<char>, p: Seq<char>)
    ensures
        match find(s, p) {
            Some(k) => first_match(s, p, k),
            None => forall|j: int| !matches_at(s, j, p),
        },
{
    if exists|k: int| matches_at(s, k, p) {
        let k = choose|k: int| matches_at(s, k, p);
        lemma_find_some(s, p, k);
    }
}

/// For a one-character pattern, an occurrence is a position holding that character.
pub proof fn lemma_matches_char(s: Seq<char>, i: int, ch: char)
    ensures
        matches_at(s, i, seq![ch]) <==> (0 <= i < s.len() && s[i] == ch),
{
    if 0 <= i < s.len() && s[i] == ch {
        assert(s.subrange(i, i + 1) =~= seq![ch]);
    }
    if matches_at(s, i, seq![ch]) {
        assert(s.subrange(i, i + 1)[0] == s[i]);
    }
}

/// The first position of `ch` in `s`.
pub proof fn lemma_find_char(s: Seq<char>, ch: char, k: int)
    requires
        0 <= k < s.len(),
        s[k] == ch,
        forall|j: int| 0 <= j < k ==> s[j] != ch,
    ensures
        find(s, seq![ch]) == Some(k),
{
    lemma_matches_char(s, k, ch);
    assert forall|j: int| 0 <= j < k implies !matches_at(s, j, seq![ch]) by {
        lemma_matches_char(s, j, ch);
    }
    lemma_find_first(s, seq![ch], k);
}

/// `ch` does not occur in `s`.
pub proof fn lemma_find_char_none(s: Seq<char>, ch: char)
    requires
        forall|j: int| 0 <= j < s.len() ==> s[j] != ch,
    ensures
        find(s, seq![ch]) == None::<int>,
{
    assert forall|j: int| !matches_at(s, j, seq![ch]) by {
        lemma_matches_char(s, j, ch);
    }
}

/// What `find` for one character tells: the character is there and nowhere before.
pub proof fn lemma_find_char_facts(s: Seq<char>, ch: char)
    ensures
        match find(s, seq![ch]) {
            Some(k) => 0 <= k < s.len() && s[k] == ch && forall|j: int| 0 <= j < k ==> s[j] != ch,
            None => forall|j: int| 0 <= j < s.len() ==> s[j] != ch,
        },
{
    lemma_find_spec(s, seq![ch]);
    match find(s, seq![ch]) {
        Some(k) => {
            lemma_matches_char(s, k, ch);
            assert forall|j: int| 0 <= j < k implies s[j] != ch by {
                lemma_matches_char(s, j, ch);
            }
        },
        None => {
            assert forall|j: int| 0 <= j < s.len() implies s[j] != ch by {
                lemma_matches_char(s, j, ch);
            }
        },
    }
}

/// A first occurrence stays first in any text that agrees with `s` on its first `m` characters.
pub proof fn lemma_first_match_stable(s: Seq<char>, t: Seq<char>, p: Seq<char>, k: int, m: int)
    requires
        first_match(s, p, k),
        k + p.len() <= m <= s.len(),
        m <= t.len(),
        forall|i: int| 0 <= i < m ==> s[i] == t[i],
    ensures
        first_match(t, p, k),
{
    assert(t.subrange(k, k + p.len()) =~= s.subrange(k, k + p.len()));
    assert forall|j: int| 0 <= j < k implies !matches_at(t, j, p) by {
        assert(!matches_at(s, j, p));
        assert(t.subrange(j, j + p.len()) =~= s.subrange(j, j + p.len()));
    }
}

/// A `Vec` holding the characters of `a` followed by those of `b`.
pub fn concat_chars(a: &Vec<char>, b: &Vec<char>) -> (r: Vec<char>)
    ensures
        r@ == a@ + b@,
{
    let mut r = a.clone();
    let mut i: usize = 0;
    while i < b.len()
        invariant
            0 <= i <= b.len(),
            r@ == a@ + b@.take(i as int),
        decreases b.len() - i,
    {
        r.push(b[i]);
        proof {
            assert(b@.take(i + 1) =~= b@.take(i as int).push(b@[i as int]));
        }
        i = i + 1;
    }
    proof {
        assert(b@.take(b@.len() as int) =~= b@);
    }
    r
}

/// Whether `ch` occurs in `v`.
pub fn has_char(v: &Vec<char>, ch: char) -> (b: bool)
    ensures
        b == v@.contains(ch),
{
    let mut i: usize = 0;
    while i < v.len()
        invariant
            0 <= i <= v.len(),
            forall|j: int| 0 <= j < i ==> v@[j] != ch,
        decreases v.len() - i,
    {
        if v[i] == ch {
            return true;
        }
        i = i + 1;
    }
    false
}

} // verus!

verus! {

/// Whether `a` and `b` hold the same text.
pub fn same_text(a: &str, b: &str) -> (r: bool)
    ensures
        r == (a@ == b@),
{
    let x = chars_of(a);
    let y = chars_of(b);
    same_chars(&x, &y)
}

/// Whether `x` and `y` hold the same characters.
pub fn same_chars(x: &Vec<char>, y: &Vec<char>) -> (r: bool)
    ensures
        r == (x@ == y@),
{
    if x.len() != y.len() {
        return false;
    }
    let mut i: usize = 0;
    while i < x.len()
        invariant
            x.len() == y.len(),
            0 <= i <= x.len(),
            forall|j: int| 0 <= j < i ==> x@[j] == y@[j],
        decreases x.len() - i,
    {
        if x[i] != y[i] {
            return false;
        }
        i = i + 1;
    }
    proof {
        assert(x@ =~= y@);
    }
    true
}

/// Whether some element of `v` holds the text `t`.
pub fn contains_text(v: &Vec<String>, t: &str) -> (r: bool)
    ensures
        r == exists|i: int| 0 <= i < v.len() && #[trigger] v@[i]@ == t@,
{
    let mut i: usize = 0;
    while i < v.len()
        invariant
            0 <= i <= v.len(),
            forall|j: int| 0 <= j < i ==> #[trigger] v@[j]@ != t@,
        decreases v.len() - i,
    {
        if same_text(v[i].as_str(), t) {
            return true;
        }
        i = i + 1;
    }
    false
}

/// A copy of `s` with the same text.
pub fn copy_string(s: &String) -> (r: String)
    ensures
        r@ == s@,
{
    s.clone()
}

} // verus!

verus! {

// ---------------------------------------------------------------------------
// Decimal numbers
// ---------------------------------------------------------------------------

pub open spec fn is_digit(c: char) -> bool {
    '0' <= c && c <= '9'
}

/// The number that the decimal digits `d` denote.
pub open spec fn digits_value(d: Seq<char>) -> nat
    decreases d.len(),
{
    if d.len() == 0 {
        0
    } else {
        digits_value(d.drop_last()) * 10 + ((d.last() as u32 - '0' as u32) as nat)
    }
}

/// What `str::parse::<usize>` gives: an optional `+` then one or more digits, not above `usize::MAX`.
pub open spec fn parse_usize(s: Seq<char>) -> Option<nat> {
    let d = digit_part(s);
    if d.len() > 0 && (forall|i: int| 0 <= i < d.len() ==> is_digit(#[trigger] d[i])) && digits_value(d) <= usize::MAX {
        Some(digits_value(d))
    } else {
        None
    }
}

/// The digits that `parse_usize` reads.
pub open spec fn digit_part(s: Seq<char>) -> Seq<char> {
    if s.len() > 0 && s[0] == '+' {
        s.drop_first()
    } else {
        s
    }
}

proof fn lemma_parse_non_digit(s: Seq<char>, j: int)
    requires
        0 <= j < digit_part(s).len(),
        !is_digit(digit_part(s)[j]),
    ensures
        parse_usize(s) is None,
{
    let d = digit_part(s);
    if parse_usize(s) is Some {
        assert(forall|i: int| 0 <= i < d.len() ==> is_digit(#[trigger] d[i]));
        assert(is_digit(d[j]));
    }
}

proof fn lemma_digits_value_grows(d: Seq<char>, i: int)
    requires
        0 <= i <= d.len(),
        forall|j: int| 0 <= j < d.len() ==> is_digit(#[trigger] d[j]),
    ensures
        digits_value(d.take(i)) <= digits_value(d),
    decreases d.len() - i,
{
    if i < d.len() {
        let t = d.drop_last();
        assert forall|j: int| 0 <= j < t.len() implies is_digit(#[trigger] t[j]) by {
            assert(t[j] == d[j]);
        }
        lemma_digits_value_grows(t, i);
        assert(t.take(i) =~= d.take(i));
        assert(digits_value(t) <= digits_value(t) * 10) by (nonlinear_arith);
    } else {
        assert(d.take(i) =~= d);
    }
}

/// `parse_usize(v[lo..hi])`.
pub fn parse_usize_range(v: &Vec<char>, lo: usize, hi: usize) -> (r: Option<usize>)
    requires
        lo <= hi <= v.len(),
    ensures
        match parse_usize(v@.subrange(lo as int, hi as int)) {
            Some(n) => r == Some(n as usize),
            None => r is None,
        },
{
    let ghost s = v@.subrange(lo as int, hi as int);
    let mut a: usize = lo;
    if a < hi && v[a] == '+' {
        a = a + 1;
    }
    let ghost d = v@.subrange(a as int, hi as int);
    proof {
        if s.len() > 0 && s[0] == '+' {
            assert(d =~= s.drop_first());
        } else {
            assert(d =~= s);
        }
    }
    if a == hi {
        proof {
            assert(d.len() == 0);
            assert(parse_usize(s) is None);
        }
        return None;
    }
    let mut value: usize = 0;
    let mut i: usize = a;
    while i < hi
        invariant
            lo <= a <= i <= hi <= v.len(),
            d == v@.subrange(a as int, hi as int),
            s == v@.subrange(lo as int, hi as int),
            d == digit_part(s),
            d.len() > 0,
            forall|j: int| a <= j < i ==> is_digit(#[trigger] v@[j]),
            value == digits_value(d.take(i - a)),
        decreases hi - i,
    {
        let c = v[i];
        if !('0' <= c && c <= '9') {
            proof {
                assert(d[i - a] == v@[i as int]);
                lemma_parse_non_digit(s, i - a);
            }
            return None;
        }
        let dig = (c as u32 - '0' as u32) as usize;
        proof {
            assert(d.take(i - a + 1).drop_last() =~= d.take(i - a));
            assert(d.take(i - a + 1).last() == c);
        }
        if value > (usize::MAX - dig) / 10 {
            proof {
                assert(value * 10 + dig > usize::MAX) by (nonlinear_arith)
                    requires
                        value > (usize::MAX - dig) / 10,
                        dig <= 9;
                if forall|j: int| 0 <= j < d.len() ==> is_digit(#[trigger] d[j]) {
                    lemma_digits_value_grows(d, i - a + 1);
                }
            }
            return None;
        }
        value = value * 10 + dig;
        i = i + 1;
    }
    proof {
        assert(d.take(hi - a) =~= d);
    }
    Some(value)
}

} // verus!

verus! {

/// The digit character for `d < 10`.
pub open spec fn digit_char(d: nat) -> char {
    if d == 0 { '0' } else if d == 1 { '1' } else if d == 2 { '2' } else if d == 3 { '3' }
    else if d == 4 { '4' } else if d == 5 { '5' } else if d == 6 { '6' } else if d == 7 { '7' }
    else if d == 8 { '8' } else { '9' }
}

/// The decimal text of `n`, as `to_string` writes it.
pub open spec fn decimal(n: nat) -> Seq<char>
    decreases n,
{
    if n < 10 {
        seq![digit_char(n)]
    } else {
        decimal(n / 10).push(digit_char(n % 10))
    }
}

fn digit_char_exec(d: usize) -> (c: char)
    requires
        d < 10,
    ensures
        c == digit_char(d as nat),
{
    if d == 0 { '0' } else if d == 1 { '1' } else if d == 2 { '2' } else if d == 3 { '3' }
    else if d == 4 { '4' } else if d == 5 { '5' } else if d == 6 { '6' } else if d == 7 { '7' }
    else if d == 8 { '8' } else { '9' }
}

/// The decimal text of `n` is made of digits, none of them whitespace, and
/// reads back as `n`.
pub proof fn lemma_decimal_reads_back(n: nat)
    ensures
        decimal(n).len() >= 1,
        forall|i: int| 0 <= i < decimal(n).len() ==> is_digit(#[trigger] decimal(n)[i]),
        forall|i: int| 0 <= i < decimal(n).len() ==> !is_ws(#[trigger] decimal(n)[i]),
        digits_value(decimal(n)) == n,
        n <= usize::MAX ==> parse_usize(decimal(n)) == Some(n),
    decreases n,
{
    let d = decimal(n);
    let c = digit_char(n % 10);
    assert(is_digit(c) && !is_ws(c) && (c as u32 - '0' as u32) as nat == n % 10) by {
        let m = n % 10;
        if m == 0 {} else if m == 1 {} else if m == 2 {} else if m == 3 {} else if m == 4 {}
        else if m == 5 {} else if m == 6 {} else if m == 7 {} else if m == 8 {} else {}
    }
    if n >= 10 {
        lemma_decimal_reads_back(n / 10);
        let p = decimal(n / 10);
        assert(d == p.push(c));
        assert(d.drop_last() =~= p);
        assert forall|i: int| 0 <= i < d.len() implies is_digit(#[trigger] d[i]) && !is_ws(d[i]) by {
            if i < d.len() - 1 {
                assert(d[i] == p[i]);
            }
        }
        assert(d.last() == c);
        assert(n == (n / 10) * 10 + n % 10) by (nonlinear_arith);
        assert(digits_value(d) == digits_value(p) * 10 + n % 10);
    } else {
        assert(n % 10 == n);
        assert(d.drop_last() =~= Seq::<char>::empty());
        assert(d.last() == c);
        assert(digits_value(d) == digits_value(d.drop_last()) * 10 + n % 10);
    }
    assert(digit_part(d) == d);
}

/// Appends the decimal text of `n` to `out`.
pub fn push_decimal(out: &mut String, n: usize)
    ensures
        final(out)@ == old(out)@ + decimal(n as nat),
    decreases n,
{
    if n >= 10 {
        push_decimal(out, n / 10);
    }
    push_char(out, digit_char_exec(n % 10));
    proof {
        if n >= 10 {
            assert(old(out)@ + decimal(n as nat) =~= old(out)@ + decimal((n / 10) as nat) + seq![digit_char((n % 10) as nat)]);
        } else {
            assert(n % 10 == n);
        }
    }
}

// ---------------------------------------------------------------------------
// Splitting
// ---------------------------------------------------------------------------

/// What `str::split(c)` yields: the pieces of `s` between occurrences of `c`.
pub open spec fn split_on(s: Seq<char>, c: char) -> Seq<Seq<char>>
    decreases s.len(),
{
    if s.len() == 0 {
        seq![Seq::<char>::empty()]
    } else {
        let init = split_on(s.drop_last(), c);
        if s.last() == c {
            init.push(Seq::<char>::empty())
        } else {
            init.update(init.len() - 1, init.last().push(s.last()))
        }
    }
}

pub proof fn lemma_split_on_nonempty(s: Seq<char>, c: char)
    ensures
        split_on(s, c).len() >= 1,
        split_on(s, c).len() == 1 <==> !s.contains(c),
    decreases s.len(),
{
    if s.len() > 0 {
        lemma_split_on_nonempty(s.drop_last(), c);
        if s.drop_last().contains(c) {
            let i = choose|i: int| 0 <= i < s.drop_last().len() && s.drop_last()[i] == c;
            assert(s[i] == c);
        }
        if s.contains(c) && s.last() != c {
            let i = choose|i: int| 0 <= i < s.len() && s[i] == c;
            assert(i < s.len() - 1);
            assert(s.drop_last()[i] == c);
        }
        if s.last() == c {
            assert(s[s.len() - 1] == c);
        }
    }
}

/// Whether a line ends with `\r`.
pub open spec fn strip_cr(l: Seq<char>) -> Seq<char> {
    if l.len() > 0 && l.last() == '\r' {
        l.drop_last()
    } else {
        l
    }
}

/// What `str::lines` yields: the lines of `s`, without their `\n` or `\r\n` ends;
/// an unterminated last line is kept as it is, and a final empty piece is dropped.
pub open spec fn lines(s: Seq<char>) -> Seq<Seq<char>> {
    let p = split_on(s, '\n');
    let done = p.drop_last().map_values(|l: Seq<char>| strip_cr(l));
    if p.last().len() == 0 {
        done
    } else {
        done.push(p.last())
    }
}

/// The pieces of `v` between occurrences of `c` (see [`split_on`]).
pub fn split_pieces(v: &Vec<char>, c: char) -> (r: Vec<Vec<char>>)
    ensures
        r@.map_values(|p: Vec<char>| p@) == split_on(v@, c),
{
    let mut done: Vec<Vec<char>> = Vec::new();
    let mut cur: Vec<char> = Vec::new();
    let mut i: usize = 0;
    proof {
        assert(v@.take(0) =~= Seq::<char>::empty());
        assert(done@.map_values(|p: Vec<char>| p@).push(cur@) =~= seq![Seq::<char>::empty()]);
    }
    while i < v.len()
        invariant
            i <= v.len(),
            done@.map_values(|p: Vec<char>| p@).push(cur@) == split_on(v@.take(i as int), c),
        decreases v.len() - i,
    {
        let ghost prev = split_on(v@.take(i as int), c);
        let ghost old_done = done@.map_values(|p: Vec<char>| p@);
        proof {
            assert(v@.take(i + 1).drop_last() =~= v@.take(i as int));
            assert(v@.take(i + 1).last() == v@[i as int]);
        }
        let x = v[i];
        if x == c {
            done.push(cur);
            cur = Vec::new();
            proof {
                assert(done@.map_values(|p: Vec<char>| p@) =~= old_done.push(prev.last()));
                assert(old_done.push(prev.last()) =~= prev);
                assert(done@.map_values(|p: Vec<char>| p@).push(cur@) =~= prev.push(Seq::<char>::empty()));
            }
        } else {
            let ghost old_cur = cur@;
            cur.push(x);
            proof {
                assert(done@.map_values(|p: Vec<char>| p@) =~= old_done);
                assert(old_done.push(cur@) =~= prev.update(prev.len() - 1, prev.last().push(x)));
            }
        }
        i = i + 1;
    }
    done.push(cur);
    proof {
        assert(v@.take(v@.len() as int) =~= v@);
    }
    assert(done@.map_values(|p: Vec<char>| p@) =~= split_on(v@, c));
    done
}

/// A copy of `v[lo..hi]`.
pub fn sub_chars(v: &Vec<char>, lo: usize, hi: usize) -> (r: Vec<char>)
    requires
        lo <= hi <= v.len(),
    ensures
        r@ == v@.subrange(lo as int, hi as int),
{
    let mut r: Vec<char> = Vec::new();
    let mut i: usize = lo;
    while i < hi
        invariant
            lo <= i <= hi <= v.len(),
            r@ == v@.subrange(lo as int, i as int),
        decreases hi - i,
    {
        r.push(v[i]);
        i = i + 1;
        proof {
            assert(r@ =~= v@.subrange(lo as int, i as int));
        }
    }
    r
}

/// `c` with ASCII upper-case letters mapped to lower case (`char::to_ascii_lowercase`).
pub open spec fn ascii_lower(c: char) -> char {
    if 'A' <= c && c <= 'Z' {
        ((c as u32) + 32) as char
    } else {
        c
    }
}

/// The lines of `v` (see [`lines`]).
pub fn split_lines(v: &Vec<char>) -> (r: Vec<Vec<char>>)
    ensures
        r@.map_values(|l: Vec<char>| l@) == lines(v@),
{
    let pieces = split_pieces(v, '\n');
    let ghost p = split_on(v@, '\n');
    proof {
        lemma_split_on_nonempty(v@, '\n');
        assert(pieces@.map_values(|l: Vec<char>| l@).len() == pieces.len());
    }
    let n = pieces.len();
    let mut r: Vec<Vec<char>> = Vec::new();
    let mut i: usize = 0;
    while i + 1 < n
        invariant
            n == pieces.len() >= 1,
            p == split_on(v@, '\n'),
            pieces@.map_values(|l: Vec<char>| l@) == p,
            i + 1 <= n,
            r@.map_values(|l: Vec<char>| l@) == p.take(i as int).map_values(|l: Seq<char>| strip_cr(l)),
        decreases n - i,
    {
        let q = &pieces[i];
        proof {
            assert(pieces@.map_values(|l: Vec<char>| l@)[i as int] == q@);
        }
        let len = q.len();
        let keep = if len > 0 && q[len - 1] == '\r' { len - 1 } else { len };
        let line = sub_chars(q, 0, keep);
        let ghost before = r@.map_values(|l: Vec<char>| l@);
        r.push(line);
        proof {
            assert(q@.subrange(0, keep as int) == strip_cr(q@)) by {
                if len > 0 && q@[len - 1] == '\r' {
                    assert(q@.subrange(0, keep as int) =~= q@.drop_last());
                } else {
                    assert(q@.subrange(0, keep as int) =~= q@);
                }
            }
            assert(r@.map_values(|l: Vec<char>| l@) =~= before.push(strip_cr(p[i as int])));
            assert(p.take(i + 1).map_values(|l: Seq<char>| strip_cr(l)) =~= p.take(i as int).map_values(
                |l: Seq<char>| strip_cr(l),
            ).push(strip_cr(p[i as int])));
        }
        i = i + 1;
    }
    proof {
        assert(p.take(i as int) =~= p.drop_last());
        assert(pieces@.map_values(|l: Vec<char>| l@)[n - 1] == pieces@[n - 1]@);
    }
    let last = &pieces[n - 1];
    if last.len() > 0 {
        let ghost before = r@.map_values(|l: Vec<char>| l@);
        let copy = sub_chars(last, 0, last.len());
        r.push(copy);
        proof {
            assert(last@.subrange(0, last@.len() as int) =~= last@);
            assert(r@.map_values(|l: Vec<char>| l@) =~= before.push(p.last()));
        }
    }
    r
}

/// Whether `t` is one of the texts in `acc`.
pub fn contains_chars(acc: &Vec<Vec<char>>, t: &Vec<char>) -> (b: bool)
    ensures
        b == acc@.map_values(|l: Vec<char>| l@).contains(t@),
{
    let ghost m = acc@.map_values(|l: Vec<char>| l@);
    let mut i: usize = 0;
    while i < acc.len()
        invariant
            i <= acc.len(),
            m == acc@.map_values(|l: Vec<char>| l@),
            forall|j: int| 0 <= j < i ==> m[j] != t@,
        decreases acc.len() - i,
    {
        proof {
            assert(m[i as int] == acc@[i as int]@);
        }
        if same_chars(&acc[i], t) {
            return true;
        }
        i = i + 1;
    }
    false
}

/// Whether `v[i..]` starts with `p`.
pub fn starts_with_at(v: &Vec<char>, i: usize, p: &Vec<char>) -> (b: bool)
    requires
        i <= v.len(),
    ensures
        b == (i + p.len() <= v.len() && v@.subrange(i as int, i + p.len()) == p@),
{
    if p.len() > v.len() - i {
        return false;
    }
    let mut k: usize = 0;
    while k < p.len()
        invariant
            i + p.len() <= v.len(),
            k <= p.len(),
            forall|j: int| 0 <= j < k ==> v@[i + j] == p@[j],
        decreases p.len() - k,
    {
        if v[i + k] != p[k] {
            proof {
                assert(v@.subrange(i as int, i + p.len())[k as int] != p@[k as int]);
            }
            return false;
        }
        k = k + 1;
    }
    proof {
        assert(v@.subrange(i as int, i + p.len()) =~= p@);
    }
    true
}

/// `s` without the prefix `prefix`, or `None` where `s` does not start with it
/// (what `str::strip_prefix` gives).
pub fn strip_prefix_text(s: &str, prefix: &str) -> (r: Option<String>)
    ensures
        match r {
            Some(t) => prefix@.is_prefix_of(s@) && t@ == s@.skip(prefix@.len() as int),
            None => !prefix@.is_prefix_of(s@),
        },
{
    let v = chars_of(s);
    let p = chars_of(prefix);
    if starts_with_at(&v, 0, &p) {
        proof {
            assert(v@.subrange(0, p@.len() as int) =~= v@.take(p@.len() as int));
        }
        let t = string_of_range(&v, p.len(), v.len());
        proof {
            assert(v@.subrange(p@.len() as int, v@.len() as int) =~= v@.skip(p@.len() as int));
        }
        Some(t)
    } else {
        proof {
            if prefix@.is_prefix_of(s@) {
                assert(v@.subrange(0, p@.len() as int) =~= p@);
            }
        }
        None
    }
}

/// Whether `s` starts with `prefix` (`str::starts_with`).
pub fn starts_with_text(s: &str, prefix: &str) -> (b: bool)
    ensures
        b == prefix@.is_prefix_of(s@),
{
    let v = chars_of(s);
    let p = chars_of(prefix);
    let b = starts_with_at(&v, 0, &p);
    proof {
        if prefix@.is_prefix_of(s@) {
            assert(v@.subrange(0, p@.len() as int) =~= p@);
        }
        if b {
            assert(v@.subrange(0, p@.len() as int) =~= v@.take(p@.len() as int));
        }
    }
    b
}

/// `char::to_ascii_lowercase`.
pub fn ascii_lower_char(c: char) -> (r: char)
    ensures
        r == ascii_lower(c),
{
    if 'A' <= c && c <= 'Z' {
        let b = c as u8;
        let r = (b + 32) as char;
        r
    } else {
        c
    }
}

/// Whether `v[lo..hi]` equals `t` ignoring ASCII case (`str::eq_ignore_ascii_case`).
pub open spec fn eq_ignore_case(s: Seq<char>, t: Seq<char>) -> bool {
    s.len() == t.len() && forall|i: int| 0 <= i < s.len() ==> ascii_lower(#[trigger] s[i]) == ascii_lower(t[i])
}

/// Whether `v[lo..hi]` equals `t` ignoring ASCII case.
pub fn eq_ignore_case_range(v: &Vec<char>, lo: usize, hi: usize, t: &str) -> (b: bool)
    requires
        lo <= hi <= v.len(),
    ensures
        b == eq_ignore_case(v@.subrange(lo as int, hi as int), t@),
{
    let w = chars_of(t);
    if hi - lo != w.len() {
        return false;
    }
    let mut i: usize = 0;
    while i < w.len()
        invariant
            lo <= hi <= v.len(),
            hi - lo == w.len(),
            w@ == t@,
            i <= w.len(),
            forall|j: int| 0 <= j < i ==> ascii_lower(#[trigger] v@[lo + j]) == ascii_lower(w@[j]),
        decreases w.len() - i,
    {
        if ascii_lower_char(v[lo + i]) != ascii_lower_char(w[i]) {
            proof {
                assert(v@.subrange(lo as int, hi as int)[i as int] == v@[lo + i]);
            }
            return false;
        }
        i = i + 1;
    }
    proof {
        assert forall|j: int| 0 <= j < hi - lo implies ascii_lower(#[trigger] v@.subrange(lo as int, hi as int)[j])
            == ascii_lower(t@[j]) by {
            assert(v@.subrange(lo as int, hi as int)[j] == v@[lo + j]);
        }
    }
    true
}

} // verus!
