//! Picking, out of a compiler's error output, the part that concerns one file.

use vstd::prelude::*;
use crate::merger::join_lines;
use crate::text::{
    chars_of, contains, find, find_in, first_match, lemma_find_spec, lines, matches_at, push_char,
    push_range, split_lines, split_on, split_pieces, string_of, sub_chars,
};
use crate::workflow::join_parts;

verus! {

/// `s` with every `\r\n` and every other `\r` turned into `\n`.
pub open spec fn normalize_newlines(s: Seq<char>) -> Seq<char>
    decreases s.len(),
{
    if s.len() == 0 {
        s
    } else if s.len() >= 2 && s[0] == '\r' && s[1] == '\n' {
        seq!['\n'] + normalize_newlines(s.skip(2))
    } else if s[0] == '\r' {
        seq!['\n'] + normalize_newlines(s.skip(1))
    } else {
        seq![s[0]] + normalize_newlines(s.skip(1))
    }
}

/// `s` cut at each occurrence of `p` (`str::split` with a text pattern).
pub open spec fn split_str(s: Seq<char>, p: Seq<char>) -> Seq<Seq<char>>
    decreases s.len(),
{
    if p.len() == 0 {
        seq![s]
    } else {
        match find(s, p) {
            Some(k) => if 0 <= k && k + p.len() <= s.len() {
                seq![s.take(k)] + split_str(s.skip(k + p.len()), p)
            } else {
                seq![s]
            },
            None => seq![s],
        }
    }
}

/// The pieces joined with an empty line between them (`join("\n\n")`).
pub open spec fn join_blocks(bs: Seq<Seq<char>>) -> Seq<char>
    decreases bs.len(),
{
    if bs.len() == 0 {
        Seq::<char>::empty()
    } else if bs.len() == 1 {
        bs[0]
    } else {
        join_blocks(bs.drop_last()) + seq!['\n', '\n'] + bs.last()
    }
}

/// The normal components among the first `n` `/`-separated pieces of a path
/// (empty pieces, `.` and `..` left out).
pub open spec fn path_parts(ps: Seq<Seq<char>>, n: int) -> Seq<Seq<char>>
    decreases n,
{
    if n <= 0 {
        Seq::<Seq<char>>::empty()
    } else if ps[n - 1].len() == 0 || ps[n - 1] == seq!['.'] || ps[n - 1] == seq!['.', '.'] {
        path_parts(ps, n - 1)
    } else {
        path_parts(ps, n - 1).push(ps[n - 1])
    }
}

/// Whether a line points at a location (`-->`) in a path that contains `pat`.
pub open spec fn line_points_at(line: Seq<char>, pat: Seq<char>) -> bool {
    contains(line, "-->"@) && contains(line, pat)
}

/// Whether some line of `text` points at `pat`.
pub open spec fn points_at(text: Seq<char>, pat: Seq<char>) -> bool {
    exists|i: int| 0 <= i < lines(text).len() && #[trigger] line_points_at(lines(text)[i], pat)
}

/// The smallest `k` at which the path suffix from component `k` on is pointed at.
pub open spec fn first_suffix(msg: Seq<char>, comps: Seq<Seq<char>>, k: int) -> bool {
    0 <= k < comps.len() && points_at(msg, join_parts(comps.skip(k))) && forall|j: int|
        0 <= j < k ==> !#[trigger] points_at(msg, join_parts(comps.skip(j)))
}

/// What [`extract_error_for_file`] gives.
pub open spec fn error_for_file(msg: Seq<char>, path: Seq<char>) -> Seq<char> {
    let norm = normalize_newlines(msg);
    let ps = split_on(path, '/');
    let comps = path_parts(ps, ps.len() as int);
    if exists|k: int| first_suffix(norm, comps, k) {
        let k = choose|k: int| first_suffix(norm, comps, k);
        let pat = join_parts(comps.skip(k));
        let relevant = split_str(norm, "\n\n"@).filter(|b: Seq<char>| points_at(b, pat));
        if relevant.len() == 0 {
            norm
        } else {
            join_blocks(relevant)
        }
    } else {
        norm
    }
}

/// `\r\n` and lone `\r` in `v` turned into `\n`.
fn normalize_newlines_exec(v: &Vec<char>) -> (r: Vec<char>)
    ensures
        r@ == normalize_newlines(v@),
{
    let mut out: Vec<char> = Vec::new();
    let mut i: usize = 0;
    proof {
        assert(v@.skip(0) =~= v@);
    }
    while i < v.len()
        invariant
            i <= v.len(),
            out@ + normalize_newlines(v@.skip(i as int)) == normalize_newlines(v@),
        decreases v.len() - i,
    {
        let ghost rest = v@.skip(i as int);
        let ghost before = out@;
        if v[i] == '\r' && i + 1 < v.len() && v[i + 1] == '\n' {
            out.push('\n');
            proof {
                assert(rest.skip(2) =~= v@.skip(i + 2));
                assert(before + normalize_newlines(rest) =~= out@ + normalize_newlines(v@.skip(i + 2)));
            }
            i = i + 2;
        } else if v[i] == '\r' {
            out.push('\n');
            proof {
                assert(rest.skip(1) =~= v@.skip(i + 1));
                assert(before + normalize_newlines(rest) =~= out@ + normalize_newlines(v@.skip(i + 1)));
            }
            i = i + 1;
        } else {
            out.push(v[i]);
            proof {
                assert(rest.skip(1) =~= v@.skip(i + 1));
                assert(before + normalize_newlines(rest) =~= out@ + normalize_newlines(v@.skip(i + 1)));
            }
            i = i + 1;
        }
    }
    proof {
        assert(v@.skip(v.len() as int) =~= Seq::<char>::empty());
        assert(out@ + Seq::<char>::empty() =~= out@);
    }
    out
}

/// The normal components of a `/`-separated path.
fn path_components(path: &str) -> (r: Vec<Vec<char>>)
    ensures
        r@.map_values(|c: Vec<char>| c@) == path_parts(split_on(path@, '/'), split_on(path@, '/').len() as int),
{
    let v = chars_of(path);
    let pieces = split_pieces(&v, '/');
    let ghost ps = split_on(path@, '/');
    proof {
        assert(pieces@.map_values(|q: Vec<char>| q@).len() == pieces.len());
    }
    let mut out: Vec<Vec<char>> = Vec::new();
    let mut i: usize = 0;
    while i < pieces.len()
        invariant
            i <= pieces.len(),
            ps == pieces@.map_values(|q: Vec<char>| q@),
            ps == split_on(path@, '/'),
            out@.map_values(|c: Vec<char>| c@) == path_parts(ps, i as int),
        decreases pieces.len() - i,
    {
        let q = &pieces[i];
        proof {
            assert(ps[i as int] == q@);
        }
        let dot = q.len() == 1 && q[0] == '.';
        let dots = q.len() == 2 && q[0] == '.' && q[1] == '.';
        proof {
            if q@ == seq!['.'] {
                assert(q@[0] == '.');
            }
            if q@ == seq!['.', '.'] {
                assert(q@[0] == '.' && q@[1] == '.');
            }
            if dot {
                assert(q@ =~= seq!['.']);
            }
            if dots {
                assert(q@ =~= seq!['.', '.']);
            }
        }
        if q.len() > 0 && !dot && !dots {
            let ghost before = out@.map_values(|c: Vec<char>| c@);
            out.push(sub_chars(q, 0, q.len()));
            proof {
                assert(q@.subrange(0, q@.len() as int) =~= q@);
                assert(out@.map_values(|c: Vec<char>| c@) =~= before.push(q@));
            }
        }
        i = i + 1;
    }
    out
}

/// The components from `k` on, joined with `/`.
fn join_from(comps: &Vec<Vec<char>>, k: usize) -> (r: Vec<char>)
    requires
        k <= comps.len(),
    ensures
        r@ == join_parts(comps@.map_values(|c: Vec<char>| c@).skip(k as int)),
{
    let ghost cs = comps@.map_values(|c: Vec<char>| c@);
    let mut out: Vec<char> = Vec::new();
    let mut j: usize = k;
    proof {
        assert(cs.skip(k as int).take(0) =~= Seq::<Seq<char>>::empty());
    }
    while j < comps.len()
        invariant
            k <= j <= comps.len(),
            cs == comps@.map_values(|c: Vec<char>| c@),
            out@ == join_parts(cs.skip(k as int).take(j - k)),
        decreases comps.len() - j,
    {
        let ghost before = out@;
        if j > k {
            out.push('/');
        }
        let c = &comps[j];
        let mut t: usize = 0;
        let ghost mid = out@;
        while t < c.len()
            invariant
                t <= c.len(),
                out@ == mid + c@.take(t as int),
            decreases c.len() - t,
        {
            out.push(c[t]);
            proof {
                assert(out@ =~= mid + c@.take(t + 1));
            }
            t = t + 1;
        }
        proof {
            assert(c@.take(c.len() as int) =~= c@);
            assert(cs[j as int] == c@);
            let q = cs.skip(k as int).take(j + 1 - k);
            assert(q.drop_last() =~= cs.skip(k as int).take(j - k));
            assert(q.last() == c@);
            if j == k {
                assert(q.len() == 1);
                assert(out@ =~= c@);
            } else {
                assert(out@ =~= before + seq!['/'] + c@);
            }
        }
        j = j + 1;
    }
    proof {
        assert(cs.skip(k as int).take(comps.len() - k) =~= cs.skip(k as int));
    }
    out
}

/// Whether `t` occurs in `s`.
fn contains_exec(s: &Vec<char>, t: &Vec<char>) -> (b: bool)
    ensures
        b == contains(s@, t@),
{
    let r = find_in(s, 0, s.len(), t);
    proof {
        assert(s@.subrange(0, s@.len() as int) =~= s@);
        lemma_find_spec(s@, t@);
        if r.is_some() {
            assert(matches_at(s@, r->0 as int, t@));
        }
    }
    r.is_some()
}

/// Whether some line of `text` points at `pat`.
fn points_at_exec(text: &Vec<char>, pat: &Vec<char>) -> (b: bool)
    ensures
        b == points_at(text@, pat@),
{
    let ls = split_lines(text);
    let ghost lsv = ls@.map_values(|l: Vec<char>| l@);
    let arrow = chars_of("-->");
    let mut i: usize = 0;
    proof {
        assert(lsv.len() == ls.len());
    }
    while i < ls.len()
        invariant
            i <= ls.len(),
            lsv == ls@.map_values(|l: Vec<char>| l@),
            lsv == lines(text@),
            arrow@ == "-->"@,
            forall|j: int| 0 <= j < i ==> !#[trigger] line_points_at(lsv[j], pat@),
        decreases ls.len() - i,
    {
        proof {
            assert(lsv[i as int] == ls@[i as int]@);
        }
        if contains_exec(&ls[i], &arrow) && contains_exec(&ls[i], pat) {
            proof {
                assert(line_points_at(lsv[i as int], pat@));
            }
            return true;
        }
        i = i + 1;
    }
    false
}

/// `v` cut at each occurrence of the non-empty `p`.
fn split_str_exec(v: &Vec<char>, p: &Vec<char>) -> (r: Vec<Vec<char>>)
    requires
        p.len() > 0,
    ensures
        r@.map_values(|b: Vec<char>| b@) == split_str(v@, p@),
{
    let mut out: Vec<Vec<char>> = Vec::new();
    let mut start: usize = 0;
    proof {
        assert(v@.skip(0) =~= v@);
        assert(out@.map_values(|b: Vec<char>| b@) + split_str(v@, p@) =~= split_str(v@, p@));
    }
    loop
        invariant
            start <= v.len(),
            p.len() > 0,
            out@.map_values(|b: Vec<char>| b@) + split_str(v@.skip(start as int), p@) == split_str(v@, p@),
        decreases v.len() - start,
    {
        let ghost rest = v@.skip(start as int);
        let ghost before = out@.map_values(|b: Vec<char>| b@);
        let f = find_in(v, start, v.len(), p);
        proof {
            assert(v@.subrange(start as int, v@.len() as int) =~= rest);
            lemma_find_spec(rest, p@);
        }
        match f {
            Some(k) => {
                out.push(sub_chars(v, start, k));
                proof {
                    let kk = (k - start) as int;
                    assert(find(rest, p@) == Some(kk));
                    assert(0 <= kk && kk + p@.len() <= rest.len());
                    assert(v@.subrange(start as int, k as int) =~= rest.take(kk));
                    assert(rest.skip(kk + p@.len()) =~= v@.skip(k + p.len()));
                    assert(out@.map_values(|b: Vec<char>| b@) =~= before.push(rest.take(kk)));
                    assert(split_str(rest, p@) == seq![rest.take(kk)] + split_str(rest.skip(kk + p@.len()), p@));
                    assert(before + split_str(rest, p@) =~= out@.map_values(|b: Vec<char>| b@) + split_str(
                        v@.skip(k + p.len()),
                        p@,
                    ));
                }
                start = k + p.len();
            },
            None => {
                out.push(sub_chars(v, start, v.len()));
                proof {
                    assert(out@.map_values(|b: Vec<char>| b@) =~= before.push(rest));
                    assert(split_str(rest, p@) == seq![rest]);
                    assert(before + seq![rest] =~= before.push(rest));
                }
                return out;
            },
        }
    }
}

/// The blocks joined with an empty line between them.
fn join_blocks_exec(bs: &Vec<Vec<char>>) -> (r: Vec<char>)
    ensures
        r@ == join_blocks(bs@.map_values(|b: Vec<char>| b@)),
{
    let ghost bv = bs@.map_values(|b: Vec<char>| b@);
    let mut out: Vec<char> = Vec::new();
    let mut j: usize = 0;
    proof {
        assert(bv.take(0) =~= Seq::<Seq<char>>::empty());
    }
    while j < bs.len()
        invariant
            j <= bs.len(),
            bv == bs@.map_values(|b: Vec<char>| b@),
            out@ == join_blocks(bv.take(j as int)),
        decreases bs.len() - j,
    {
        let ghost before = out@;
        if j > 0 {
            out.push('\n');
            out.push('\n');
        }
        let b = &bs[j];
        let ghost mid = out@;
        let mut t: usize = 0;
        while t < b.len()
            invariant
                t <= b.len(),
                out@ == mid + b@.take(t as int),
            decreases b.len() - t,
        {
            out.push(b[t]);
            proof {
                assert(out@ =~= mid + b@.take(t + 1));
            }
            t = t + 1;
        }
        proof {
            assert(b@.take(b.len() as int) =~= b@);
            assert(bv[j as int] == b@);
            let q = bv.take(j + 1);
            assert(q.drop_last() =~= bv.take(j as int));
            if j == 0 {
                assert(out@ =~= b@);
            } else {
                assert(out@ =~= before + seq!['\n', '\n'] + b@);
            }
        }
        j = j + 1;
    }
    proof {
        assert(bv.take(bs.len() as int) =~= bv);
    }
    out
}

/// The part of a compiler's error output that concerns `file_path`: line
/// endings made `\n`; the longest ending of the path (by whole components)
/// that a `-->` line mentions is looked for, and the empty-line-separated
/// blocks with such a line are kept, joined with an empty line. Where no
/// ending is mentioned, or no block holds it, the whole (normalized) output
/// is returned.
pub fn extract_error_for_file(error_msg: &str, file_path: &str) -> (r: String)
    ensures
        r@ == error_for_file(error_msg@, file_path@),
{
    let raw = chars_of(error_msg);
    let norm = normalize_newlines_exec(&raw);
    let comps = path_components(file_path);
    let ghost cs = comps@.map_values(|c: Vec<char>| c@);
    let mut k: usize = 0;
    let mut pattern: Option<Vec<char>> = None;
    while k < comps.len()
        invariant
            k <= comps.len(),
            cs == comps@.map_values(|c: Vec<char>| c@),
            norm@ == normalize_newlines(error_msg@),
            forall|j: int| 0 <= j < k ==> !#[trigger] points_at(norm@, join_parts(cs.skip(j))),
            match pattern {
                Some(p) => first_suffix(norm@, cs, k as int) && p@ == join_parts(cs.skip(k as int)),
                None => true,
            },
        ensures
            match pattern {
                Some(p) => first_suffix(norm@, cs, k as int) && p@ == join_parts(cs.skip(k as int)),
                None => forall|j: int| 0 <= j < cs.len() ==> !#[trigger] points_at(norm@, join_parts(cs.skip(j))),
            },
        decreases comps.len() - k,
    {
        let suffix = join_from(&comps, k);
        if points_at_exec(&norm, &suffix) {
            pattern = Some(suffix);
            break;
        }
        k = k + 1;
    }
    let ghost ps = split_on(file_path@, '/');
    proof {
        assert(cs == path_parts(ps, ps.len() as int));
    }
    let pat = match pattern {
        None => {
            proof {
                if exists|k: int| first_suffix(norm@, cs, k) {
                    let k = choose|k: int| first_suffix(norm@, cs, k);
                    assert(points_at(norm@, join_parts(cs.skip(k))));
                }
            }
            return string_of(&norm);
        },
        Some(p) => p,
    };
    proof {
        let kk = choose|j: int| first_suffix(norm@, cs, j);
        if kk != k as int {
            if kk < k {
                assert(!points_at(norm@, join_parts(cs.skip(kk))));
            } else {
                assert(!points_at(norm@, join_parts(cs.skip(k as int))));
            }
        }
        assert(kk == k as int);
    }
    let sep = chars_of("\n\n");
    proof {
        reveal_strlit("\n\n");
        assert(sep@.len() == 2);
    }
    let blocks = split_str_exec(&norm, &sep);
    let ghost bv = blocks@.map_values(|b: Vec<char>| b@);
    let mut relevant: Vec<Vec<char>> = Vec::new();
    let mut t: usize = 0;
    proof {
        reveal(Seq::filter);
        assert(bv.take(0) =~= Seq::<Seq<char>>::empty());
        assert(Seq::<Seq<char>>::empty().filter(|b: Seq<char>| points_at(b, pat@)) =~= Seq::<Seq<char>>::empty());
    }
    while t < blocks.len()
        invariant
            t <= blocks.len(),
            bv == blocks@.map_values(|b: Vec<char>| b@),
            relevant@.map_values(|b: Vec<char>| b@) == bv.take(t as int).filter(|b: Seq<char>| points_at(b, pat@)),
        decreases blocks.len() - t,
    {
        let ghost before = relevant@.map_values(|b: Vec<char>| b@);
        proof {
            reveal(Seq::filter);
            assert(bv.take(t + 1).drop_last() =~= bv.take(t as int));
            assert(bv.take(t + 1).last() == blocks@[t as int]@);
        }
        if points_at_exec(&blocks[t], &pat) {
            relevant.push(sub_chars(&blocks[t], 0, blocks[t].len()));
            proof {
                assert(blocks@[t as int]@.subrange(0, blocks@[t as int]@.len() as int) =~= blocks@[t as int]@);
                assert(relevant@.map_values(|b: Vec<char>| b@) =~= before.push(blocks@[t as int]@));
            }
        }
        t = t + 1;
    }
    proof {
        assert(bv.take(blocks.len() as int) =~= bv);
        assert(relevant@.map_values(|b: Vec<char>| b@).len() == relevant.len());
    }
    if relevant.len() == 0 {
        return string_of(&norm);
    }
    string_of(&join_blocks_exec(&relevant))
}

/// Whether `s` contains `t`.
pub fn contains_str(s: &str, t: &str) -> (b: bool)
    ensures
        b == contains(s@, t@),
{
    let v = chars_of(s);
    let p = chars_of(t);
    contains_exec(&v, &p)
}

} // verus!
