//! The texts the configuration tool writes, modelled as sections of entries,
//! and the laws of a set on them.

use vstd::prelude::*;
use crate::config_file::{
    header, key_line, key_pat, lemma_key_line_facts, lemma_line_end_at, lemma_section_end_facts, lemma_value_extract, lookup,
    headers_start_lines, line_end, plain_header_part, plain_key_name, section_end, storable_value, store,
    with_final_newline,
};
use crate::text::{find, first_match, lemma_find_first, lemma_find_none, matches_at, trim, trim_char};

// ---------------------------------------------------------------------------
// Configuration texts written by the tool, and what a set does to them
// ---------------------------------------------------------------------------

verus! {

/// The pieces joined end to end.
pub open spec fn concat(ps: Seq<Seq<char>>) -> Seq<char>
    decreases ps.len(),
{
    if ps.len() == 0 {
        Seq::<char>::empty()
    } else {
        concat(ps.drop_last()) + ps.last()
    }
}

/// Where piece `j` starts in `concat(ps)`.
pub open spec fn piece_pos(ps: Seq<Seq<char>>, j: int) -> int {
    concat(ps.take(j)).len() as int
}

proof fn lemma_piece(ps: Seq<Seq<char>>, j: int)
    requires
        0 <= j < ps.len(),
    ensures
        piece_pos(ps, j + 1) == piece_pos(ps, j) + ps[j].len(),
        piece_pos(ps, j + 1) <= concat(ps).len(),
        concat(ps).subrange(piece_pos(ps, j), piece_pos(ps, j + 1)) == ps[j],
    decreases ps.len(),
{
    let q = ps.drop_last();
    if j == ps.len() - 1 {
        assert(ps.take(j) =~= q);
        assert(ps.take(j + 1) =~= ps);
        assert(concat(ps).subrange(piece_pos(ps, j), piece_pos(ps, j + 1)) =~= ps[j]);
    } else {
        lemma_piece(q, j);
        assert(ps.take(j) =~= q.take(j));
        assert(ps.take(j + 1) =~= q.take(j + 1));
        assert(q[j] == ps[j]);
        assert(concat(ps).subrange(piece_pos(ps, j), piece_pos(ps, j + 1)) =~= concat(q).subrange(
            piece_pos(q, j),
            piece_pos(q, j + 1),
        ));
    }
}

proof fn lemma_pos_mono(ps: Seq<Seq<char>>, j: int, k: int)
    requires
        0 <= j <= k <= ps.len(),
    ensures
        piece_pos(ps, j) <= piece_pos(ps, k),
    decreases k - j,
{
    if j < k {
        lemma_pos_mono(ps, j, k - 1);
        lemma_piece(ps, k - 1);
    }
}

proof fn lemma_concat_pieces(ps: Seq<Seq<char>>)
    ensures
        piece_pos(ps, 0) == 0,
        piece_pos(ps, ps.len() as int) == concat(ps).len(),
        forall|j: int| 0 <= j < ps.len() ==> #[trigger] piece_pos(ps, j + 1) == piece_pos(ps, j) + ps[j].len(),
        forall|j: int| 0 <= j < ps.len() ==> concat(ps).subrange(piece_pos(ps, j), piece_pos(ps, j + 1)) == #[trigger] ps[j],
        forall|j: int, k: int| 0 <= j <= k <= ps.len() ==> #[trigger] piece_pos(ps, j) <= #[trigger] piece_pos(ps, k),
{
    assert(ps.take(0) =~= Seq::<Seq<char>>::empty());
    assert(ps.take(ps.len() as int) =~= ps);
    assert forall|j: int| 0 <= j < ps.len() implies #[trigger] piece_pos(ps, j + 1) == piece_pos(ps, j) + ps[j].len() by {
        lemma_piece(ps, j);
    }
    assert forall|j: int| 0 <= j < ps.len() implies concat(ps).subrange(piece_pos(ps, j), piece_pos(ps, j + 1)) == #[trigger] ps[j] by {
        lemma_piece(ps, j);
    }
    assert forall|j: int, k: int| 0 <= j <= k <= ps.len() implies #[trigger] piece_pos(ps, j) <= #[trigger] piece_pos(ps, k) by {
        lemma_pos_mono(ps, j, k);
    }
}

/// The piece that position `o` of `concat(ps)` falls in.
#[verifier::spinoff_prover]
#[verifier::rlimit(30)]
proof fn lemma_locate(ps: Seq<Seq<char>>, o: int) -> (j: int)
    requires
        0 <= o < concat(ps).len(),
    ensures
        0 <= j < ps.len(),
        piece_pos(ps, j) <= o < piece_pos(ps, j + 1),
        concat(ps)[o] == ps[j][o - piece_pos(ps, j)],
    decreases ps.len(),
{
    lemma_concat_pieces(ps);
    let q = ps.drop_last();
    let j = if o < concat(q).len() {
        let i = lemma_locate(q, o);
        assert(ps.take(i) =~= q.take(i));
        assert(ps.take(i + 1) =~= q.take(i + 1));
        i
    } else {
        assert(ps.take(ps.len() - 1) =~= q);
        (ps.len() - 1) as int
    };
    assert(concat(ps).subrange(piece_pos(ps, j), piece_pos(ps, j + 1))[o - piece_pos(ps, j)] == concat(ps)[o]);
    j
}

/// Replacing piece `j` replaces its span.
#[verifier::spinoff_prover]
#[verifier::rlimit(30)]
proof fn lemma_concat_update(ps: Seq<Seq<char>>, j: int, x: Seq<char>)
    requires
        0 <= j < ps.len(),
    ensures
        concat(ps.update(j, x)) == concat(ps).take(piece_pos(ps, j)) + x + concat(ps).skip(piece_pos(ps, j + 1)),
    decreases ps.len(),
{
    lemma_concat_pieces(ps);
    let q = ps.drop_last();
    if j == ps.len() - 1 {
        assert(ps.update(j, x).drop_last() =~= q);
        assert(ps.take(j) =~= q);
        assert(concat(ps).take(piece_pos(ps, j)) =~= concat(q));
        assert(concat(ps).skip(piece_pos(ps, j + 1)) =~= Seq::<char>::empty());
    } else {
        lemma_concat_update(q, j, x);
        lemma_concat_pieces(q);
        assert(ps.update(j, x).drop_last() =~= q.update(j, x));
        assert(ps.update(j, x).last() == ps.last());
        assert(ps.take(j) =~= q.take(j));
        assert(ps.take(j + 1) =~= q.take(j + 1));
        assert(piece_pos(q, j + 1) <= piece_pos(q, q.len() as int));
        assert(ps.take(q.len() as int) =~= q);
        assert(concat(ps).take(piece_pos(ps, j)) =~= concat(q).take(piece_pos(q, j)));
        assert(concat(ps).skip(piece_pos(ps, j + 1)) =~= concat(q).skip(piece_pos(q, j + 1)) + ps.last());
    }
}

} // verus!

verus! {

/// A value the tool can store and read back, and that cannot be taken for a
/// key line or a section header: storable, without `[` and without `=`.
pub open spec fn good_value(v: Seq<char>) -> bool {
    storable_value(v) && !v.contains('[') && !v.contains('=')
}

/// A section header line `[...]` with no other bracket, newline or `=`.
pub open spec fn good_header(h: Seq<char>) -> bool {
    &&& h.len() >= 2
    &&& h[0] == '['
    &&& h.last() == ']'
    &&& forall|i: int| 0 < i < h.len() ==> #[trigger] h[i] != '['
    &&& forall|i: int| 0 <= i < h.len() - 1 ==> #[trigger] h[i] != ']'
    &&& forall|i: int| 0 <= i < h.len() ==> #[trigger] h[i] != '\n' && h[i] != '='
}

/// `a` ends `b` (possibly all of it).
pub open spec fn is_suffix(a: Seq<char>, b: Seq<char>) -> bool {
    a.len() <= b.len() && b.subrange(b.len() - a.len(), b.len() as int) == a
}

/// The line of one entry.
pub open spec fn entry_text(e: (Seq<char>, Seq<char>)) -> Seq<char> {
    key_line(e.0, e.1) + seq!['\n']
}

/// The lines of the entries of a section.
pub open spec fn entry_texts(es: Seq<(Seq<char>, Seq<char>)>) -> Seq<Seq<char>> {
    es.map_values(|e: (Seq<char>, Seq<char>)| entry_text(e))
}

/// A section: its header line, then its entry lines.
pub open spec fn section_text(sec: (Seq<char>, Seq<(Seq<char>, Seq<char>)>)) -> Seq<char> {
    sec.0 + seq!['\n'] + concat(entry_texts(sec.1))
}

/// The texts of the sections.
pub open spec fn section_texts(secs: Seq<(Seq<char>, Seq<(Seq<char>, Seq<char>)>)>) -> Seq<Seq<char>> {
    secs.map_values(|sec: (Seq<char>, Seq<(Seq<char>, Seq<char>)>)| section_text(sec))
}

/// The configuration text with leading lines `pre` and sections `secs`, each a
/// header line followed by `name = "value"` lines.
pub open spec fn config_text(pre: Seq<char>, secs: Seq<(Seq<char>, Seq<(Seq<char>, Seq<char>)>)>) -> Seq<char> {
    pre + concat(section_texts(secs))
}

/// The shape of every text the tool writes: leading lines without `[`, then
/// sections with distinct headers, whose entries have plain names, good values,
/// and names of which none ends another.
pub open spec fn well_formed_config(pre: Seq<char>, secs: Seq<(Seq<char>, Seq<(Seq<char>, Seq<char>)>)>) -> bool {
    &&& forall|i: int| 0 <= i < pre.len() ==> #[trigger] pre[i] != '['
    &&& pre.len() > 0 ==> pre.last() == '\n'
    &&& forall|i: int| 0 <= i < secs.len() ==> good_header(#[trigger] secs[i].0)
    &&& forall|i: int, j: int| 0 <= i < secs.len() && 0 <= j < secs[i].1.len() ==> plain_key_name(
        #[trigger] secs[i].1[j].0,
    ) && good_value(secs[i].1[j].1)
    &&& forall|i: int, j: int, k: int|
        0 <= i < secs.len() && 0 <= j < secs[i].1.len() && 0 <= k < secs[i].1.len() && j != k ==> !is_suffix(
            #[trigger] secs[i].1[j].0,
            #[trigger] secs[i].1[k].0,
        )
    &&& forall|i: int, j: int| 0 <= i < secs.len() && 0 <= j < secs.len() && i != j ==> #[trigger] secs[i].0 != #[trigger] secs[j].0
}

/// The section with header `h`, if any.
pub open spec fn find_section(secs: Seq<(Seq<char>, Seq<(Seq<char>, Seq<char>)>)>, h: Seq<char>) -> Option<int> {
    if exists|i: int| 0 <= i < secs.len() && #[trigger] secs[i].0 == h {
        Some(choose|i: int| 0 <= i < secs.len() && #[trigger] secs[i].0 == h)
    } else {
        None
    }
}

/// The entry named `n`, if any.
pub open spec fn find_entry(es: Seq<(Seq<char>, Seq<char>)>, n: Seq<char>) -> Option<int> {
    if exists|j: int| 0 <= j < es.len() && #[trigger] es[j].0 == n {
        Some(choose|j: int| 0 <= j < es.len() && #[trigger] es[j].0 == n)
    } else {
        None
    }
}

/// The value of `n` in the section with header `h`, in the model.
pub open spec fn model_lookup(secs: Seq<(Seq<char>, Seq<(Seq<char>, Seq<char>)>)>, h: Seq<char>, n: Seq<char>) -> Option<Seq<char>> {
    match find_section(secs, h) {
        None => None,
        Some(i) => match find_entry(secs[i].1, n) {
            None => None,
            Some(j) => Some(secs[i].1[j].1),
        },
    }
}

/// The model after setting `n` to `v` in the section with header `h`: the
/// entry's value replaced, else the entry appended to the section, else a new
/// section appended.
pub open spec fn model_set(
    secs: Seq<(Seq<char>, Seq<(Seq<char>, Seq<char>)>)>,
    h: Seq<char>,
    n: Seq<char>,
    v: Seq<char>,
) -> Seq<(Seq<char>, Seq<(Seq<char>, Seq<char>)>)> {
    match find_section(secs, h) {
        None => secs.push((h, seq![(n, v)])),
        Some(i) => {
            let es = secs[i].1;
            match find_entry(es, n) {
                Some(j) => secs.update(i, (h, es.update(j, (n, v)))),
                None => secs.update(i, (h, es.push((n, v)))),
            }
        },
    }
}

proof fn lemma_find_section_facts(secs: Seq<(Seq<char>, Seq<(Seq<char>, Seq<char>)>)>, h: Seq<char>)
    requires
        forall|i: int, j: int| 0 <= i < secs.len() && 0 <= j < secs.len() && i != j ==> #[trigger] secs[i].0 != #[trigger] secs[j].0,
    ensures
        match find_section(secs, h) {
            Some(i) => 0 <= i < secs.len() && secs[i].0 == h && forall|k: int| 0 <= k < secs.len() && secs[k].0 == h ==> k == i,
            None => forall|k: int| 0 <= k < secs.len() ==> secs[k].0 != h,
        },
{
}

proof fn lemma_find_entry_facts(es: Seq<(Seq<char>, Seq<char>)>, n: Seq<char>)
    requires
        forall|j: int, k: int| 0 <= j < es.len() && 0 <= k < es.len() && j != k ==> !is_suffix(#[trigger] es[j].0, #[trigger] es[k].0),
    ensures
        match find_entry(es, n) {
            Some(j) => 0 <= j < es.len() && es[j].0 == n && forall|k: int| 0 <= k < es.len() && es[k].0 == n ==> k == j,
            None => forall|k: int| 0 <= k < es.len() ==> es[k].0 != n,
        },
{
    if let Some(j) = find_entry(es, n) {
        assert forall|k: int| 0 <= k < es.len() && es[k].0 == n implies k == j by {
            if k != j {
                assert(es[k].0.subrange(0, es[k].0.len() as int) =~= es[k].0);
                assert(is_suffix(es[k].0, es[j].0));
            }
        }
    }
}

} // verus!

verus! {

/// Where section `i` starts in `config_text(pre, secs)`.
pub open spec fn sec_start(pre: Seq<char>, secs: Seq<(Seq<char>, Seq<(Seq<char>, Seq<char>)>)>, i: int) -> int {
    pre.len() + piece_pos(section_texts(secs), i)
}

/// Where entry `j` starts within the text of section `sec`.
pub open spec fn entry_start(sec: (Seq<char>, Seq<(Seq<char>, Seq<char>)>), j: int) -> int {
    sec.0.len() + 1 + piece_pos(entry_texts(sec.1), j)
}

/// The section's entries are good.
pub open spec fn good_entries(es: Seq<(Seq<char>, Seq<char>)>) -> bool {
    forall|j: int| 0 <= j < es.len() ==> plain_key_name(#[trigger] es[j].0) && good_value(es[j].1)
}

proof fn lemma_entry_chars(e: (Seq<char>, Seq<char>), o: int)
    requires
        plain_key_name(e.0),
        good_value(e.1),
        0 <= o < entry_text(e).len(),
    ensures
        entry_text(e).len() == e.0.len() + e.1.len() + 6,
        entry_text(e)[o] != '[',
        entry_text(e)[o] == '=' ==> o == e.0.len() + 1,
        entry_text(e)[o] == '\n' ==> o == entry_text(e).len() - 1,
        entry_text(e).last() == '\n',
{
    let t = entry_text(e);
    let n = e.0;
    let v = e.1;
    assert(t.len() == n.len() + v.len() + 6);
    if o < n.len() {
        assert(t[o] == n[o]);
        assert(n.contains(n[o]));
    } else if n.len() + 4 <= o < n.len() + 4 + v.len() {
        assert(t[o] == v[o - n.len() - 4]);
        assert(v.contains(v[o - n.len() - 4]));
    }
}

proof fn lemma_section_entry(sec: (Seq<char>, Seq<(Seq<char>, Seq<char>)>), j: int)
    requires
        good_entries(sec.1),
        0 <= j < sec.1.len(),
    ensures
        section_text(sec).subrange(entry_start(sec, j), entry_start(sec, j + 1)) == entry_text(sec.1[j]),
        entry_start(sec, j + 1) == entry_start(sec, j) + entry_text(sec.1[j]).len(),
        entry_start(sec, j + 1) <= section_text(sec).len(),
        section_text(sec)[entry_start(sec, j + 1) - 1] == '\n',
{
    let es = sec.1;
    let ets = entry_texts(es);
    let t = section_text(sec);
    lemma_piece(ets, j);
    assert(ets[j] == entry_text(es[j]));
    assert(t.subrange(entry_start(sec, j), entry_start(sec, j + 1)) =~= concat(ets).subrange(
        piece_pos(ets, j),
        piece_pos(ets, j + 1),
    ));
    lemma_entry_chars(es[j], 0);
    assert(t.subrange(entry_start(sec, j), entry_start(sec, j + 1))[entry_text(es[j]).len() - 1] == t[entry_start(
        sec,
        j + 1,
    ) - 1]);
}

proof fn lemma_section_head(sec: (Seq<char>, Seq<(Seq<char>, Seq<char>)>))
    requires
        good_header(sec.0),
        good_entries(sec.1),
    ensures
        section_text(sec).len() == entry_start(sec, sec.1.len() as int),
        entry_start(sec, 0) == sec.0.len() + 1,
        section_text(sec).subrange(0, sec.0.len() as int) == sec.0,
        section_text(sec)[sec.0.len() as int] == '\n',
        section_text(sec).last() == '\n',
        section_text(sec)[0] == '[',
{
    let h = sec.0;
    let es = sec.1;
    let ets = entry_texts(es);
    let t = section_text(sec);
    assert(ets.take(0) =~= Seq::<Seq<char>>::empty());
    assert(ets.take(ets.len() as int) =~= ets);
    assert(t.subrange(0, h.len() as int) =~= h);
    assert(t[0] == h[0]);
    if es.len() > 0 {
        lemma_section_entry(sec, es.len() - 1);
    }
}

proof fn lemma_entry_mono(sec: (Seq<char>, Seq<(Seq<char>, Seq<char>)>), j: int, k: int)
    requires
        0 <= j <= k <= sec.1.len(),
    ensures
        entry_start(sec, j) <= entry_start(sec, k),
{
    lemma_pos_mono(entry_texts(sec.1), j, k);
}

/// The `[` and `=` of a section text: `[` only at its start, `=` only in
/// the ` = ` of an entry.
#[verifier::spinoff_prover]
proof fn lemma_section_chars(sec: (Seq<char>, Seq<(Seq<char>, Seq<char>)>), o: int) -> (j: int)
    requires
        good_header(sec.0),
        good_entries(sec.1),
        0 <= o < section_text(sec).len(),
    ensures
        section_text(sec)[o] == '[' ==> o == 0,
        section_text(sec)[o] == '=' ==> 0 <= j < sec.1.len() && o == entry_start(sec, j) + sec.1[j].0.len() + 1,
        o > sec.0.len() ==> 0 <= j < sec.1.len() && entry_start(sec, j) <= o < entry_start(sec, j + 1) && section_text(
            sec,
        )[o] == entry_text(sec.1[j])[o - entry_start(sec, j)],
{
    let h = sec.0;
    let es = sec.1;
    let ets = entry_texts(es);
    let t = section_text(sec);
    lemma_section_head(sec);
    if o < h.len() {
        assert(t[o] == h[o]);
        0
    } else if o == h.len() {
        0
    } else {
        let p = o - h.len() - 1;
        assert(ets.len() == es.len());
        let j = lemma_locate(ets, p);
        lemma_section_entry(sec, j);
        assert(ets[j] == entry_text(es[j]));
        assert(t[o] == concat(ets)[p]);
        lemma_entry_chars(es[j], p - piece_pos(ets, j));
        j
    }
}

} // verus!

verus! {

proof fn lemma_config_section(pre: Seq<char>, secs: Seq<(Seq<char>, Seq<(Seq<char>, Seq<char>)>)>, i: int)
    requires
        0 <= i < secs.len(),
    ensures
        config_text(pre, secs).subrange(sec_start(pre, secs, i), sec_start(pre, secs, i + 1)) == section_text(secs[i]),
        sec_start(pre, secs, i + 1) == sec_start(pre, secs, i) + section_text(secs[i]).len(),
        sec_start(pre, secs, i + 1) <= config_text(pre, secs).len(),
{
    let sts = section_texts(secs);
    lemma_piece(sts, i);
    assert(sts[i] == section_text(secs[i]));
    assert(config_text(pre, secs).subrange(sec_start(pre, secs, i), sec_start(pre, secs, i + 1)) =~= concat(sts).subrange(
        piece_pos(sts, i),
        piece_pos(sts, i + 1),
    ));
}

proof fn lemma_config_ends(pre: Seq<char>, secs: Seq<(Seq<char>, Seq<(Seq<char>, Seq<char>)>)>)
    requires
        well_formed_config(pre, secs),
    ensures
        sec_start(pre, secs, 0) == pre.len(),
        sec_start(pre, secs, secs.len() as int) == config_text(pre, secs).len(),
        config_text(pre, secs).len() > 0 ==> config_text(pre, secs).last() == '\n',
        config_text(pre, secs).subrange(0, pre.len() as int) == pre,
{
    let sts = section_texts(secs);
    assert(sts.take(0) =~= Seq::<Seq<char>>::empty());
    assert(sts.take(sts.len() as int) =~= sts);
    let c = config_text(pre, secs);
    assert(c.subrange(0, pre.len() as int) =~= pre);
    if secs.len() > 0 {
        let i = secs.len() - 1;
        lemma_config_section(pre, secs, i);
        assert(good_entries(secs[i].1));
        lemma_section_head(secs[i]);
        assert(c.subrange(sec_start(pre, secs, i), sec_start(pre, secs, i + 1))[section_text(secs[i]).len() - 1] == c.last());
    } else {
        assert(c =~= pre);
    }
}

proof fn lemma_sec_mono(pre: Seq<char>, secs: Seq<(Seq<char>, Seq<(Seq<char>, Seq<char>)>)>, i: int, k: int)
    requires
        0 <= i <= k <= secs.len(),
    ensures
        sec_start(pre, secs, i) <= sec_start(pre, secs, k),
{
    lemma_pos_mono(section_texts(secs), i, k);
}

/// Which section a position of the text falls in (`-1` for the leading lines),
/// and the `[`s of the text: exactly the section starts.
proof fn lemma_config_at(pre: Seq<char>, secs: Seq<(Seq<char>, Seq<(Seq<char>, Seq<char>)>)>, x: int) -> (i: int)
    requires
        well_formed_config(pre, secs),
        0 <= x < config_text(pre, secs).len(),
    ensures
        x < pre.len() ==> i == -1 && config_text(pre, secs)[x] == pre[x] && pre[x] != '[',
        x >= pre.len() ==> 0 <= i < secs.len() && sec_start(pre, secs, i) <= x < sec_start(pre, secs, i + 1)
            && config_text(pre, secs)[x] == section_text(secs[i])[x - sec_start(pre, secs, i)],
        config_text(pre, secs)[x] == '[' ==> 0 <= i < secs.len() && x == sec_start(pre, secs, i),
{
    let c = config_text(pre, secs);
    if x < pre.len() {
        assert(c[x] == pre[x]);
        -1
    } else {
        let sts = section_texts(secs);
        let i = lemma_locate(sts, x - pre.len());
        assert(sts[i] == section_text(secs[i]));
        assert(c[x] == concat(sts)[x - pre.len()]);
        assert(good_entries(secs[i].1));
        lemma_config_section(pre, secs, i);
        let _ = lemma_section_chars(secs[i], x - sec_start(pre, secs, i));
        i
    }
}

} // verus!

verus! {

proof fn lemma_char_in_section(pre: Seq<char>, secs: Seq<(Seq<char>, Seq<(Seq<char>, Seq<char>)>)>, i: int, o: int)
    requires
        0 <= i < secs.len(),
        0 <= o < section_text(secs[i]).len(),
    ensures
        sec_start(pre, secs, i) + o < config_text(pre, secs).len(),
        config_text(pre, secs)[sec_start(pre, secs, i) + o] == section_text(secs[i])[o],
{
    lemma_config_section(pre, secs, i);
    assert(config_text(pre, secs).subrange(sec_start(pre, secs, i), sec_start(pre, secs, i + 1))[o] == config_text(
        pre,
        secs,
    )[sec_start(pre, secs, i) + o]);
}

/// A header occurs in the text only at the start of the section it heads.
#[verifier::spinoff_prover]
proof fn lemma_header_match(pre: Seq<char>, secs: Seq<(Seq<char>, Seq<(Seq<char>, Seq<char>)>)>, h: Seq<char>, x: int) -> (i: int)
    requires
        well_formed_config(pre, secs),
        good_header(h),
        matches_at(config_text(pre, secs), x, h),
    ensures
        0 <= i < secs.len(),
        x == sec_start(pre, secs, i),
        secs[i].0 == h,
{
    let c = config_text(pre, secs);
    assert(c.subrange(x, x + h.len())[0] == c[x]);
    let i = lemma_config_at(pre, secs, x);
    let hi = secs[i].0;
    assert(good_entries(secs[i].1));
    lemma_section_head(secs[i]);
    let t = section_text(secs[i]);
    assert forall|o: int| 0 <= o < h.len() && o < t.len() implies #[trigger] t[o] == h[o] by {
        lemma_char_in_section(pre, secs, i, o);
        assert(c.subrange(x, x + h.len())[o] == c[x + o]);
    }
    if h.len() > hi.len() {
        assert(t[hi.len() as int] == h[hi.len() as int]);
    } else if h.len() < hi.len() {
        assert(t.subrange(0, hi.len() as int)[h.len() - 1] == t[h.len() - 1]);
        assert(t[h.len() - 1] == h[h.len() - 1]);
        assert(hi[h.len() - 1] != ']');
    } else {
        assert forall|o: int| 0 <= o < h.len() implies hi[o] == h[o] by {
            assert(t.subrange(0, hi.len() as int)[o] == t[o]);
        }
        assert(hi =~= h);
    }
    i
}

proof fn lemma_find_header(pre: Seq<char>, secs: Seq<(Seq<char>, Seq<(Seq<char>, Seq<char>)>)>, h: Seq<char>)
    requires
        well_formed_config(pre, secs),
        good_header(h),
    ensures
        find(config_text(pre, secs), h) == match find_section(secs, h) {
            Some(i) => Some(sec_start(pre, secs, i)),
            None => None::<int>,
        },
{
    let c = config_text(pre, secs);
    lemma_find_section_facts(secs, h);
    match find_section(secs, h) {
        Some(i) => {
            assert(good_entries(secs[i].1));
            lemma_section_head(secs[i]);
            lemma_config_section(pre, secs, i);
            let x = sec_start(pre, secs, i);
            assert(c.subrange(x, x + h.len()) =~= h) by {
                assert forall|o: int| 0 <= o < h.len() implies c.subrange(x, x + h.len())[o] == h[o] by {
                    lemma_char_in_section(pre, secs, i, o);
                    assert(section_text(secs[i]).subrange(0, h.len() as int)[o] == section_text(secs[i])[o]);
                }
            }
            assert forall|y: int| 0 <= y < x implies !matches_at(c, y, h) by {
                if matches_at(c, y, h) {
                    let k = lemma_header_match(pre, secs, h, y);
                    lemma_sec_mono(pre, secs, i, k);
                }
            }
            lemma_find_first(c, h, x);
        },
        None => {
            assert forall|y: int| !matches_at(c, y, h) by {
                if matches_at(c, y, h) {
                    let k = lemma_header_match(pre, secs, h, y);
                }
            }
            lemma_find_none(c, h);
        },
    }
}

} // verus!

verus! {

/// A section ends where the next one starts, or at the end of the text.
#[verifier::spinoff_prover]
proof fn lemma_section_end(pre: Seq<char>, secs: Seq<(Seq<char>, Seq<(Seq<char>, Seq<char>)>)>, i: int)
    requires
        well_formed_config(pre, secs),
        0 <= i < secs.len(),
    ensures
        section_end(config_text(pre, secs), sec_start(pre, secs, i)) == sec_start(pre, secs, i + 1),
{
    let c = config_text(pre, secs);
    let ss = sec_start(pre, secs, i);
    lemma_config_section(pre, secs, i);
    lemma_config_ends(pre, secs);
    assert(good_entries(secs[i].1));
    lemma_section_head(secs[i]);
    lemma_section_end_facts(c, ss);
    let se = section_end(c, ss);
    let nx = sec_start(pre, secs, i + 1);
    if se < nx {
        let k = lemma_config_at(pre, secs, se);
        if k <= i {
            lemma_sec_mono(pre, secs, k, i);
        }
        if k >= i + 1 {
            lemma_sec_mono(pre, secs, i + 1, k);
        }
    }
    if se > nx {
        if i + 1 < secs.len() {
            assert(good_entries(secs[i + 1].1));
            lemma_section_head(secs[i + 1]);
            lemma_char_in_section(pre, secs, i + 1, 0);
        } else {
            assert(nx == c.len());
        }
    }
}

/// Names none of which ends another, and `n` ends none of them but its equal.
pub open spec fn name_fits(es: Seq<(Seq<char>, Seq<char>)>, n: Seq<char>) -> bool {
    forall|j: int| 0 <= j < es.len() && is_suffix(n, #[trigger] es[j].0) ==> es[j].0 == n
}

/// A key pattern occurs in a section text only at the start of that key's entry.
#[verifier::spinoff_prover]
proof fn lemma_key_match(sec: (Seq<char>, Seq<(Seq<char>, Seq<char>)>), n: Seq<char>, x: int) -> (j: int)
    requires
        good_header(sec.0),
        good_entries(sec.1),
        plain_key_name(n),
        name_fits(sec.1, n),
        matches_at(section_text(sec), x, key_pat(n)),
    ensures
        0 <= j < sec.1.len(),
        x == entry_start(sec, j),
        sec.1[j].0 == n,
{
    let t = section_text(sec);
    let es = sec.1;
    let kp = key_pat(n);
    let y = x + n.len() + 1;
    assert(kp[n.len() as int + 1] == '=');
    assert(t.subrange(x, x + kp.len())[n.len() as int + 1] == t[y]);
    let j = lemma_section_chars(sec, y);
    let nj = es[j].0;
    lemma_section_entry(sec, j);
    lemma_section_head(sec);
    let es0 = entry_start(sec, j);
    assert forall|o: int| 0 <= o < nj.len() implies t[es0 + o] == nj[o] by {
        assert(t.subrange(es0, entry_start(sec, j + 1))[o] == t[es0 + o]);
        assert(entry_text(es[j])[o] == nj[o]);
    }
    if n.len() > nj.len() {
        let p = es0 - 1;
        if j > 0 {
            lemma_section_entry(sec, j - 1);
        }
        assert(t[p] == '\n');
        assert(t.subrange(x, x + kp.len())[p - x] == t[p]);
        assert(kp[p - x] == n[p - x]);
        assert(n.contains(n[p - x]));
    } else {
        assert forall|o: int| 0 <= o < n.len() implies nj.subrange(nj.len() - n.len(), nj.len() as int)[o] == n[o] by {
            assert(t.subrange(x, x + kp.len())[o] == t[x + o]);
            assert(kp[o] == n[o]);
            assert(t[es0 + (nj.len() - n.len() + o)] == nj[nj.len() - n.len() + o]);
        }
        assert(nj.subrange(nj.len() - n.len(), nj.len() as int) =~= n);
        assert(is_suffix(n, es[j].0));
    }
    j
}

/// Where a key is found in a section text: at its entry, or nowhere.
#[verifier::spinoff_prover]
proof fn lemma_find_key(sec: (Seq<char>, Seq<(Seq<char>, Seq<char>)>), n: Seq<char>)
    requires
        good_header(sec.0),
        good_entries(sec.1),
        plain_key_name(n),
        name_fits(sec.1, n),
        forall|j: int, k: int| 0 <= j < sec.1.len() && 0 <= k < sec.1.len() && j != k ==> !is_suffix(#[trigger] sec.1[j].0, #[trigger] sec.1[k].0),
    ensures
        find(section_text(sec), key_pat(n)) == match find_entry(sec.1, n) {
            Some(j) => Some(entry_start(sec, j)),
            None => None::<int>,
        },
{
    let t = section_text(sec);
    let kp = key_pat(n);
    lemma_find_entry_facts(sec.1, n);
    match find_entry(sec.1, n) {
        Some(j) => {
            lemma_section_entry(sec, j);
            let x = entry_start(sec, j);
            let e = sec.1[j];
            assert(t.subrange(x, x + kp.len()) =~= kp) by {
                assert forall|o: int| 0 <= o < kp.len() implies t.subrange(x, x + kp.len())[o] == kp[o] by {
                    assert(t.subrange(x, entry_start(sec, j + 1))[o] == t[x + o]);
                    assert(entry_text(e)[o] == kp[o]);
                }
            }
            assert forall|y: int| 0 <= y < x implies !matches_at(t, y, kp) by {
                if matches_at(t, y, kp) {
                    let k = lemma_key_match(sec, n, y);
                }
            }
            lemma_find_first(t, kp, x);
        },
        None => {
            assert forall|y: int| !matches_at(t, y, kp) by {
                if matches_at(t, y, kp) {
                    let k = lemma_key_match(sec, n, y);
                }
            }
            lemma_find_none(t, kp);
        },
    }
}

} // verus!

verus! {

/// `n` fits the names of the section headed `h`, if there is one.
pub open spec fn fits_section(secs: Seq<(Seq<char>, Seq<(Seq<char>, Seq<char>)>)>, h: Seq<char>, n: Seq<char>) -> bool {
    forall|i: int| 0 <= i < secs.len() && #[trigger] secs[i].0 == h ==> name_fits(secs[i].1, n)
}

proof fn lemma_char_in_entry(pre: Seq<char>, secs: Seq<(Seq<char>, Seq<(Seq<char>, Seq<char>)>)>, i: int, j: int, o: int)
    requires
        well_formed_config(pre, secs),
        0 <= i < secs.len(),
        0 <= j < secs[i].1.len(),
        0 <= o < entry_text(secs[i].1[j]).len(),
    ensures
        sec_start(pre, secs, i) + entry_start(secs[i], j) + o < config_text(pre, secs).len(),
        config_text(pre, secs)[sec_start(pre, secs, i) + entry_start(secs[i], j) + o] == entry_text(secs[i].1[j])[o],
{
    assert(good_entries(secs[i].1));
    lemma_section_entry(secs[i], j);
    lemma_section_head(secs[i]);
    lemma_entry_mono(secs[i], j + 1, secs[i].1.len() as int);
    let t = section_text(secs[i]);
    assert(t.subrange(entry_start(secs[i], j), entry_start(secs[i], j + 1))[o] == t[entry_start(secs[i], j) + o]);
    lemma_char_in_section(pre, secs, i, entry_start(secs[i], j) + o);
}

/// The value read at an entry's `name = ` is the entry's value.
#[verifier::spinoff_prover]
proof fn lemma_value_at(pre: Seq<char>, secs: Seq<(Seq<char>, Seq<(Seq<char>, Seq<char>)>)>, i: int, j: int)
    requires
        well_formed_config(pre, secs),
        0 <= i < secs.len(),
        0 <= j < secs[i].1.len(),
    ensures
        ({
            let c = config_text(pre, secs);
            let e = secs[i].1[j];
            let vs = sec_start(pre, secs, i) + entry_start(secs[i], j) + key_pat(e.0).len();
            let ve = line_end(c, vs, c.len() as int);
            trim_char(trim_char(trim(c.subrange(vs, ve)), '"'), '\'') == e.1
        }),
{
    let c = config_text(pre, secs);
    let sec = secs[i];
    let ss = sec_start(pre, secs, i);
    let e = sec.1[j];
    let kp = key_pat(e.0);
    let kl = key_line(e.0, e.1);
    let ks = entry_start(sec, j);
    let vs = ss + ks + kp.len();
    let ve = ss + ks + kl.len();
    assert(good_entries(sec.1));
    lemma_key_line_facts(e.0, e.1);
    lemma_entry_chars(e, 0);
    assert forall|y: int| vs <= y < ve implies c[y] != '\n' by {
        lemma_char_in_entry(pre, secs, i, j, y - ss - ks);
        assert(entry_text(e)[y - ss - ks] == kl[y - ss - ks]);
    }
    lemma_char_in_entry(pre, secs, i, j, kl.len() as int);
    lemma_line_end_at(c, vs, ve);
    assert(c.subrange(vs, ve) =~= seq!['"'] + e.1 + seq!['"']) by {
        assert forall|y: int| 0 <= y < ve - vs implies c.subrange(vs, ve)[y] == (seq!['"'] + e.1 + seq!['"'])[y] by {
            lemma_char_in_entry(pre, secs, i, j, kp.len() + y);
            assert(entry_text(e)[kp.len() + y] == kl[kp.len() + y]);
            assert(kl.subrange(kp.len() as int, kl.len() as int)[y] == kl[kp.len() + y]);
        }
    }
    lemma_value_extract(e.1);
}

/// Reading the text of a well-formed configuration gives what the model holds.
#[verifier::spinoff_prover]
pub proof fn lemma_lookup_model(
    pre: Seq<char>,
    secs: Seq<(Seq<char>, Seq<(Seq<char>, Seq<char>)>)>,
    f: Seq<char>,
    s: Seq<char>,
    n: Seq<char>,
)
    requires
        well_formed_config(pre, secs),
        good_header(header(f, s)),
        plain_key_name(n),
        fits_section(secs, header(f, s), n),
    ensures
        lookup(config_text(pre, secs), f, s, n) == model_lookup(secs, header(f, s), n),
{
    let c = config_text(pre, secs);
    let h = header(f, s);
    lemma_find_header(pre, secs, h);
    lemma_find_section_facts(secs, h);
    if let Some(i) = find_section(secs, h) {
        let sec = secs[i];
        lemma_section_end(pre, secs, i);
        lemma_config_section(pre, secs, i);
        assert(good_entries(sec.1));
        lemma_find_key(sec, n);
        lemma_find_entry_facts(sec.1, n);
        if let Some(j) = find_entry(sec.1, n) {
            lemma_value_at(pre, secs, i, j);
        }
    }
}

} // verus!

verus! {

proof fn lemma_concat_split(ps: Seq<Seq<char>>, j: int)
    requires
        0 <= j < ps.len(),
    ensures
        concat(ps) == concat(ps).take(piece_pos(ps, j)) + ps[j] + concat(ps).skip(piece_pos(ps, j + 1)),
{
    lemma_concat_update(ps, j, ps[j]);
    assert(ps.update(j, ps[j]) =~= ps);
}

proof fn lemma_concat_push(ps: Seq<Seq<char>>, x: Seq<char>)
    ensures
        concat(ps.push(x)) == concat(ps) + x,
{
    assert(ps.push(x).drop_last() =~= ps);
}

/// A new section at the end.
#[verifier::spinoff_prover]
proof fn lemma_store_new(pre: Seq<char>, secs: Seq<(Seq<char>, Seq<(Seq<char>, Seq<char>)>)>, f: Seq<char>, s: Seq<char>, n: Seq<char>, v: Seq<char>)
    requires
        well_formed_config(pre, secs),
        good_header(header(f, s)),
        find_section(secs, header(f, s)) is None,
    ensures
        store(config_text(pre, secs), f, s, n, v) == config_text(pre, model_set(secs, header(f, s), n, v)),
{
    let c = config_text(pre, secs);
    let h = header(f, s);
    lemma_find_header(pre, secs, h);
    lemma_config_ends(pre, secs);
    assert(with_final_newline(c) == c);
    let x = (h, seq![(n, v)]);
    assert(section_texts(secs.push(x)) =~= section_texts(secs).push(section_text(x)));
    lemma_concat_push(section_texts(secs), section_text(x));
    let ets = entry_texts(x.1);
    assert(ets =~= Seq::<Seq<char>>::empty().push(entry_text((n, v))));
    lemma_concat_push(Seq::<Seq<char>>::empty(), entry_text((n, v)));
    assert(concat(Seq::<Seq<char>>::empty()) =~= Seq::<char>::empty());
    assert(store(c, f, s, n, v) =~= config_text(pre, secs.push(x)));
}

} // verus!

verus! {

/// The text as the part before section `i`, that section, and the part after.
proof fn lemma_config_split(pre: Seq<char>, secs: Seq<(Seq<char>, Seq<(Seq<char>, Seq<char>)>)>, i: int)
    requires
        0 <= i < secs.len(),
    ensures
        ({
            let c = config_text(pre, secs);
            let a = c.take(sec_start(pre, secs, i));
            let fr = c.skip(sec_start(pre, secs, i + 1));
            &&& c == a + section_text(secs[i]) + fr
            &&& a == pre + concat(section_texts(secs)).take(piece_pos(section_texts(secs), i))
            &&& fr == concat(section_texts(secs)).skip(piece_pos(section_texts(secs), i + 1))
        }),
{
    let sts = section_texts(secs);
    lemma_concat_split(sts, i);
    lemma_piece(sts, i);
    lemma_pos_mono(sts, i + 1, sts.len() as int);
    assert(sts.take(sts.len() as int) =~= sts);
    assert(sts[i] == section_text(secs[i]));
    let c = config_text(pre, secs);
    assert(c.take(sec_start(pre, secs, i)) =~= pre + concat(sts).take(piece_pos(sts, i)));
    assert(c.skip(sec_start(pre, secs, i + 1)) =~= concat(sts).skip(piece_pos(sts, i + 1)));
}

/// The config after section `i` becomes `x`.
proof fn lemma_config_update(
    pre: Seq<char>,
    secs: Seq<(Seq<char>, Seq<(Seq<char>, Seq<char>)>)>,
    i: int,
    x: (Seq<char>, Seq<(Seq<char>, Seq<char>)>),
)
    requires
        0 <= i < secs.len(),
    ensures
        config_text(pre, secs.update(i, x)) == config_text(pre, secs).take(sec_start(pre, secs, i)) + section_text(x)
            + config_text(pre, secs).skip(sec_start(pre, secs, i + 1)),
{
    let sts = section_texts(secs);
    lemma_config_split(pre, secs, i);
    assert(section_texts(secs.update(i, x)) =~= sts.update(i, section_text(x)));
    lemma_concat_update(sts, i, section_text(x));
}

/// What a store does where the section is there and the key is not.
proof fn lemma_store_append_text(c: Seq<char>, f: Seq<char>, s: Seq<char>, n: Seq<char>, v: Seq<char>, ss: int, se: int)
    requires
        find(c, header(f, s)) == Some(ss),
        section_end(c, ss) == se,
        se <= c.len(),
        find(c.subrange(ss, se), key_pat(n)) is None,
        se == c.len() ==> with_final_newline(c) == c,
    ensures
        store(c, f, s, n, v) == c.take(se) + key_line(n, v) + seq!['\n'] + c.skip(se),
{
    if se == c.len() {
        assert(c.take(se) =~= c);
        assert(c.skip(se) =~= Seq::<char>::empty());
        assert(store(c, f, s, n, v) =~= c.take(se) + key_line(n, v) + seq!['\n'] + c.skip(se));
    }
}

/// The section text after appending an entry.
proof fn lemma_section_append(sec: (Seq<char>, Seq<(Seq<char>, Seq<char>)>), n: Seq<char>, v: Seq<char>)
    ensures
        section_text((sec.0, sec.1.push((n, v)))) == section_text(sec) + key_line(n, v) + seq!['\n'],
{
    assert(entry_texts(sec.1.push((n, v))) =~= entry_texts(sec.1).push(entry_text((n, v))));
    lemma_concat_push(entry_texts(sec.1), entry_text((n, v)));
    assert(section_text((sec.0, sec.1.push((n, v)))) =~= section_text(sec) + key_line(n, v) + seq!['\n']);
}

/// A new entry at the end of its section.
#[verifier::spinoff_prover]
#[verifier::rlimit(100)]
proof fn lemma_store_append(pre: Seq<char>, secs: Seq<(Seq<char>, Seq<(Seq<char>, Seq<char>)>)>, f: Seq<char>, s: Seq<char>, n: Seq<char>, v: Seq<char>, i: int)
    requires
        well_formed_config(pre, secs),
        good_header(header(f, s)),
        plain_key_name(n),
        find_section(secs, header(f, s)) == Some(i),
        name_fits(secs[i].1, n),
        find_entry(secs[i].1, n) is None,
    ensures
        store(config_text(pre, secs), f, s, n, v) == config_text(pre, model_set(secs, header(f, s), n, v)),
{
    let c = config_text(pre, secs);
    let h = header(f, s);
    let sec = secs[i];
    let ss = sec_start(pre, secs, i);
    let se = sec_start(pre, secs, i + 1);
    assert(0 <= i < secs.len() && secs[i].0 == h) by {
        lemma_find_section_facts(secs, h);
    }
    assert(find(c, h) == Some(ss)) by {
        lemma_find_header(pre, secs, h);
    }
    assert(section_end(c, ss) == se) by {
        lemma_section_end(pre, secs, i);
    }
    lemma_config_section(pre, secs, i);
    assert(find(c.subrange(ss, se), key_pat(n)) is None) by {
        assert(good_entries(sec.1));
        lemma_find_key(sec, n);
    }
    assert(se == c.len() ==> with_final_newline(c) == c) by {
        lemma_config_ends(pre, secs);
    }
    lemma_store_append_text(c, f, s, n, v, ss, se);
    lemma_config_split(pre, secs, i);
    let a = c.take(ss);
    let fr = c.skip(se);
    let x = (h, sec.1.push((n, v)));
    lemma_config_update(pre, secs, i, x);
    lemma_section_append(sec, n, v);
    assert(c.take(se) =~= a + section_text(sec));
    assert(c.skip(se) =~= fr);
    assert(model_set(secs, h, n, v) == secs.update(i, x));
    assert(store(c, f, s, n, v) =~= a + section_text(x) + fr);
}

} // verus!

verus! {

/// The section text with entry `j` replaced.
#[verifier::spinoff_prover]
proof fn lemma_section_replace(sec: (Seq<char>, Seq<(Seq<char>, Seq<char>)>), j: int, n: Seq<char>, v: Seq<char>)
    requires
        good_entries(sec.1),
        0 <= j < sec.1.len(),
    ensures
        ({
            let t = section_text(sec);
            let p = t.take(entry_start(sec, j));
            let q = t.skip(entry_start(sec, j + 1));
            &&& t == p + entry_text(sec.1[j]) + q
            &&& section_text((sec.0, sec.1.update(j, (n, v)))) == p + key_line(n, v) + seq!['\n'] + q
        }),
{
    let ets = entry_texts(sec.1);
    let t = section_text(sec);
    lemma_concat_split(ets, j);
    lemma_concat_update(ets, j, entry_text((n, v)));
    lemma_piece(ets, j);
    lemma_pos_mono(ets, j + 1, ets.len() as int);
    assert(ets.take(ets.len() as int) =~= ets);
    assert(ets[j] == entry_text(sec.1[j]));
    assert(entry_texts(sec.1.update(j, (n, v))) =~= ets.update(j, entry_text((n, v))));
    let p = t.take(entry_start(sec, j));
    let q = t.skip(entry_start(sec, j + 1));
    assert(p =~= sec.0 + seq!['\n'] + concat(ets).take(piece_pos(ets, j)));
    assert(q =~= concat(ets).skip(piece_pos(ets, j + 1)));
    assert(t =~= p + entry_text(sec.1[j]) + q);
    assert(section_text((sec.0, sec.1.update(j, (n, v)))) =~= p + key_line(n, v) + seq!['\n'] + q);
}

/// What a store does where the key is there.
proof fn lemma_store_replace_text(c: Seq<char>, f: Seq<char>, s: Seq<char>, n: Seq<char>, v: Seq<char>, ss: int, se: int, ks: int, e: int)
    requires
        find(c, header(f, s)) == Some(ss),
        section_end(c, ss) == se,
        find(c.subrange(ss, se), key_pat(n)) == Some(ks),
        0 <= ss + ks <= e < c.len(),
        c[e] == '\n',
        forall|y: int| ss + ks <= y < e ==> c[y] != '\n',
    ensures
        store(c, f, s, n, v) == c.take(ss + ks) + key_line(n, v) + c.skip(e),
{
    lemma_line_end_at(c, ss + ks, e);
}

proof fn lemma_replace_algebra(
    c: Seq<char>,
    t: Seq<char>,
    et: Seq<char>,
    a: Seq<char>,
    p: Seq<char>,
    ko: Seq<char>,
    q: Seq<char>,
    fr: Seq<char>,
    kn: Seq<char>,
)
    requires
        c == a + t + fr,
        t == p + et + q,
        et == ko + seq!['\n'],
    ensures
        c.take((a.len() + p.len()) as int) + kn + c.skip((a.len() + p.len() + ko.len()) as int) == a + (p + kn + seq!['\n'] + q) + fr,
{
    assert(c =~= a + p + ko + seq!['\n'] + q + fr);
    assert(c.take((a.len() + p.len()) as int) =~= a + p);
    assert(c.skip((a.len() + p.len() + ko.len()) as int) =~= seq!['\n'] + q + fr);
    assert(c.take((a.len() + p.len()) as int) + kn + c.skip((a.len() + p.len() + ko.len()) as int) =~= a + (p + kn + seq!['\n'] + q) + fr);
}

/// What a store does to the text where the key is there.
#[verifier::spinoff_prover]
#[verifier::rlimit(60)]
proof fn lemma_store_replace_at(pre: Seq<char>, secs: Seq<(Seq<char>, Seq<(Seq<char>, Seq<char>)>)>, f: Seq<char>, s: Seq<char>, n: Seq<char>, v: Seq<char>, i: int, j: int)
    requires
        well_formed_config(pre, secs),
        good_header(header(f, s)),
        plain_key_name(n),
        find_section(secs, header(f, s)) == Some(i),
        name_fits(secs[i].1, n),
        find_entry(secs[i].1, n) == Some(j),
    ensures
        0 <= i < secs.len(),
        0 <= j < secs[i].1.len(),
        store(config_text(pre, secs), f, s, n, v) == config_text(pre, secs).take(
            sec_start(pre, secs, i) + entry_start(secs[i], j),
        ) + key_line(n, v) + config_text(pre, secs).skip(
            sec_start(pre, secs, i) + entry_start(secs[i], j) + key_line(secs[i].1[j].0, secs[i].1[j].1).len(),
        ),
{
    let c = config_text(pre, secs);
    let h = header(f, s);
    let sec = secs[i];
    let ss = sec_start(pre, secs, i);
    let se = sec_start(pre, secs, i + 1);
    assert(0 <= i < secs.len() && secs[i].0 == h) by {
        lemma_find_section_facts(secs, h);
    }
    assert(good_entries(sec.1));
    assert(0 <= j < sec.1.len() && sec.1[j].0 == n) by {
        lemma_find_entry_facts(sec.1, n);
    }
    let ks = entry_start(sec, j);
    let old_e = sec.1[j];
    let kl_old = key_line(old_e.0, old_e.1);
    let e = ss + ks + kl_old.len();
    assert(find(c, h) == Some(ss)) by {
        lemma_find_header(pre, secs, h);
    }
    assert(section_end(c, ss) == se) by {
        lemma_section_end(pre, secs, i);
    }
    lemma_config_section(pre, secs, i);
    assert(find(c.subrange(ss, se), key_pat(n)) == Some(ks)) by {
        lemma_find_key(sec, n);
    }
    assert(e < c.len() && c[e] == '\n') by {
        lemma_entry_chars(old_e, 0);
        lemma_char_in_entry(pre, secs, i, j, kl_old.len() as int);
    }
    assert forall|y: int| ss + ks <= y < e implies c[y] != '\n' by {
        lemma_entry_chars(old_e, y - ss - ks);
        lemma_char_in_entry(pre, secs, i, j, y - ss - ks);
    }
    lemma_store_replace_text(c, f, s, n, v, ss, se, ks, e);
}

/// An entry's value replaced.
#[verifier::spinoff_prover]
#[verifier::rlimit(100)]
proof fn lemma_store_replace_model(pre: Seq<char>, secs: Seq<(Seq<char>, Seq<(Seq<char>, Seq<char>)>)>, f: Seq<char>, s: Seq<char>, n: Seq<char>, v: Seq<char>, i: int, j: int)
    requires
        well_formed_config(pre, secs),
        good_header(header(f, s)),
        plain_key_name(n),
        find_section(secs, header(f, s)) == Some(i),
        name_fits(secs[i].1, n),
        find_entry(secs[i].1, n) == Some(j),
    ensures
        store(config_text(pre, secs), f, s, n, v) == config_text(pre, model_set(secs, header(f, s), n, v)),
{
    lemma_store_replace_at(pre, secs, f, s, n, v, i, j);
    let c = config_text(pre, secs);
    let h = header(f, s);
    let sec = secs[i];
    assert(good_entries(sec.1));
    assert(secs[i].0 == h) by {
        lemma_find_section_facts(secs, h);
    }
    let ss = sec_start(pre, secs, i);
    let se = sec_start(pre, secs, i + 1);
    let ks = entry_start(sec, j);
    let old_e = sec.1[j];
    lemma_config_split(pre, secs, i);
    lemma_section_replace(sec, j, n, v);
    let x = (h, sec.1.update(j, (n, v)));
    lemma_config_update(pre, secs, i, x);
    let t = section_text(sec);
    let p = t.take(ks);
    let q = t.skip(entry_start(sec, j + 1));
    let a = c.take(ss);
    let fr = c.skip(se);
    lemma_config_section(pre, secs, i);
    assert(a.len() == ss);
    assert(p.len() == ks) by {
        lemma_section_entry(sec, j);
        lemma_entry_mono(sec, j + 1, sec.1.len() as int);
        lemma_section_head(sec);
    }
    lemma_replace_algebra(c, t, entry_text(old_e), a, p, key_line(old_e.0, old_e.1), q, fr, key_line(n, v));
    assert(model_set(secs, h, n, v) == secs.update(i, x));
}

} // verus!

verus! {

/// Storing into a well-formed text is the text of the model after the set.
pub proof fn lemma_store_model(
    pre: Seq<char>,
    secs: Seq<(Seq<char>, Seq<(Seq<char>, Seq<char>)>)>,
    f: Seq<char>,
    s: Seq<char>,
    n: Seq<char>,
    v: Seq<char>,
)
    requires
        well_formed_config(pre, secs),
        good_header(header(f, s)),
        plain_key_name(n),
        fits_section(secs, header(f, s), n),
    ensures
        store(config_text(pre, secs), f, s, n, v) == config_text(pre, model_set(secs, header(f, s), n, v)),
{
    let h = header(f, s);
    lemma_find_section_facts(secs, h);
    match find_section(secs, h) {
        None => lemma_store_new(pre, secs, f, s, n, v),
        Some(i) => {
            assert(name_fits(secs[i].1, n));
            match find_entry(secs[i].1, n) {
                None => lemma_store_append(pre, secs, f, s, n, v, i),
                Some(j) => lemma_store_replace_model(pre, secs, f, s, n, v, i, j),
            }
        },
    }
}

/// `n` and the names of the section headed `h` end none of each other, but for an equal name.
pub open spec fn clear_in_section(secs: Seq<(Seq<char>, Seq<(Seq<char>, Seq<char>)>)>, h: Seq<char>, n: Seq<char>) -> bool {
    forall|i: int, j: int|
        0 <= i < secs.len() && secs[i].0 == h && 0 <= j < secs[i].1.len() && (is_suffix(n, #[trigger] secs[i].1[j].0)
            || is_suffix(secs[i].1[j].0, n)) ==> secs[i].1[j].0 == n
}

/// A set keeps the model well formed.
#[verifier::spinoff_prover]
#[verifier::rlimit(60)]
pub proof fn lemma_set_keeps_shape(
    pre: Seq<char>,
    secs: Seq<(Seq<char>, Seq<(Seq<char>, Seq<char>)>)>,
    h: Seq<char>,
    n: Seq<char>,
    v: Seq<char>,
)
    requires
        well_formed_config(pre, secs),
        good_header(h),
        plain_key_name(n),
        good_value(v),
        clear_in_section(secs, h, n),
    ensures
        well_formed_config(pre, model_set(secs, h, n, v)),
{
    lemma_find_section_facts(secs, h);
    let m = model_set(secs, h, n, v);
    match find_section(secs, h) {
        None => {
            assert(m == secs.push((h, seq![(n, v)])));
            assert forall|i: int, j: int, k: int|
                0 <= i < m.len() && 0 <= j < m[i].1.len() && 0 <= k < m[i].1.len() && j != k implies !is_suffix(
                #[trigger] m[i].1[j].0,
                #[trigger] m[i].1[k].0,
            ) by {
                if i < secs.len() {
                    assert(m[i] == secs[i]);
                }
            }
            assert forall|i: int, j: int| 0 <= i < m.len() && 0 <= j < m[i].1.len() implies plain_key_name(
                #[trigger] m[i].1[j].0,
            ) && good_value(m[i].1[j].1) by {
                if i < secs.len() {
                    assert(m[i] == secs[i]);
                }
            }
        },
        Some(i0) => {
            let es = secs[i0].1;
            lemma_find_entry_facts(es, n);
            let es2 = match find_entry(es, n) {
                Some(j) => es.update(j, (n, v)),
                None => es.push((n, v)),
            };
            assert(m == secs.update(i0, (h, es2)));
            assert forall|j: int| 0 <= j < es2.len() implies (#[trigger] es2[j].0 == n || (j < es.len() && es2[j] == es[j]
                && es[j].0 != n)) by {
                if let Some(jj) = find_entry(es, n) {
                    if j != jj {
                        assert(es2[j] == es[j]);
                    }
                } else {
                    if j < es.len() {
                        assert(es2[j] == es[j]);
                    }
                }
            }
            assert forall|i: int, j: int, k: int|
                0 <= i < m.len() && 0 <= j < m[i].1.len() && 0 <= k < m[i].1.len() && j != k implies !is_suffix(
                #[trigger] m[i].1[j].0,
                #[trigger] m[i].1[k].0,
            ) by {
                if i != i0 {
                    assert(m[i] == secs[i]);
                } else {
                    assert(m[i].1 == es2);
                    let a = es2[j].0;
                    let b = es2[k].0;
                    if a == n && b == n {
                        if let Some(jj) = find_entry(es, n) {
                            assert(j == jj || es2[j] == es[j]);
                        }
                    } else if a == n {
                        assert(es2[k] == es[k]);
                        assert(secs[i0].1[k].0 == b);
                    } else if b == n {
                        assert(es2[j] == es[j]);
                        assert(secs[i0].1[j].0 == a);
                    } else {
                        assert(es2[j] == es[j] && es2[k] == es[k]);
                    }
                }
            }
            assert forall|i: int, j: int| 0 <= i < m.len() && 0 <= j < m[i].1.len() implies plain_key_name(
                #[trigger] m[i].1[j].0,
            ) && good_value(m[i].1[j].1) by {
                if i != i0 {
                    assert(m[i] == secs[i]);
                } else {
                    assert(m[i].1 == es2);
                    if es2[j].0 == n {
                        if let Some(jj) = find_entry(es, n) {
                            if j != jj {
                                assert(es2[j] == es[j]);
                            }
                        } else if j < es.len() {
                            assert(es2[j] == es[j]);
                        }
                    }
                }
            }
        },
    }
}

} // verus!

verus! {

/// In the model, a set changes the value of its own key and no other.
#[verifier::spinoff_prover]
#[verifier::rlimit(60)]
proof fn lemma_model_set_lookup(
    pre: Seq<char>,
    secs: Seq<(Seq<char>, Seq<(Seq<char>, Seq<char>)>)>,
    h: Seq<char>,
    n: Seq<char>,
    v: Seq<char>,
    h2: Seq<char>,
    n2: Seq<char>,
)
    requires
        well_formed_config(pre, secs),
        well_formed_config(pre, model_set(secs, h, n, v)),
    ensures
        model_lookup(model_set(secs, h, n, v), h2, n2) == if h2 == h && n2 == n {
            Some(v)
        } else {
            model_lookup(secs, h2, n2)
        },
{
    let m = model_set(secs, h, n, v);
    lemma_find_section_facts(secs, h);
    lemma_find_section_facts(secs, h2);
    lemma_find_section_facts(m, h2);
    match find_section(secs, h) {
        None => {
            assert(m == secs.push((h, seq![(n, v)])));
            if h2 == h {
                assert(m[secs.len() as int].0 == h);
                let es = m[secs.len() as int].1;
                lemma_find_entry_facts(es, n2);
                if n2 == n {
                    assert(es[0].0 == n);
                }
            } else {
                if let Some(i) = find_section(secs, h2) {
                    assert(m[i] == secs[i]);
                }
            }
        },
        Some(i0) => {
            let es = secs[i0].1;
            lemma_find_entry_facts(es, n);
            let es2 = match find_entry(es, n) {
                Some(j) => es.update(j, (n, v)),
                None => es.push((n, v)),
            };
            assert(m == secs.update(i0, (h, es2)));
            if h2 == h {
                assert(m[i0].0 == h);
                assert(m[i0].1 == es2);
                lemma_find_entry_facts(es2, n2);
                lemma_find_entry_facts(es, n2);
                if n2 == n {
                    match find_entry(es, n) {
                        Some(j) => assert(es2[j].0 == n),
                        None => assert(es2[es.len() as int].0 == n),
                    }
                } else {
                    match find_entry(es, n2) {
                        Some(j) => {
                            assert(es2[j] == es[j]);
                        },
                        None => {
                            assert forall|k: int| 0 <= k < es2.len() implies es2[k].0 != n2 by {
                                if let Some(jj) = find_entry(es, n) {
                                    if k != jj {
                                        assert(es2[k] == es[k]);
                                    }
                                } else if k < es.len() {
                                    assert(es2[k] == es[k]);
                                }
                            }
                        },
                    }
                }
            } else {
                if let Some(i) = find_section(secs, h2) {
                    assert(m[i] == secs[i]);
                }
                if let Some(i) = find_section(m, h2) {
                    assert(i != i0);
                    assert(m[i] == secs[i]);
                }
            }
        },
    }
}

/// A well-formed text has its headers at line starts.
proof fn lemma_config_headers_start_lines(pre: Seq<char>, secs: Seq<(Seq<char>, Seq<(Seq<char>, Seq<char>)>)>)
    requires
        well_formed_config(pre, secs),
    ensures
        headers_start_lines(config_text(pre, secs)),
{
    let c = config_text(pre, secs);
    assert forall|x: int| 0 < x < c.len() && #[trigger] c[x] == '[' implies c[x - 1] == '\n' by {
        let i = lemma_config_at(pre, secs, x);
        lemma_config_ends(pre, secs);
        if i == 0 {
            assert(pre.len() > 0);
            assert(c.subrange(0, pre.len() as int)[x - 1] == c[x - 1]);
        } else {
            lemma_config_section(pre, secs, i - 1);
            assert(good_entries(secs[i - 1].1));
            lemma_section_head(secs[i - 1]);
            lemma_char_in_section(pre, secs, i - 1, section_text(secs[i - 1]).len() - 1);
        }
    }
}

/// A header made of plain parts without `]` is a good header.
proof fn lemma_good_header(f: Seq<char>, s: Seq<char>)
    requires
        plain_header_part(f),
        plain_header_part(s),
        !f.contains(']'),
        !s.contains(']'),
    ensures
        good_header(header(f, s)),
{
    let h = header(f, s);
    assert forall|i: int| 0 < i < h.len() implies #[trigger] h[i] != '[' by {
        if 1 <= i < 1 + f.len() {
            assert(h[i] == f[i - 1]);
            assert(f.contains(f[i - 1]));
        } else if 2 + f.len() <= i < 2 + f.len() + s.len() {
            assert(h[i] == s[i - 2 - f.len()]);
            assert(s.contains(s[i - 2 - f.len()]));
        }
    }
    assert forall|i: int| 0 <= i < h.len() - 1 implies #[trigger] h[i] != ']' by {
        if 1 <= i < 1 + f.len() {
            assert(h[i] == f[i - 1]);
            assert(f.contains(f[i - 1]));
        } else if 2 + f.len() <= i < 2 + f.len() + s.len() {
            assert(h[i] == s[i - 2 - f.len()]);
            assert(s.contains(s[i - 2 - f.len()]));
        }
    }
    assert forall|i: int| 0 <= i < h.len() implies #[trigger] h[i] != '\n' && h[i] != '=' by {
        if 1 <= i < 1 + f.len() {
            assert(h[i] == f[i - 1]);
            assert(f.contains(f[i - 1]));
        } else if 2 + f.len() <= i < 2 + f.len() + s.len() {
            assert(h[i] == s[i - 2 - f.len()]);
            assert(s.contains(s[i - 2 - f.len()]));
        }
    }
}

/// Headers of sections without `.` name one feature and section each.
proof fn lemma_header_injective(f: Seq<char>, s: Seq<char>, f2: Seq<char>, s2: Seq<char>)
    requires
        !s.contains('.'),
        !s2.contains('.'),
        header(f, s) == header(f2, s2),
    ensures
        f == f2,
        s == s2,
{
    let h = header(f, s);
    if s.len() < s2.len() {
        let p = h.len() - 2 - s.len();
        assert(h[p] == '.');
        assert(header(f2, s2)[p] == s2[p - 2 - f2.len()]);
        assert(s2.contains(s2[p - 2 - f2.len()]));
    } else if s2.len() < s.len() {
        let p = h.len() - 2 - s2.len();
        assert(header(f2, s2)[p] == '.');
        assert(h[p] == s[p - 2 - f.len()]);
        assert(s.contains(s[p - 2 - f.len()]));
    }
    assert(s.len() == s2.len());
    assert(h.len() == header(f2, s2).len());
    assert(f.len() == f2.len());
    assert forall|i: int| 0 <= i < f.len() implies f[i] == f2[i] by {
        assert(h[i + 1] == f[i]);
        assert(header(f2, s2)[i + 1] == f2[i]);
    }
    assert forall|i: int| 0 <= i < s.len() implies s[i] == s2[i] by {
        assert(h[i + 2 + f.len()] == s[i]);
        assert(header(f2, s2)[i + 2 + f2.len()] == s2[i]);
    }
    assert(f =~= f2);
    assert(s =~= s2);
}

} // verus!

verus! {

proof fn lemma_fits_after_set(
    secs: Seq<(Seq<char>, Seq<(Seq<char>, Seq<char>)>)>,
    h: Seq<char>,
    n: Seq<char>,
    v: Seq<char>,
    h2: Seq<char>,
    n2: Seq<char>,
)
    requires
        forall|i: int, j: int| 0 <= i < secs.len() && 0 <= j < secs.len() && i != j ==> #[trigger] secs[i].0 != #[trigger] secs[j].0,
        fits_section(secs, h2, n2),
        h2 == h ==> (n2 == n || !is_suffix(n2, n)),
    ensures
        fits_section(model_set(secs, h, n, v), h2, n2),
{
    let m = model_set(secs, h, n, v);
    lemma_find_section_facts(secs, h);
    assert forall|i: int| 0 <= i < m.len() && #[trigger] m[i].0 == h2 implies name_fits(m[i].1, n2) by {
        match find_section(secs, h) {
            None => {
                assert(m == secs.push((h, seq![(n, v)])));
                if i < secs.len() {
                    assert(m[i] == secs[i]);
                } else {
                    assert(m[i].1 == seq![(n, v)]);
                }
            },
            Some(i0) => {
                let es = secs[i0].1;
                let es2 = match find_entry(es, n) {
                    Some(j) => es.update(j, (n, v)),
                    None => es.push((n, v)),
                };
                assert(m == secs.update(i0, (h, es2)));
                if i != i0 {
                    assert(m[i] == secs[i]);
                } else {
                    assert(name_fits(es, n2));
                    assert forall|k: int| 0 <= k < es2.len() && is_suffix(n2, #[trigger] es2[k].0) implies es2[k].0 == n2 by {
                        if es2[k].0 != n {
                            if let Some(jj) = find_entry(es, n) {
                                assert(es2[k] == es[k]);
                            } else {
                                assert(k < es.len());
                                assert(es2[k] == es[k]);
                            }
                        }
                    }
                }
            },
        }
    }
}

/// What a set does to a configuration text that the tool wrote: the text
/// keeps its shape (section headers at line starts, every entry readable),
/// the key set reads back its value, and every other key reads back what it
/// read before.
///
/// A text the tool writes is the leading lines (without `[`) followed by
/// sections: a `[feature.section]` line, then `name = "value"` lines. This
/// holds for feature and section names free of newlines, brackets and `=`
/// (sections also free of `.`, as a `section.name` key gives them), key names
/// free of spaces, `=`, brackets and newlines, values without a newline, `[`
/// or `=` and without a quote at either end, and where no key name of a
/// section ends another one (the matching in the text looks for `name = `).
pub proof fn lemma_set_keeps_other_keys(
    pre: Seq<char>,
    secs: Seq<(Seq<char>, Seq<(Seq<char>, Seq<char>)>)>,
    f: Seq<char>,
    s: Seq<char>,
    n: Seq<char>,
    v: Seq<char>,
    f2: Seq<char>,
    s2: Seq<char>,
    n2: Seq<char>,
)
    requires
        well_formed_config(pre, secs),
        plain_header_part(f) && !f.contains(']'),
        plain_header_part(s) && !s.contains(']') && !s.contains('.'),
        plain_header_part(f2) && !f2.contains(']'),
        plain_header_part(s2) && !s2.contains(']') && !s2.contains('.'),
        plain_key_name(n),
        plain_key_name(n2),
        good_value(v),
        clear_in_section(secs, header(f, s), n),
        fits_section(secs, header(f2, s2), n2),
        f == f2 && s == s2 ==> !is_suffix(n2, n),
        !(f == f2 && s == s2 && n == n2),
    ensures
        ({
            let c = config_text(pre, secs);
            let c2 = store(c, f, s, n, v);
            &&& c2 == config_text(pre, model_set(secs, header(f, s), n, v))
            &&& well_formed_config(pre, model_set(secs, header(f, s), n, v))
            &&& headers_start_lines(c2)
            &&& lookup(c2, f, s, n) == Some(v)
            &&& lookup(c2, f2, s2, n2) == lookup(c, f2, s2, n2)
        }),
{
    let h = header(f, s);
    let h2 = header(f2, s2);
    lemma_good_header(f, s);
    lemma_good_header(f2, s2);
    if h == h2 {
        lemma_header_injective(f, s, f2, s2);
    }
    let m = model_set(secs, h, n, v);
    assert(fits_section(secs, h, n)) by {
        assert forall|i: int| 0 <= i < secs.len() && #[trigger] secs[i].0 == h implies name_fits(secs[i].1, n) by {
            assert forall|j: int| 0 <= j < secs[i].1.len() && is_suffix(n, #[trigger] secs[i].1[j].0) implies secs[i].1[j].0 == n by {
            }
        }
    }
    lemma_store_model(pre, secs, f, s, n, v);
    lemma_set_keeps_shape(pre, secs, h, n, v);
    lemma_config_headers_start_lines(pre, m);
    assert(n.subrange(0, n.len() as int) =~= n);
    lemma_fits_after_set(secs, h, n, v, h, n);
    lemma_fits_after_set(secs, h, n, v, h2, n2);
    lemma_lookup_model(pre, m, f, s, n);
    lemma_lookup_model(pre, m, f2, s2, n2);
    lemma_lookup_model(pre, secs, f2, s2, n2);
    lemma_model_set_lookup(pre, secs, h, n, v, h, n);
    lemma_model_set_lookup(pre, secs, h, n, v, h2, n2);
}

} // verus!

verus! {

/// The text before any set (empty, or the comment lines that `--make`
/// writes) is a well-formed configuration without sections.
pub proof fn lemma_fresh_config(pre: Seq<char>)
    requires
        forall|i: int| 0 <= i < pre.len() ==> #[trigger] pre[i] != '[',
        pre.len() > 0 ==> pre.last() == '\n',
    ensures
        well_formed_config(pre, Seq::empty()),
        config_text(pre, Seq::empty()) == pre,
{
    assert(section_texts(Seq::<(Seq<char>, Seq<(Seq<char>, Seq<char>)>)>::empty()) =~= Seq::<Seq<char>>::empty());
    assert(config_text(pre, Seq::empty()) =~= pre);
}

} // verus!
