//! Translation statistics: which files were translated after how many attempts,
//! and which were skipped or failed to translate.

use vstd::prelude::*;
use crate::text::{
    chars_of, contains_text, copy_string, owned, push_char, push_range, same_text, strip_lead,
    char_pred, lemma_strip_lead_at,
};

verus! {

/// Attempts spent on one file.
#[derive(Debug, Clone, Copy, PartialEq, Eq, Structural)]
pub struct FileAttemptStat {
    /// Translation attempts (1 to 3).
    pub translation_attempts: usize,
    /// Fix attempts, summed over all translations of the file.
    pub fix_attempts: usize,
    /// Whether the file was retranslated from scratch.
    pub had_restart: bool,
}

/// The map from file name to its attempt statistics.
pub struct FileAttemptMap {
    entries: Vec<(String, FileAttemptStat)>,
}

/// The map that a list of (name, stat) entries denotes; later entries win.
pub open spec fn map_of(s: Seq<(String, FileAttemptStat)>) -> Map<Seq<char>, FileAttemptStat>
    decreases s.len(),
{
    if s.len() == 0 {
        Map::empty()
    } else {
        map_of(s.drop_last()).insert(s.last().0@, s.last().1)
    }
}

/// No two entries carry the same name.
pub open spec fn keys_distinct(s: Seq<(String, FileAttemptStat)>) -> bool {
    forall|i: int, j: int| 0 <= i < s.len() && 0 <= j < s.len() && i != j ==> #[trigger] s[i].0@ != #[trigger] s[j].0@
}

proof fn lemma_map_of_key(s: Seq<(String, FileAttemptStat)>, k: Seq<char>)
    ensures
        map_of(s).contains_key(k) <==> exists|i: int| 0 <= i < s.len() && #[trigger] s[i].0@ == k,
    decreases s.len(),
{
    if s.len() > 0 {
        lemma_map_of_key(s.drop_last(), k);
        if exists|i: int| 0 <= i < s.len() && #[trigger] s[i].0@ == k {
            let i = choose|i: int| 0 <= i < s.len() && #[trigger] s[i].0@ == k;
            if i < s.len() - 1 {
                assert(s.drop_last()[i].0@ == k);
            }
        }
        if exists|i: int| 0 <= i < s.drop_last().len() && #[trigger] s.drop_last()[i].0@ == k {
            let i = choose|i: int| 0 <= i < s.drop_last().len() && #[trigger] s.drop_last()[i].0@ == k;
            assert(s[i].0@ == k);
        }
    }
}

proof fn lemma_map_of_value(s: Seq<(String, FileAttemptStat)>, i: int)
    requires
        keys_distinct(s),
        0 <= i < s.len(),
    ensures
        map_of(s).contains_key(s[i].0@),
        map_of(s)[s[i].0@] == s[i].1,
    decreases s.len(),
{
    if i < s.len() - 1 {
        let t = s.drop_last();
        assert(keys_distinct(t)) by {
            assert forall|a: int, b: int| 0 <= a < t.len() && 0 <= b < t.len() && a != b implies #[trigger] t[a].0@ != #[trigger] t[b].0@ by {
                assert(t[a] == s[a] && t[b] == s[b]);
            }
        }
        assert(t[i] == s[i]);
        lemma_map_of_value(t, i);
        assert(s.last().0@ != s[i].0@);
    }
}

proof fn lemma_map_of_len(s: Seq<(String, FileAttemptStat)>)
    requires
        keys_distinct(s),
    ensures
        map_of(s).dom().finite(),
        map_of(s).len() == s.len(),
    decreases s.len(),
{
    if s.len() > 0 {
        let t = s.drop_last();
        assert(keys_distinct(t)) by {
            assert forall|a: int, b: int| 0 <= a < t.len() && 0 <= b < t.len() && a != b implies #[trigger] t[a].0@ != #[trigger] t[b].0@ by {
                assert(t[a] == s[a] && t[b] == s[b]);
            }
        }
        lemma_map_of_len(t);
        lemma_map_of_key(t, s.last().0@);
        if map_of(t).contains_key(s.last().0@) {
            let i = choose|i: int| 0 <= i < t.len() && #[trigger] t[i].0@ == s.last().0@;
            assert(s[i].0@ == s[s.len() - 1].0@);
        }
    }
}

proof fn lemma_map_of_update(s: Seq<(String, FileAttemptStat)>, i: int, e: (String, FileAttemptStat))
    requires
        keys_distinct(s),
        0 <= i < s.len(),
        e.0@ == s[i].0@,
    ensures
        map_of(s.update(i, e)) == map_of(s).insert(e.0@, e.1),
        keys_distinct(s.update(i, e)),
    decreases s.len(),
{
    let u = s.update(i, e);
    assert forall|a: int, b: int| 0 <= a < u.len() && 0 <= b < u.len() && a != b implies #[trigger] u[a].0@ != #[trigger] u[b].0@ by {
        assert(s[a].0@ != s[b].0@);
    }
    if i == s.len() - 1 {
        assert(u.drop_last() =~= s.drop_last());
        assert(map_of(u) =~= map_of(s).insert(e.0@, e.1));
    } else {
        let t = s.drop_last();
        assert(keys_distinct(t)) by {
            assert forall|a: int, b: int| 0 <= a < t.len() && 0 <= b < t.len() && a != b implies #[trigger] t[a].0@ != #[trigger] t[b].0@ by {
                assert(t[a] == s[a] && t[b] == s[b]);
            }
        }
        lemma_map_of_update(t, i, e);
        assert(u.drop_last() =~= t.update(i, e));
        assert(s.last().0@ != e.0@);
        assert(map_of(u) =~= map_of(s).insert(e.0@, e.1));
    }
}

proof fn lemma_map_of_remove(s: Seq<(String, FileAttemptStat)>, i: int)
    requires
        keys_distinct(s),
        0 <= i < s.len(),
    ensures
        map_of(s.remove(i)) == map_of(s).remove(s[i].0@),
        keys_distinct(s.remove(i)),
    decreases s.len(),
{
    let u = s.remove(i);
    assert forall|a: int, b: int| 0 <= a < u.len() && 0 <= b < u.len() && a != b implies #[trigger] u[a].0@ != #[trigger] u[b].0@ by {
        let a2 = if a < i { a } else { a + 1 };
        let b2 = if b < i { b } else { b + 1 };
        assert(u[a] == s[a2] && u[b] == s[b2]);
        assert(s[a2].0@ != s[b2].0@);
    }
    let t = s.drop_last();
    assert(keys_distinct(t)) by {
        assert forall|a: int, b: int| 0 <= a < t.len() && 0 <= b < t.len() && a != b implies #[trigger] t[a].0@ != #[trigger] t[b].0@ by {
            assert(t[a] == s[a] && t[b] == s[b]);
        }
    }
    if i == s.len() - 1 {
        assert(u =~= t);
        lemma_map_of_key(t, s[i].0@);
        assert(!map_of(t).contains_key(s[i].0@)) by {
            if map_of(t).contains_key(s[i].0@) {
                let j = choose|j: int| 0 <= j < t.len() && #[trigger] t[j].0@ == s[i].0@;
                assert(s[j].0@ == s[i].0@);
            }
        }
        assert(map_of(u) =~= map_of(s).remove(s[i].0@));
    } else {
        lemma_map_of_remove(t, i);
        assert(u.drop_last() =~= t.remove(i));
        assert(u.last() == s.last());
        assert(s.last().0@ != s[i].0@);
        assert(map_of(u) =~= map_of(s).remove(s[i].0@));
    }
}

impl View for FileAttemptMap {
    type V = Map<Seq<char>, FileAttemptStat>;

    closed spec fn view(&self) -> Map<Seq<char>, FileAttemptStat> {
        map_of(self.entries@)
    }
}

impl FileAttemptMap {
    /// Its entries hold distinct names.
    pub closed spec fn well_formed(&self) -> bool {
        keys_distinct(self.entries@)
    }

    /// An empty map.
    pub fn new() -> (m: Self)
        ensures
            m.well_formed(),
            m@ == Map::<Seq<char>, FileAttemptStat>::empty(),
    {
        FileAttemptMap { entries: Vec::new() }
    }

    /// The position of the entry named `key`.
    fn position(&self, key: &str) -> (r: Option<usize>)
        requires
            self.well_formed(),
        ensures
            match r {
                Some(i) => i < self.entries@.len() && self.entries@[i as int].0@ == key@,
                None => !self@.contains_key(key@),
            },
    {
        let mut i: usize = 0;
        while i < self.entries.len()
            invariant
                0 <= i <= self.entries@.len(),
                forall|j: int| 0 <= j < i ==> #[trigger] self.entries@[j].0@ != key@,
            decreases self.entries@.len() - i,
        {
            if same_text(self.entries[i].0.as_str(), key) {
                return Some(i);
            }
            i = i + 1;
        }
        proof {
            lemma_map_of_key(self.entries@, key@);
        }
        None
    }

    /// The number of files in the map.
    pub fn len(&self) -> (n: usize)
        requires
            self.well_formed(),
        ensures
            self@.dom().finite(),
            n == self@.len(),
    {
        proof {
            lemma_map_of_len(self.entries@);
        }
        self.entries.len()
    }

    /// Whether the map is empty.
    pub fn is_empty(&self) -> (b: bool)
        requires
            self.well_formed(),
        ensures
            b == (self@.len() == 0),
    {
        proof {
            lemma_map_of_len(self.entries@);
        }
        self.entries.len() == 0
    }

    /// Whether `key` has an entry.
    pub fn contains_key(&self, key: &str) -> (b: bool)
        requires
            self.well_formed(),
        ensures
            b == self@.contains_key(key@),
    {
        let r = self.position(key);
        proof {
            if let Some(i) = r {
                lemma_map_of_value(self.entries@, i as int);
            }
        }
        r.is_some()
    }

    /// The statistics stored for `key`.
    pub fn get(&self, key: &str) -> (r: Option<&FileAttemptStat>)
        requires
            self.well_formed(),
        ensures
            match r {
                Some(v) => self@.contains_key(key@) && self@[key@] == *v,
                None => !self@.contains_key(key@),
            },
    {
        match self.position(key) {
            Some(i) => {
                proof {
                    lemma_map_of_value(self.entries@, i as int);
                }
                Some(&self.entries[i].1)
            },
            None => None,
        }
    }

    /// Stores `stat` under `key`, replacing what was there.
    pub fn insert(&mut self, key: String, stat: FileAttemptStat)
        requires
            old(self).well_formed(),
        ensures
            final(self).well_formed(),
            final(self)@ == old(self)@.insert(key@, stat),
    {
        match self.position(key.as_str()) {
            Some(i) => {
                proof {
                    lemma_map_of_update(self.entries@, i as int, (key, stat));
                }
                self.entries.set(i, (key, stat));
            },
            None => {
                proof {
                    lemma_map_of_key(self.entries@, key@);
                    let s = self.entries@.push((key, stat));
                    assert(s.drop_last() =~= self.entries@);
                    assert forall|a: int, b: int| 0 <= a < s.len() && 0 <= b < s.len() && a != b implies #[trigger] s[a].0@ != #[trigger] s[b].0@ by {
                        if a < s.len() - 1 && b < s.len() - 1 {
                            assert(s[a] == self.entries@[a] && s[b] == self.entries@[b]);
                        } else if a < s.len() - 1 {
                            assert(s[a] == self.entries@[a]);
                        } else {
                            assert(s[b] == self.entries@[b]);
                        }
                    }
                }
                self.entries.push((key, stat));
            },
        }
    }

    /// Removes the entry of `key`, giving back its statistics.
    pub fn remove(&mut self, key: &str) -> (r: Option<FileAttemptStat>)
        requires
            old(self).well_formed(),
        ensures
            final(self).well_formed(),
            final(self)@ == old(self)@.remove(key@),
            match r {
                Some(v) => old(self)@.contains_key(key@) && old(self)@[key@] == v,
                None => !old(self)@.contains_key(key@),
            },
    {
        match self.position(key) {
            Some(i) => {
                proof {
                    lemma_map_of_value(self.entries@, i as int);
                    lemma_map_of_remove(self.entries@, i as int);
                }
                let e = self.entries.remove(i);
                Some(e.1)
            },
            None => {
                proof {
                    assert(self@.remove(key@) =~= self@);
                }
                None
            },
        }
    }

    /// The names of all files in the map, each once.
    pub fn keys(&self) -> (r: Vec<String>)
        requires
            self.well_formed(),
        ensures
            r.len() == self@.len(),
            forall|k: Seq<char>| self@.contains_key(k) <==> exists|i: int| 0 <= i < r.len() && #[trigger] r@[i]@ == k,
            forall|i: int, j: int| 0 <= i < r.len() && 0 <= j < r.len() && i != j ==> #[trigger] r@[i]@ != #[trigger] r@[j]@,
    {
        let mut r: Vec<String> = Vec::new();
        let mut i: usize = 0;
        while i < self.entries.len()
            invariant
                0 <= i <= self.entries@.len(),
                r.len() == i,
                forall|j: int| 0 <= j < i ==> #[trigger] r@[j]@ == self.entries@[j].0@,
            decreases self.entries@.len() - i,
        {
            r.push(copy_string(&self.entries[i].0));
            i = i + 1;
        }
        proof {
            lemma_map_of_len(self.entries@);
            assert forall|k: Seq<char>| self@.contains_key(k) <==> exists|i: int| 0 <= i < r.len() && #[trigger] r@[i]@ == k by {
                lemma_map_of_key(self.entries@, k);
                if self@.contains_key(k) {
                    let j = choose|j: int| 0 <= j < self.entries@.len() && #[trigger] self.entries@[j].0@ == k;
                    assert(r@[j]@ == k);
                }
            }
            assert forall|a: int, b: int| 0 <= a < r.len() && 0 <= b < r.len() && a != b implies #[trigger] r@[a]@ != #[trigger] r@[b]@ by {
                assert(self.entries@[a].0@ != self.entries@[b].0@);
            }
        }
        r
    }

    /// The number of stored entries (as kept internally).
    pub closed spec fn entry_count(&self) -> nat {
        self.entries@.len()
    }

    /// The name and statistics of the `i`-th entry.
    pub closed spec fn entry(&self, i: int) -> (Seq<char>, FileAttemptStat) {
        (self.entries@[i].0@, self.entries@[i].1)
    }
}

} // verus!

verus! {

/// The texts held by a list of strings.
pub open spec fn texts(v: Seq<String>) -> Seq<Seq<char>> {
    v.map_values(|x: String| x@)
}

/// `s` without the entries equal to `k`.
pub open spec fn without(s: Seq<Seq<char>>, k: Seq<char>) -> Seq<Seq<char>> {
    s.filter(|x: Seq<char>| x != k)
}

/// `s` with `k` appended unless it is already there.
pub open spec fn with_once(s: Seq<Seq<char>>, k: Seq<char>) -> Seq<Seq<char>> {
    if s.contains(k) {
        s
    } else {
        s.push(k)
    }
}

/// A copy of `v` without the entries whose text is `k`.
pub fn without_text(v: &Vec<String>, k: &str) -> (r: Vec<String>)
    ensures
        texts(r@) == without(texts(v@), k@),
{
    let mut r: Vec<String> = Vec::new();
    let mut i: usize = 0;
    while i < v.len()
        invariant
            0 <= i <= v.len(),
            texts(r@) == without(texts(v@.take(i as int)), k@),
        decreases v.len() - i,
    {
        proof {
            assert(texts(v@.take(i + 1)) =~= texts(v@.take(i as int)).push(v@[i as int]@));
            texts(v@.take(i as int)).lemma_filter_push(v@[i as int]@, |x: Seq<char>| x != k@);
        }
        if !same_text(v[i].as_str(), k) {
            let c = copy_string(&v[i]);
            let ghost before = r@;
            r.push(c);
            proof {
                assert(texts(r@) =~= texts(before).push(c@));
            }
        }
        i = i + 1;
    }
    proof {
        assert(v@.take(v@.len() as int) =~= v@);
    }
    r
}

} // verus!

verus! {

/// `s` with every backslash turned into a slash.
pub open spec fn slashes(s: Seq<char>) -> Seq<char> {
    s.map_values(|c: char| if c == '\\' { '/' } else { c })
}

/// `s` without its leading `./` pairs.
pub open spec fn strip_dot_slash(s: Seq<char>) -> Seq<char>
    decreases s.len(),
{
    if s.len() >= 2 && s[0] == '.' && s[1] == '/' {
        strip_dot_slash(s.skip(2))
    } else {
        s
    }
}

/// The key under which statistics record a file: its path relative to the Rust
/// crate, with slashes, and starting with `src`.
pub open spec fn canonical_key(name: Seq<char>) -> Seq<char> {
    let t = strip_lead(strip_dot_slash(slashes(name)), char_pred('/'));
    if t.len() == 0 {
        seq!['s', 'r', 'c']
    } else if seq!['s', 'r', 'c', '/'].is_prefix_of(t) || t == seq!['s', 'r', 'c'] {
        t
    } else {
        seq!['s', 'r', 'c', '/'] + t
    }
}

proof fn lemma_strip_dot_slash_at(s: Seq<char>, i: int)
    requires
        0 <= i <= s.len(),
        i % 2 == 0,
        forall|j: int| 0 <= j < i ==> s[j] == (if j % 2 == 0 { '.' } else { '/' }),
        !(i + 2 <= s.len() && s[i] == '.' && s[i + 1] == '/'),
    ensures
        strip_dot_slash(s) == s.skip(i),
    decreases i,
{
    if i > 0 {
        let t = s.skip(2);
        assert(s[0] == '.' && s[1] == '/');
        assert forall|j: int| 0 <= j < i - 2 implies t[j] == (if j % 2 == 0 { '.' } else { '/' }) by {
            assert(t[j] == s[j + 2]);
            assert((j + 2) % 2 == j % 2);
        }
        if i - 2 + 2 <= t.len() {
            assert(t[i - 2] == s[i] && t[i - 1] == s[i + 1]);
        }
        lemma_strip_dot_slash_at(t, i - 2);
        assert(t.skip(i - 2) =~= s.skip(i));
    } else {
        assert(s.skip(0) =~= s);
    }
}

/// The characters of `file_name` with backslashes turned into slashes.
fn slashed_chars(file_name: &str) -> (v: Vec<char>)
    ensures
        v@ == slashes(file_name@),
{
    let raw = chars_of(file_name);
    let mut v: Vec<char> = Vec::new();
    let mut i: usize = 0;
    while i < raw.len()
        invariant
            0 <= i <= raw.len(),
            v@ == slashes(raw@.take(i as int)),
        decreases raw.len() - i,
    {
        let c = if raw[i] == '\\' { '/' } else { raw[i] };
        v.push(c);
        proof {
            assert(slashes(raw@.take(i + 1)) =~= slashes(raw@.take(i as int)).push(c));
        }
        i = i + 1;
    }
    proof {
        assert(raw@.take(raw@.len() as int) =~= raw@);
    }
    v
}

/// Where the path in `v` starts once leading `./` pairs and slashes are skipped.
fn path_start(v: &Vec<char>) -> (b: usize)
    ensures
        b <= v.len(),
        v@.skip(b as int) == strip_lead(strip_dot_slash(v@), char_pred('/')),
{
    let n = v.len();
    let mut a: usize = 0;
    while n - a >= 2 && v[a] == '.' && v[a + 1] == '/'
        invariant
            n == v.len(),
            a <= n,
            a % 2 == 0,
            forall|j: int| 0 <= j < a ==> v@[j] == (if j % 2 == 0 { '.' } else { '/' }),
        decreases n - a,
    {
        proof {
            assert((a + 1) % 2 == 1);
            assert((a + 2) % 2 == 0);
        }
        a = a + 2;
    }
    proof {
        lemma_strip_dot_slash_at(v@, a as int);
    }
    let mut b: usize = a;
    while b < n && v[b] == '/'
        invariant
            n == v.len(),
            a <= b <= n,
            forall|j: int| a <= j < b ==> #[trigger] v@[j] == '/',
        decreases n - b,
    {
        b = b + 1;
    }
    proof {
        let u = v@.skip(a as int);
        assert forall|j: int| 0 <= j < b - a implies char_pred('/')(#[trigger] u[j]) by {
            assert(u[j] == v@[a + j]);
        }
        if b < n {
            assert(u[b - a] == v@[b as int]);
        }
        lemma_strip_lead_at(u, char_pred('/'), b - a);
        assert(u.skip(b - a) =~= v@.skip(b as int));
    }
    b
}

/// The key under which statistics record `file_name` (see [`canonical_key`]).
pub fn canonicalize_stats_file_key(file_name: &str) -> (r: String)
    ensures
        r@ == canonical_key(file_name@),
{
    let v = slashed_chars(file_name);
    let n = v.len();
    let b = path_start(&v);
    let ghost t = v@.skip(b as int);
    let mut out = String::new();
    if b == n {
        push_char(&mut out, 's');
        push_char(&mut out, 'r');
        push_char(&mut out, 'c');
        proof {
            assert(out@ =~= seq!['s', 'r', 'c']);
            assert(t.len() == 0);
        }
        return out;
    }
    let is_src_dir = n - b >= 4 && v[b] == 's' && v[b + 1] == 'r' && v[b + 2] == 'c' && v[b + 3] == '/';
    let is_src = n - b == 3 && v[b] == 's' && v[b + 1] == 'r' && v[b + 2] == 'c';
    if !(is_src_dir || is_src) {
        push_char(&mut out, 's');
        push_char(&mut out, 'r');
        push_char(&mut out, 'c');
        push_char(&mut out, '/');
    }
    push_range(&mut out, &v, b, n);
    proof {
        assert(v@.subrange(b as int, n as int) =~= t);
        if is_src_dir {
            assert(t.take(4) =~= seq!['s', 'r', 'c', '/']);
        }
        if is_src {
            assert(t =~= seq!['s', 'r', 'c']);
        }
        if seq!['s', 'r', 'c', '/'].is_prefix_of(t) {
            assert(t[0] == 's' && t[1] == 'r' && t[2] == 'c' && t[3] == '/') by {
                assert(t.take(4)[0] == t[0] && t.take(4)[1] == t[1] && t.take(4)[2] == t[2] && t.take(4)[3] == t[3]);
            }
        }
        if t == seq!['s', 'r', 'c'] {
            assert(t[0] == 's' && t[1] == 'r' && t[2] == 'c');
        }
        assert(out@ =~= canonical_key(file_name@));
    }
    out
}

} // verus!

verus! {

/// Which success counter a file that needed `attempts` translation attempts counts in:
/// 0 first try, 1 one retry, 2 two retries, 3 three or more.
pub open spec fn bucket(attempts: usize) -> int {
    if attempts == 1 {
        0
    } else if attempts == 2 {
        1
    } else if attempts == 3 {
        2
    } else {
        3
    }
}

/// `a - 1`, but not below zero.
pub open spec fn dec(a: usize) -> usize {
    if a > 0 {
        (a - 1) as usize
    } else {
        0
    }
}

/// How the processing of one file ended, as the statistics record it.
#[derive(Debug, Clone, Copy, PartialEq, Eq, Structural)]
pub enum FileResult {
    /// Translated after `attempts` attempts, with these totals.
    Completed { attempts: usize, had_restart: bool, fix_attempts: usize },
    /// Skipped, by the user or automatically.
    Skipped,
    /// The translation command failed.
    TranslationFailed,
}

/// Translation statistics of a session; file names are kept under [`canonical_key`].
pub struct TranslationStats {
    /// Files successfully translated.
    pub total_files: usize,
    /// Files that passed on the first try.
    pub success_first_try: usize,
    /// Files that passed after one retry.
    pub success_retry_1: usize,
    /// Files that passed after two retries.
    pub success_retry_2: usize,
    /// Files that passed after three or more retries.
    pub success_retry_3_plus: usize,
    /// Files that were retranslated from scratch.
    pub restart_count: usize,
    /// Per-file attempt statistics.
    pub file_attempts: FileAttemptMap,
    /// Files the user (or the automatic retry) skipped.
    pub skipped_files: Vec<String>,
    /// Files whose translation command failed.
    pub translation_failed_files: Vec<String>,
}

impl TranslationStats {
    /// The four success counters, first try to three-or-more retries.
    pub open spec fn buckets(&self) -> Seq<usize> {
        seq![self.success_first_try, self.success_retry_1, self.success_retry_2, self.success_retry_3_plus]
    }

    pub open spec fn well_formed(&self) -> bool {
        self.file_attempts.well_formed()
    }

    /// Statistics with nothing recorded.
    pub fn new() -> (s: Self)
        ensures
            s.well_formed(),
            s.total_files == 0,
            s.buckets() == seq![0usize, 0usize, 0usize, 0usize],
            s.restart_count == 0,
            s.file_attempts@ == Map::<Seq<char>, FileAttemptStat>::empty(),
            s.skipped_files@ == Seq::<String>::empty(),
            s.translation_failed_files@ == Seq::<String>::empty(),
    {
        TranslationStats {
            total_files: 0,
            success_first_try: 0,
            success_retry_1: 0,
            success_retry_2: 0,
            success_retry_3_plus: 0,
            restart_count: 0,
            file_attempts: FileAttemptMap::new(),
            skipped_files: Vec::new(),
            translation_failed_files: Vec::new(),
        }
    }

    /// `new` is `old` after recording the completion of `name`.
    pub open spec fn completion_step(old: Self, new: Self, name: Seq<char>, attempts: usize, had_restart: bool, fix_attempts: usize) -> bool {
        &&& new.well_formed()
        &&& new.total_files == old.total_files + 1
        &&& new.buckets() == old.buckets().update(bucket(attempts), (old.buckets()[bucket(attempts)] + 1) as usize)
        &&& new.restart_count == old.restart_count + (if had_restart { 1int } else { 0int })
        &&& new.file_attempts@ == old.file_attempts@.insert(
            canonical_key(name),
            FileAttemptStat { translation_attempts: attempts, fix_attempts, had_restart },
        )
        &&& new.skipped_files@ == old.skipped_files@
        &&& new.translation_failed_files@ == old.translation_failed_files@
    }

    /// Records that `file_name` was translated after `attempts` translation attempts.
    pub fn record_file_completion(&mut self, file_name: String, attempts: usize, had_restart: bool, fix_attempts: usize)
        requires
            old(self).well_formed(),
            attempts >= 1,
            old(self).total_files < usize::MAX,
            old(self).buckets()[bucket(attempts)] < usize::MAX,
            had_restart ==> old(self).restart_count < usize::MAX,
        ensures
            Self::completion_step(*old(self), *final(self), file_name@, attempts, had_restart, fix_attempts),
    {
        let key = canonicalize_stats_file_key(file_name.as_str());
        self.total_files = self.total_files + 1;
        if attempts == 1 {
            self.success_first_try = self.success_first_try + 1;
        } else if attempts == 2 {
            self.success_retry_1 = self.success_retry_1 + 1;
        } else if attempts == 3 {
            self.success_retry_2 = self.success_retry_2 + 1;
        } else {
            self.success_retry_3_plus = self.success_retry_3_plus + 1;
        }
        if had_restart {
            self.restart_count = self.restart_count + 1;
        }
        self.file_attempts.insert(key, FileAttemptStat { translation_attempts: attempts, fix_attempts, had_restart });
        proof {
            assert(self.buckets() =~= old(self).buckets().update(bucket(attempts), (old(self).buckets()[bucket(attempts)] + 1) as usize));
        }
    }

    /// Records that `file_name` was skipped (once).
    pub fn record_file_skipped(&mut self, file_name: String)
        ensures
            texts(final(self).skipped_files@) == with_once(texts(old(self).skipped_files@), canonical_key(file_name@)),
            texts(old(self).skipped_files@).no_duplicates() ==> texts(final(self).skipped_files@).no_duplicates(),
            final(self).total_files == old(self).total_files,
            final(self).buckets() == old(self).buckets(),
            final(self).restart_count == old(self).restart_count,
            final(self).file_attempts == old(self).file_attempts,
            final(self).translation_failed_files@ == old(self).translation_failed_files@,
    {
        let key = canonicalize_stats_file_key(file_name.as_str());
        push_once(&mut self.skipped_files, key);
    }

    /// Records that the translation command failed for `file_name` (once).
    pub fn record_file_translation_failed(&mut self, file_name: String)
        ensures
            texts(final(self).translation_failed_files@) == with_once(texts(old(self).translation_failed_files@), canonical_key(file_name@)),
            texts(old(self).translation_failed_files@).no_duplicates() ==> texts(final(self).translation_failed_files@).no_duplicates(),
            final(self).total_files == old(self).total_files,
            final(self).buckets() == old(self).buckets(),
            final(self).restart_count == old(self).restart_count,
            final(self).file_attempts == old(self).file_attempts,
            final(self).skipped_files@ == old(self).skipped_files@,
    {
        let key = canonicalize_stats_file_key(file_name.as_str());
        push_once(&mut self.translation_failed_files, key);
    }

    /// `new` is `old` after recording that `name` was skipped.
    pub open spec fn skip_step(old: Self, new: Self, name: Seq<char>) -> bool {
        &&& texts(new.skipped_files@) == with_once(texts(old.skipped_files@), canonical_key(name))
        &&& new.total_files == old.total_files
        &&& new.buckets() == old.buckets()
        &&& new.restart_count == old.restart_count
        &&& new.file_attempts == old.file_attempts
        &&& new.translation_failed_files@ == old.translation_failed_files@
    }

    /// `new` is `old` after recording that the translation of `name` failed.
    pub open spec fn failure_step(old: Self, new: Self, name: Seq<char>) -> bool {
        &&& texts(new.translation_failed_files@) == with_once(texts(old.translation_failed_files@), canonical_key(name))
        &&& new.total_files == old.total_files
        &&& new.buckets() == old.buckets()
        &&& new.restart_count == old.restart_count
        &&& new.file_attempts == old.file_attempts
        &&& new.skipped_files@ == old.skipped_files@
    }

    /// Records how the processing of `file_name` ended: a completion with its
    /// totals, a skip, or a failed translation.
    pub fn record_file_result(&mut self, file_name: String, result: FileResult)
        requires
            old(self).well_formed(),
            result matches FileResult::Completed { attempts, had_restart, .. } ==> {
                &&& attempts >= 1
                &&& old(self).total_files < usize::MAX
                &&& old(self).buckets()[bucket(attempts)] < usize::MAX
                &&& had_restart ==> old(self).restart_count < usize::MAX
            },
        ensures
            final(self).well_formed(),
            match result {
                FileResult::Completed { attempts, had_restart, fix_attempts } => Self::completion_step(
                    *old(self),
                    *final(self),
                    file_name@,
                    attempts,
                    had_restart,
                    fix_attempts,
                ),
                FileResult::Skipped => Self::skip_step(*old(self), *final(self), file_name@),
                FileResult::TranslationFailed => Self::failure_step(*old(self), *final(self), file_name@),
            },
    {
        match result {
            FileResult::Completed { attempts, had_restart, fix_attempts } => {
                self.record_file_completion(file_name, attempts, had_restart, fix_attempts);
            },
            FileResult::Skipped => {
                self.record_file_skipped(file_name);
            },
            FileResult::TranslationFailed => {
                self.record_file_translation_failed(file_name);
            },
        }
    }

    /// `new` is `old` after clearing the history of `name`.
    pub open spec fn clear_step(old: Self, new: Self, name: Seq<char>) -> bool {
        let k = canonical_key(name);
        &&& new.well_formed()
        &&& texts(new.skipped_files@) == without(texts(old.skipped_files@), k)
        &&& texts(new.translation_failed_files@) == without(texts(old.translation_failed_files@), k)
        &&& new.file_attempts@ == old.file_attempts@.remove(k)
        &&& if old.file_attempts@.contains_key(k) {
            let p = old.file_attempts@[k];
            &&& new.total_files == dec(old.total_files)
            &&& new.buckets() == old.buckets().update(bucket(p.translation_attempts), dec(old.buckets()[bucket(p.translation_attempts)]))
            &&& new.restart_count == (if p.had_restart { dec(old.restart_count) } else { old.restart_count })
        } else {
            &&& new.total_files == old.total_files
            &&& new.buckets() == old.buckets()
            &&& new.restart_count == old.restart_count
        }
    }

    /// Forgets everything recorded about `file_name`, for a targeted rerun of that file.
    pub fn clear_target_history(&mut self, file_name: &str)
        requires
            old(self).well_formed(),
        ensures
            Self::clear_step(*old(self), *final(self), file_name@),
    {
        let key = canonicalize_stats_file_key(file_name);
        self.skipped_files = without_text(&self.skipped_files, key.as_str());
        self.translation_failed_files = without_text(&self.translation_failed_files, key.as_str());
        match self.file_attempts.remove(key.as_str()) {
            Some(previous) => {
                self.total_files = if self.total_files > 0 { self.total_files - 1 } else { 0 };
                let a = previous.translation_attempts;
                if a == 1 {
                    self.success_first_try = if self.success_first_try > 0 { self.success_first_try - 1 } else { 0 };
                } else if a == 2 {
                    self.success_retry_1 = if self.success_retry_1 > 0 { self.success_retry_1 - 1 } else { 0 };
                } else if a == 3 {
                    self.success_retry_2 = if self.success_retry_2 > 0 { self.success_retry_2 - 1 } else { 0 };
                } else {
                    self.success_retry_3_plus = if self.success_retry_3_plus > 0 { self.success_retry_3_plus - 1 } else { 0 };
                }
                if previous.had_restart {
                    self.restart_count = if self.restart_count > 0 { self.restart_count - 1 } else { 0 };
                }
                proof {
                    assert(self.buckets() =~= old(self).buckets().update(bucket(a), dec(old(self).buckets()[bucket(a)])));
                }
            },
            None => {},
        }
    }

    /// The names of all files with recorded attempts, each once.
    pub fn get_completed_files(&self) -> (r: Vec<String>)
        requires
            self.well_formed(),
        ensures
            r.len() == self.file_attempts@.len(),
            forall|k: Seq<char>| self.file_attempts@.contains_key(k) <==> exists|i: int| 0 <= i < r.len() && #[trigger] r@[i]@ == k,
            forall|i: int, j: int| 0 <= i < r.len() && 0 <= j < r.len() && i != j ==> #[trigger] r@[i]@ != #[trigger] r@[j]@,
    {
        self.file_attempts.keys()
    }
}

impl Default for TranslationStats {
    fn default() -> (s: Self)
        ensures
            s.well_formed(),
            s.total_files == 0,
            s.buckets() == seq![0usize, 0usize, 0usize, 0usize],
            s.restart_count == 0,
            s.file_attempts@ == Map::<Seq<char>, FileAttemptStat>::empty(),
            s.skipped_files@ == Seq::<String>::empty(),
            s.translation_failed_files@ == Seq::<String>::empty(),
    {
        TranslationStats::new()
    }
}

/// Appends `key` to `v` unless some element already holds its text.
pub fn push_once(v: &mut Vec<String>, key: String)
    ensures
        texts(final(v)@) == with_once(texts(old(v)@), key@),
        texts(old(v)@).no_duplicates() ==> texts(final(v)@).no_duplicates(),
{
    let present = contains_text(v, key.as_str());
    proof {
        if present {
            let i = choose|i: int| 0 <= i < v.len() && #[trigger] v@[i]@ == key@;
            assert(texts(v@)[i] == key@);
        } else {
            assert forall|i: int| 0 <= i < texts(v@).len() implies texts(v@)[i] != key@ by {
                assert(texts(v@)[i] == v@[i]@);
            }
        }
    }
    if !present {
        let ghost before = v@;
        v.push(key);
        proof {
            assert(texts(v@) =~= texts(before).push(key@));
        }
    }
}

} // verus!

verus! {

proof fn lemma_without_absent(s: Seq<Seq<char>>, k: Seq<char>)
    requires
        !s.contains(k),
    ensures
        without(s, k) == s,
    decreases s.len(),
{
    reveal(Seq::filter);
    if s.len() > 0 {
        assert(!s.drop_last().contains(k)) by {
            if s.drop_last().contains(k) {
                let i = choose|i: int| 0 <= i < s.drop_last().len() && s.drop_last()[i] == k;
                assert(s[i] == k);
            }
        }
        lemma_without_absent(s.drop_last(), k);
        assert(s.last() != k) by {
            assert(s[s.len() - 1] == s.last());
        }
        assert(s.drop_last().push(s.last()) =~= s);
    }
}

/// The total of translated files equals the sum of the four success counters, and
/// recording a completion keeps it so.
pub proof fn lemma_completion_keeps_total(s0: TranslationStats, s1: TranslationStats, name: Seq<char>, attempts: usize, had_restart: bool, fix_attempts: usize)
    requires
        TranslationStats::completion_step(s0, s1, name, attempts, had_restart, fix_attempts),
        s0.total_files == s0.success_first_try + s0.success_retry_1 + s0.success_retry_2 + s0.success_retry_3_plus,
    ensures
        s1.total_files == s1.success_first_try + s1.success_retry_1 + s1.success_retry_2 + s1.success_retry_3_plus,
{
    assert(s1.buckets()[0] == s1.success_first_try);
    assert(s1.buckets()[1] == s1.success_retry_1);
    assert(s1.buckets()[2] == s1.success_retry_2);
    assert(s1.buckets()[3] == s1.success_retry_3_plus);
}

/// Clearing the history of a file right after recording its completion gives back
/// the statistics from before, when the file had no history.
pub proof fn lemma_clear_undoes_completion(
    s0: TranslationStats,
    s1: TranslationStats,
    s2: TranslationStats,
    name: Seq<char>,
    attempts: usize,
    had_restart: bool,
    fix_attempts: usize,
)
    requires
        TranslationStats::completion_step(s0, s1, name, attempts, had_restart, fix_attempts),
        TranslationStats::clear_step(s1, s2, name),
        !s0.file_attempts@.contains_key(canonical_key(name)),
        !texts(s0.skipped_files@).contains(canonical_key(name)),
        !texts(s0.translation_failed_files@).contains(canonical_key(name)),
        s0.buckets()[bucket(attempts)] < usize::MAX,
    ensures
        s2.total_files == s0.total_files,
        s2.buckets() == s0.buckets(),
        s2.restart_count == s0.restart_count,
        s2.file_attempts@ == s0.file_attempts@,
        texts(s2.skipped_files@) == texts(s0.skipped_files@),
        texts(s2.translation_failed_files@) == texts(s0.translation_failed_files@),
{
    let k = canonical_key(name);
    assert(s1.file_attempts@.contains_key(k));
    assert(s1.file_attempts@[k].translation_attempts == attempts);
    assert(s2.file_attempts@ =~= s0.file_attempts@);
    let b = bucket(attempts);
    assert(s1.buckets()[b] == s0.buckets()[b] + 1);
    assert(dec(s1.buckets()[b]) == s0.buckets()[b]);
    assert(s2.buckets() =~= s0.buckets());
    lemma_without_absent(texts(s0.skipped_files@), k);
    lemma_without_absent(texts(s0.translation_failed_files@), k);
}

} // verus!

verus! {

/// Two statistics of one file merged: the larger translation count (then
/// fix count) wins, and a restart in either counts.
pub open spec fn merge_stat(a: FileAttemptStat, b: FileAttemptStat) -> FileAttemptStat {
    let take_b = b.translation_attempts > a.translation_attempts || (b.translation_attempts
        == a.translation_attempts && b.fix_attempts > a.fix_attempts);
    FileAttemptStat {
        translation_attempts: if take_b { b.translation_attempts } else { a.translation_attempts },
        fix_attempts: if take_b { b.fix_attempts } else { a.fix_attempts },
        had_restart: a.had_restart || b.had_restart,
    }
}

/// The first `n` entries of `m` under canonical names, entries that land on
/// one name merged.
pub open spec fn merged_upto(m: FileAttemptMap, n: int) -> Map<Seq<char>, FileAttemptStat>
    decreases n,
{
    if n <= 0 {
        Map::empty()
    } else {
        let acc = merged_upto(m, n - 1);
        let k = canonical_key(m.entry(n - 1).0);
        let st = m.entry(n - 1).1;
        if acc.contains_key(k) {
            acc.insert(k, merge_stat(acc[k], st))
        } else {
            acc.insert(k, st)
        }
    }
}

/// How many of the first `n` entries of `m` fall in success counter `b`.
pub open spec fn bucket_tally(m: FileAttemptMap, n: int, b: int) -> nat
    decreases n,
{
    if n <= 0 {
        0
    } else {
        bucket_tally(m, n - 1, b) + if bucket(m.entry(n - 1).1.translation_attempts) == b { 1nat } else { 0nat }
    }
}

/// How many of the first `n` entries of `m` had a restart.
pub open spec fn restart_tally(m: FileAttemptMap, n: int) -> nat
    decreases n,
{
    if n <= 0 {
        0
    } else {
        restart_tally(m, n - 1) + if m.entry(n - 1).1.had_restart { 1nat } else { 0nat }
    }
}

/// The names recorded once each under their canonical form, in order.
pub open spec fn recorded_once(names: Seq<Seq<char>>) -> Seq<Seq<char>>
    decreases names.len(),
{
    if names.len() == 0 {
        Seq::<Seq<char>>::empty()
    } else {
        with_once(recorded_once(names.drop_last()), canonical_key(names.last()))
    }
}

/// Every entry falls in exactly one success counter.
pub proof fn lemma_tallies_cover(m: FileAttemptMap, n: int)
    requires
        0 <= n,
    ensures
        bucket_tally(m, n, 0) + bucket_tally(m, n, 1) + bucket_tally(m, n, 2) + bucket_tally(m, n, 3) == n,
        restart_tally(m, n) <= n,
    decreases n,
{
    if n > 0 {
        lemma_tallies_cover(m, n - 1);
    }
}

impl FileAttemptMap {
    /// Whether `self` and `other` hold the same statistics under the same names.
    pub fn same_as(&self, other: &FileAttemptMap) -> (b: bool)
        requires
            self.well_formed(),
            other.well_formed(),
        ensures
            b == (self@ == other@),
    {
        let mut i: usize = 0;
        while i < self.entries.len()
            invariant
                self.well_formed(),
                other.well_formed(),
                i <= self.entries.len(),
                forall|j: int| 0 <= j < i ==> other@.contains_key(#[trigger] self.entries@[j].0@)
                    && other@[self.entries@[j].0@] == self.entries@[j].1,
            decreases self.entries.len() - i,
        {
            match other.get(self.entries[i].0.as_str()) {
                None => {
                    proof {
                        lemma_map_of_value(self.entries@, i as int);
                    }
                    return false;
                },
                Some(v) => {
                    if *v != self.entries[i].1 {
                        proof {
                            lemma_map_of_value(self.entries@, i as int);
                        }
                        return false;
                    }
                },
            }
            i = i + 1;
        }
        let mut j: usize = 0;
        while j < other.entries.len()
            invariant
                self.well_formed(),
                other.well_formed(),
                j <= other.entries.len(),
                forall|t: int| 0 <= t < j ==> self@.contains_key(#[trigger] other.entries@[t].0@),
            decreases other.entries.len() - j,
        {
            if !self.contains_key(other.entries[j].0.as_str()) {
                proof {
                    lemma_map_of_value(other.entries@, j as int);
                }
                return false;
            }
            j = j + 1;
        }
        proof {
            assert forall|k: Seq<char>| #[trigger] self@.dom().contains(k) == other@.dom().contains(k) by {
                lemma_map_of_key(self.entries@, k);
                lemma_map_of_key(other.entries@, k);
                if self@.contains_key(k) {
                    let t = choose|t: int| 0 <= t < self.entries@.len() && #[trigger] self.entries@[t].0@ == k;
                    assert(other@.contains_key(self.entries@[t].0@));
                }
                if other@.contains_key(k) {
                    let t = choose|t: int| 0 <= t < other.entries@.len() && #[trigger] other.entries@[t].0@ == k;
                    assert(self@.contains_key(other.entries@[t].0@));
                }
            }
            assert forall|k: Seq<char>| #[trigger] self@.contains_key(k) implies other@[k] == self@[k] by {
                lemma_map_of_key(self.entries@, k);
                let t = choose|t: int| 0 <= t < self.entries@.len() && #[trigger] self.entries@[t].0@ == k;
                lemma_map_of_value(self.entries@, t);
                assert(other@[self.entries@[t].0@] == self.entries@[t].1);
            }
            assert(self@.dom() =~= other@.dom());
            assert(self@ =~= other@);
        }
        true
    }
}

/// Whether the two lists hold the same texts in the same order.
pub fn same_texts(a: &Vec<String>, b: &Vec<String>) -> (r: bool)
    ensures
        r == (texts(a@) == texts(b@)),
{
    if a.len() != b.len() {
        proof {
            assert(texts(a@).len() != texts(b@).len());
        }
        return false;
    }
    let mut i: usize = 0;
    while i < a.len()
        invariant
            a.len() == b.len(),
            i <= a.len(),
            forall|j: int| 0 <= j < i ==> a@[j]@ == b@[j]@,
        decreases a.len() - i,
    {
        if !same_text(a[i].as_str(), b[i].as_str()) {
            proof {
                assert(texts(a@)[i as int] != texts(b@)[i as int]);
            }
            return false;
        }
        i = i + 1;
    }
    proof {
        assert(texts(a@) =~= texts(b@));
    }
    true
}

/// The names of `v` recorded once each under their canonical form.
fn canonical_once(v: &Vec<String>) -> (r: Vec<String>)
    ensures
        texts(r@) == recorded_once(texts(v@)),
{
    let mut r: Vec<String> = Vec::new();
    let mut i: usize = 0;
    proof {
        assert(texts(v@).take(0) =~= Seq::<Seq<char>>::empty());
    }
    while i < v.len()
        invariant
            i <= v.len(),
            texts(r@) == recorded_once(texts(v@).take(i as int)),
        decreases v.len() - i,
    {
        push_once(&mut r, canonicalize_stats_file_key(v[i].as_str()));
        proof {
            assert(texts(v@).take(i + 1).drop_last() =~= texts(v@).take(i as int));
            assert(texts(v@).take(i + 1).last() == v@[i as int]@);
        }
        i = i + 1;
    }
    proof {
        assert(texts(v@).take(v.len() as int) =~= texts(v@));
    }
    r
}

impl TranslationStats {
    /// Puts every recorded name under its canonical form: entries that land
    /// on one name are merged, the counters recomputed from the merged
    /// entries, the skipped and failed lists canonicalized with repeats
    /// dropped. Returns whether anything changed.
    #[verifier::rlimit(40)]
    pub fn normalize_file_keys(&mut self) -> (changed: bool)
        requires
            old(self).well_formed(),
        ensures
            final(self).well_formed(),
            final(self).file_attempts@ == merged_upto(old(self).file_attempts, old(self).file_attempts.entry_count() as int),
            final(self).total_files == final(self).file_attempts.entry_count(),
            final(self).file_attempts.entry_count() == final(self).file_attempts@.len(),
            forall|b: int| 0 <= b < 4 ==> #[trigger] final(self).buckets()[b] == bucket_tally(
                final(self).file_attempts,
                final(self).file_attempts.entry_count() as int,
                b,
            ),
            final(self).restart_count == restart_tally(final(self).file_attempts, final(self).file_attempts.entry_count() as int),
            texts(final(self).skipped_files@) == recorded_once(texts(old(self).skipped_files@)),
            texts(final(self).translation_failed_files@) == recorded_once(texts(old(self).translation_failed_files@)),
            changed == !(final(self).file_attempts@ == old(self).file_attempts@
                && final(self).total_files == old(self).total_files
                && final(self).buckets() == old(self).buckets()
                && final(self).restart_count == old(self).restart_count
                && texts(final(self).skipped_files@) == texts(old(self).skipped_files@)
                && texts(final(self).translation_failed_files@) == texts(old(self).translation_failed_files@)),
    {
        let ghost old_map = self.file_attempts;
        let mut merged = FileAttemptMap::new();
        let n = self.file_attempts.entries.len();
        let mut i: usize = 0;
        proof {
            assert(merged@ =~= merged_upto(old_map, 0));
        }
        while i < n
            invariant
                n == self.file_attempts.entries.len(),
                old_map == self.file_attempts,
                old_map.entry_count() == n,
                i <= n,
                merged.well_formed(),
                merged@ == merged_upto(old_map, i as int),
            decreases n - i,
        {
            let key = canonicalize_stats_file_key(self.file_attempts.entries[i].0.as_str());
            let st = self.file_attempts.entries[i].1;
            proof {
                assert(old_map.entry(i as int).0 == self.file_attempts.entries@[i as int].0@);
                assert(old_map.entry(i as int).1 == st);
            }
            let existing = match merged.get(key.as_str()) {
                Some(e) => Some(*e),
                None => None,
            };
            match existing {
                Some(ex) => {
                    let take_b = st.translation_attempts > ex.translation_attempts || (st.translation_attempts
                        == ex.translation_attempts && st.fix_attempts > ex.fix_attempts);
                    let m = FileAttemptStat {
                        translation_attempts: if take_b { st.translation_attempts } else { ex.translation_attempts },
                        fix_attempts: if take_b { st.fix_attempts } else { ex.fix_attempts },
                        had_restart: ex.had_restart || st.had_restart,
                    };
                    merged.insert(key, m);
                },
                None => {
                    merged.insert(key, st);
                },
            }
            i = i + 1;
        }
        let mut total: usize = 0;
        let mut b0: usize = 0;
        let mut b1: usize = 0;
        let mut b2: usize = 0;
        let mut b3: usize = 0;
        let mut restarts: usize = 0;
        let m = merged.entries.len();
        let mut k: usize = 0;
        while k < m
            invariant
                m == merged.entries.len(),
                k <= m,
                total == k,
                b0 == bucket_tally(merged, k as int, 0),
                b1 == bucket_tally(merged, k as int, 1),
                b2 == bucket_tally(merged, k as int, 2),
                b3 == bucket_tally(merged, k as int, 3),
                restarts == restart_tally(merged, k as int),
            decreases m - k,
        {
            proof {
                lemma_tallies_cover(merged, k as int);
            }
            let st = merged.entries[k].1;
            proof {
                assert(merged.entry(k as int).1 == st);
            }
            let a = st.translation_attempts;
            if a == 1 {
                b0 = b0 + 1;
            } else if a == 2 {
                b1 = b1 + 1;
            } else if a == 3 {
                b2 = b2 + 1;
            } else {
                b3 = b3 + 1;
            }
            if st.had_restart {
                restarts = restarts + 1;
            }
            total = total + 1;
            k = k + 1;
        }
        proof {
            lemma_map_of_len(merged.entries@);
        }
        let skipped = canonical_once(&self.skipped_files);
        let failed = canonical_once(&self.translation_failed_files);
        let same = merged.same_as(&self.file_attempts) && total == self.total_files && b0 == self.success_first_try
            && b1 == self.success_retry_1 && b2 == self.success_retry_2 && b3 == self.success_retry_3_plus
            && restarts == self.restart_count && same_texts(&skipped, &self.skipped_files) && same_texts(
            &failed,
            &self.translation_failed_files,
        );
        self.file_attempts = merged;
        self.total_files = total;
        self.success_first_try = b0;
        self.success_retry_1 = b1;
        self.success_retry_2 = b2;
        self.success_retry_3_plus = b3;
        self.restart_count = restarts;
        self.skipped_files = skipped;
        self.translation_failed_files = failed;
        proof {
            assert forall|b: int| 0 <= b < 4 implies #[trigger] self.buckets()[b] == bucket_tally(
                self.file_attempts,
                self.file_attempts.entry_count() as int,
                b,
            ) by {
                if b == 0 {
                } else if b == 1 {
                } else if b == 2 {
                } else {
                }
            }
            let nb = self.buckets();
            let ob = old(self).buckets();
            if same {
                assert(nb =~= ob);
            } else {
                if nb == ob {
                    assert(nb[0] == ob[0] && nb[1] == ob[1] && nb[2] == ob[2] && nb[3] == ob[3]);
                }
            }
        }
        !same
    }
}

/// After the names are put under their canonical form, the total of
/// translated files is the sum of the four success counters, and no more
/// files restarted than were translated.
pub proof fn lemma_normalized_counters_agree(s: TranslationStats)
    requires
        s.total_files == s.file_attempts.entry_count(),
        forall|b: int| 0 <= b < 4 ==> #[trigger] s.buckets()[b] == bucket_tally(
            s.file_attempts,
            s.file_attempts.entry_count() as int,
            b,
        ),
        s.restart_count == restart_tally(s.file_attempts, s.file_attempts.entry_count() as int),
    ensures
        s.total_files == s.success_first_try + s.success_retry_1 + s.success_retry_2 + s.success_retry_3_plus,
        s.restart_count <= s.total_files,
{
    lemma_tallies_cover(s.file_attempts, s.file_attempts.entry_count() as int);
    assert(s.buckets()[0] == s.success_first_try);
    assert(s.buckets()[1] == s.success_retry_1);
    assert(s.buckets()[2] == s.success_retry_2);
    assert(s.buckets()[3] == s.success_retry_3_plus);
}

/// The canonical names among `names` that a reconciliation records as new
/// first-try successes: those not yet known as translated, skipped or failed,
/// each once, in order.
pub open spec fn newly_found(
    attempts: Map<Seq<char>, FileAttemptStat>,
    skipped: Seq<Seq<char>>,
    failed: Seq<Seq<char>>,
    names: Seq<Seq<char>>,
) -> Seq<Seq<char>>
    decreases names.len(),
{
    if names.len() == 0 {
        Seq::<Seq<char>>::empty()
    } else {
        let prev = newly_found(attempts, skipped, failed, names.drop_last());
        let k = canonical_key(names.last());
        if attempts.contains_key(k) || prev.contains(k) || skipped.contains(k) || failed.contains(k) {
            prev
        } else {
            prev.push(k)
        }
    }
}

/// The statistics map with each of `ks` added as a first-try success.
pub open spec fn with_first_tries(m: Map<Seq<char>, FileAttemptStat>, ks: Seq<Seq<char>>) -> Map<Seq<char>, FileAttemptStat>
    decreases ks.len(),
{
    if ks.len() == 0 {
        m
    } else {
        with_first_tries(m, ks.drop_last()).insert(
            ks.last(),
            FileAttemptStat { translation_attempts: 1, fix_attempts: 0, had_restart: false },
        )
    }
}

proof fn lemma_with_first_tries_keys(m: Map<Seq<char>, FileAttemptStat>, ks: Seq<Seq<char>>, k: Seq<char>)
    ensures
        with_first_tries(m, ks).contains_key(k) <==> (m.contains_key(k) || ks.contains(k)),
    decreases ks.len(),
{
    if ks.len() > 0 {
        lemma_with_first_tries_keys(m, ks.drop_last(), k);
        if ks.drop_last().contains(k) {
            let i = choose|i: int| 0 <= i < ks.drop_last().len() && ks.drop_last()[i] == k;
            assert(ks[i] == k);
        }
        if ks.contains(k) && ks.last() != k {
            let i = choose|i: int| 0 <= i < ks.len() && ks[i] == k;
            assert(i < ks.len() - 1);
            assert(ks.drop_last()[i] == k);
        }
        if ks.last() == k {
            assert(ks[ks.len() - 1] == k);
        }
    }
}

impl TranslationStats {
    /// Records as first-try successes the translated files found in the
    /// workspace (their paths relative to the crate) that the statistics do
    /// not know yet as translated, skipped or failed. Returns whether any was added.
    pub fn reconcile_with_discovered(&mut self, discovered: &Vec<String>) -> (changed: bool)
        requires
            old(self).well_formed(),
            old(self).total_files + discovered.len() <= usize::MAX,
            old(self).success_first_try + discovered.len() <= usize::MAX,
        ensures
            ({
                let added = newly_found(
                    old(self).file_attempts@,
                    texts(old(self).skipped_files@),
                    texts(old(self).translation_failed_files@),
                    texts(discovered@),
                );
                &&& final(self).well_formed()
                &&& final(self).file_attempts@ == with_first_tries(old(self).file_attempts@, added)
                &&& final(self).total_files == old(self).total_files + added.len()
                &&& final(self).success_first_try == old(self).success_first_try + added.len()
                &&& final(self).success_retry_1 == old(self).success_retry_1
                &&& final(self).success_retry_2 == old(self).success_retry_2
                &&& final(self).success_retry_3_plus == old(self).success_retry_3_plus
                &&& final(self).restart_count == old(self).restart_count
                &&& final(self).skipped_files@ == old(self).skipped_files@
                &&& final(self).translation_failed_files@ == old(self).translation_failed_files@
                &&& changed == (added.len() > 0)
            }),
            forall|k: Seq<char>|
                texts(old(self).translation_failed_files@).contains(k) || texts(old(self).skipped_files@).contains(k)
                    ==> (#[trigger] final(self).file_attempts@.contains_key(k) == old(self).file_attempts@.contains_key(k)),
            forall|k: Seq<char>| #[trigger] final(self).file_attempts@.contains_key(k) && !old(self).file_attempts@.contains_key(k)
                ==> final(self).file_attempts@[k] == (FileAttemptStat { translation_attempts: 1, fix_attempts: 0, had_restart: false }),
            (forall|i: int| 0 <= i < discovered.len() ==> ({
                let k = canonical_key(#[trigger] discovered@[i]@);
                old(self).file_attempts@.contains_key(k) || texts(old(self).skipped_files@).contains(k)
                    || texts(old(self).translation_failed_files@).contains(k)
            })) ==> {
                &&& !changed
                &&& final(self).file_attempts@ == old(self).file_attempts@
                &&& final(self).total_files == old(self).total_files
                &&& final(self).success_first_try == old(self).success_first_try
            },
    {
        let ghost a0 = self.file_attempts@;
        let ghost sk = texts(self.skipped_files@);
        let ghost fl = texts(self.translation_failed_files@);
        let ghost names = texts(discovered@);
        let mut changed = false;
        let mut i: usize = 0;
        proof {
            assert(names.take(0) =~= Seq::<Seq<char>>::empty());
        }
        while i < discovered.len()
            invariant
                i <= discovered.len(),
                names == texts(discovered@),
                self.well_formed(),
                sk == texts(self.skipped_files@),
                fl == texts(self.translation_failed_files@),
                self.skipped_files@ == old(self).skipped_files@,
                self.translation_failed_files@ == old(self).translation_failed_files@,
                a0 == old(self).file_attempts@,
                old(self).total_files + discovered.len() <= usize::MAX,
                old(self).success_first_try + discovered.len() <= usize::MAX,
                newly_found(a0, sk, fl, names.take(i as int)).len() <= i,
                self.file_attempts@ == with_first_tries(a0, newly_found(a0, sk, fl, names.take(i as int))),
                self.total_files == old(self).total_files + newly_found(a0, sk, fl, names.take(i as int)).len(),
                self.success_first_try == old(self).success_first_try + newly_found(a0, sk, fl, names.take(i as int)).len(),
                self.success_retry_1 == old(self).success_retry_1,
                self.success_retry_2 == old(self).success_retry_2,
                self.success_retry_3_plus == old(self).success_retry_3_plus,
                self.restart_count == old(self).restart_count,
                changed == (newly_found(a0, sk, fl, names.take(i as int)).len() > 0),
            decreases discovered.len() - i,
        {
            let ghost prev = newly_found(a0, sk, fl, names.take(i as int));
            let key = canonicalize_stats_file_key(discovered[i].as_str());
            proof {
                assert(names.take(i + 1).drop_last() =~= names.take(i as int));
                assert(names.take(i + 1).last() == discovered@[i as int]@);
                lemma_with_first_tries_keys(a0, prev, key@);
            }
            let known = self.file_attempts.contains_key(key.as_str()) || contains_text(&self.skipped_files, key.as_str())
                || contains_text(&self.translation_failed_files, key.as_str());
            proof {
                if contains_text_spec(self.skipped_files@, key@) {
                    let j = choose|j: int| 0 <= j < self.skipped_files.len() && #[trigger] self.skipped_files@[j]@ == key@;
                    assert(sk[j] == key@);
                }
                if sk.contains(key@) {
                    let j = choose|j: int| 0 <= j < sk.len() && sk[j] == key@;
                    assert(self.skipped_files@[j]@ == key@);
                }
                if contains_text_spec(self.translation_failed_files@, key@) {
                    let j = choose|j: int| 0 <= j < self.translation_failed_files.len() && #[trigger] self.translation_failed_files@[j]@ == key@;
                    assert(fl[j] == key@);
                }
                if fl.contains(key@) {
                    let j = choose|j: int| 0 <= j < fl.len() && fl[j] == key@;
                    assert(self.translation_failed_files@[j]@ == key@);
                }
            }
            if !known {
                self.record_file_completion(key, 1, false, 0);
                changed = true;
                proof {
                    assert(bucket(1) == 0);
                    assert(canonical_key(key@) == key@) by {
                        lemma_canonical_idempotent(discovered@[i as int]@);
                    }
                    assert(prev.push(key@).drop_last() =~= prev);
                    assert(newly_found(a0, sk, fl, names.take(i + 1)) == prev.push(key@));
                }
            }
            i = i + 1;
        }
        proof {
            assert(names.take(discovered.len() as int) =~= names);
            let added = newly_found(a0, sk, fl, names);
            lemma_newly_found_unknown(a0, sk, fl, names);
            assert forall|k: Seq<char>| fl.contains(k) || sk.contains(k) implies #[trigger] self.file_attempts@.contains_key(k)
                == a0.contains_key(k) by {
                lemma_with_first_tries_keys(a0, added, k);
            }
            assert forall|k: Seq<char>| #[trigger] self.file_attempts@.contains_key(k) && !a0.contains_key(k) implies self.file_attempts@[k]
                == (FileAttemptStat { translation_attempts: 1, fix_attempts: 0, had_restart: false }) by {
                lemma_with_first_tries_new(a0, added, k);
            }
            if forall|i: int| 0 <= i < discovered.len() ==> ({
                let k = canonical_key(#[trigger] discovered@[i]@);
                a0.contains_key(k) || sk.contains(k) || fl.contains(k)
            }) {
                assert forall|i: int| 0 <= i < names.len() implies ({
                    let k = canonical_key(#[trigger] names[i]);
                    a0.contains_key(k) || sk.contains(k) || fl.contains(k)
                }) by {
                    assert(names[i] == discovered@[i]@);
                }
                lemma_newly_found_none(a0, sk, fl, names);
                assert(added =~= Seq::<Seq<char>>::empty());
            }
        }
        changed
    }
}

/// What a reconciliation adds was known neither as translated, nor as skipped, nor as failed.
proof fn lemma_newly_found_unknown(
    attempts: Map<Seq<char>, FileAttemptStat>,
    skipped: Seq<Seq<char>>,
    failed: Seq<Seq<char>>,
    names: Seq<Seq<char>>,
)
    ensures
        forall|k: Seq<char>| #[trigger] newly_found(attempts, skipped, failed, names).contains(k) ==> !attempts.contains_key(k)
            && !skipped.contains(k) && !failed.contains(k),
    decreases names.len(),
{
    if names.len() > 0 {
        let prev = newly_found(attempts, skipped, failed, names.drop_last());
        lemma_newly_found_unknown(attempts, skipped, failed, names.drop_last());
        let nk = canonical_key(names.last());
        assert forall|k: Seq<char>| #[trigger] newly_found(attempts, skipped, failed, names).contains(k) implies !attempts.contains_key(k)
            && !skipped.contains(k) && !failed.contains(k) by {
            let cur = newly_found(attempts, skipped, failed, names);
            let i = choose|i: int| 0 <= i < cur.len() && cur[i] == k;
            if cur != prev {
                assert(cur == prev.push(nk));
                if i < prev.len() {
                    assert(prev[i] == k);
                    assert(prev.contains(k));
                }
            } else {
                assert(prev[i] == k);
                assert(prev.contains(k));
            }
        }
    }
}

/// Where every name is already known, a reconciliation adds nothing.
proof fn lemma_newly_found_none(
    attempts: Map<Seq<char>, FileAttemptStat>,
    skipped: Seq<Seq<char>>,
    failed: Seq<Seq<char>>,
    names: Seq<Seq<char>>,
)
    requires
        forall|i: int| 0 <= i < names.len() ==> ({
            let k = canonical_key(#[trigger] names[i]);
            attempts.contains_key(k) || skipped.contains(k) || failed.contains(k)
        }),
    ensures
        newly_found(attempts, skipped, failed, names).len() == 0,
    decreases names.len(),
{
    if names.len() > 0 {
        assert forall|i: int| 0 <= i < names.drop_last().len() implies ({
            let k = canonical_key(#[trigger] names.drop_last()[i]);
            attempts.contains_key(k) || skipped.contains(k) || failed.contains(k)
        }) by {
            assert(names.drop_last()[i] == names[i]);
        }
        lemma_newly_found_none(attempts, skipped, failed, names.drop_last());
        assert(names[names.len() - 1] == names.last());
    }
}

proof fn lemma_with_first_tries_new(m: Map<Seq<char>, FileAttemptStat>, ks: Seq<Seq<char>>, k: Seq<char>)
    requires
        with_first_tries(m, ks).contains_key(k),
        !m.contains_key(k),
    ensures
        with_first_tries(m, ks)[k] == (FileAttemptStat { translation_attempts: 1, fix_attempts: 0, had_restart: false }),
    decreases ks.len(),
{
    if ks.len() > 0 && ks.last() != k {
        lemma_with_first_tries_new(m, ks.drop_last(), k);
    }
}

/// Whether some element of `v` holds the text `t`.
pub open spec fn contains_text_spec(v: Seq<String>, t: Seq<char>) -> bool {
    exists|i: int| 0 <= i < v.len() && #[trigger] v[i]@ == t
}

/// No character of `s` is a backslash.
pub open spec fn no_backslash(s: Seq<char>) -> bool {
    forall|i: int| 0 <= i < s.len() ==> #[trigger] s[i] != '\\'
}

proof fn lemma_strip_dot_slash_keeps(s: Seq<char>)
    requires
        no_backslash(s),
    ensures
        no_backslash(strip_dot_slash(s)),
    decreases s.len(),
{
    if s.len() >= 2 && s[0] == '.' && s[1] == '/' {
        assert forall|i: int| 0 <= i < s.skip(2).len() implies #[trigger] s.skip(2)[i] != '\\' by {
            assert(s.skip(2)[i] == s[i + 2]);
        }
        lemma_strip_dot_slash_keeps(s.skip(2));
    }
}

proof fn lemma_strip_lead_keeps(s: Seq<char>, f: spec_fn(char) -> bool)
    requires
        no_backslash(s),
    ensures
        no_backslash(strip_lead(s, f)),
    decreases s.len(),
{
    if s.len() > 0 && f(s[0]) {
        assert forall|i: int| 0 <= i < s.drop_first().len() implies #[trigger] s.drop_first()[i] != '\\' by {
            assert(s.drop_first()[i] == s[i + 1]);
        }
        lemma_strip_lead_keeps(s.drop_first(), f);
    }
}

/// A canonical key is its own canonical key.
pub proof fn lemma_canonical_idempotent(name: Seq<char>)
    ensures
        canonical_key(canonical_key(name)) == canonical_key(name),
{
    let sl = slashes(name);
    assert(no_backslash(sl));
    lemma_strip_dot_slash_keeps(sl);
    lemma_strip_lead_keeps(strip_dot_slash(sl), char_pred('/'));
    let t = strip_lead(strip_dot_slash(sl), char_pred('/'));
    let o = canonical_key(name);
    assert(no_backslash(o)) by {
        if t.len() == 0 {
        } else if seq!['s', 'r', 'c', '/'].is_prefix_of(t) || t == seq!['s', 'r', 'c'] {
        } else {
            assert forall|i: int| 0 <= i < o.len() implies #[trigger] o[i] != '\\' by {
                if i >= 4 {
                    assert(o[i] == t[i - 4]);
                }
            }
        }
    }
    assert(slashes(o) =~= o);
    assert(o.len() >= 3 && o[0] == 's' && o[1] == 'r' && o[2] == 'c') by {
        if t.len() > 0 && seq!['s', 'r', 'c', '/'].is_prefix_of(t) {
            assert(t[0] == seq!['s', 'r', 'c', '/'][0]);
            assert(t[1] == seq!['s', 'r', 'c', '/'][1]);
            assert(t[2] == seq!['s', 'r', 'c', '/'][2]);
        }
    }
    assert(strip_dot_slash(o) == o);
    assert(strip_lead(o, char_pred('/')) == o);
    assert(seq!['s', 'r', 'c', '/'].is_prefix_of(o) || o == seq!['s', 'r', 'c']) by {
        if t.len() == 0 {
            assert(o =~= seq!['s', 'r', 'c']);
        } else if seq!['s', 'r', 'c', '/'].is_prefix_of(t) || t == seq!['s', 'r', 'c'] {
        } else {
            assert(o.take(4) =~= seq!['s', 'r', 'c', '/']);
        }
    }
}

} // verus!

verus! {

/// `a` ranks at least as high as `b` in the summary: more translation
/// attempts first, then more fix attempts.
pub open spec fn ranks_at_least(a: FileAttemptStat, b: FileAttemptStat) -> bool {
    a.translation_attempts > b.translation_attempts || (a.translation_attempts == b.translation_attempts
        && a.fix_attempts >= b.fix_attempts)
}

/// Retries over the first `n` entries: each file's translation attempts beyond the first.
pub open spec fn retries_tally(m: FileAttemptMap, n: int) -> nat
    decreases n,
{
    if n <= 0 {
        0
    } else {
        retries_tally(m, n - 1) + if m.entry(n - 1).1.translation_attempts > 0 {
            (m.entry(n - 1).1.translation_attempts - 1) as nat
        } else {
            0nat
        }
    }
}

impl FileAttemptMap {
    /// The total number of retries (attempts beyond the first), not above `usize::MAX`.
    pub fn total_retries(&self) -> (r: usize)
        ensures
            r == if retries_tally(*self, self.entry_count() as int) > usize::MAX {
                usize::MAX as nat
            } else {
                retries_tally(*self, self.entry_count() as int)
            },
    {
        let mut sum: usize = 0;
        let mut i: usize = 0;
        while i < self.entries.len()
            invariant
                i <= self.entries.len(),
                sum == if retries_tally(*self, i as int) > usize::MAX {
                    usize::MAX as nat
                } else {
                    retries_tally(*self, i as int)
                },
            decreases self.entries.len() - i,
        {
            let t = self.entries[i].1.translation_attempts;
            proof {
                assert(self.entry(i as int).1.translation_attempts == t);
            }
            let extra: usize = if t > 0 { t - 1 } else { 0 };
            sum = sum.saturating_add(extra);
            i = i + 1;
        }
        sum
    }

    /// The `limit` highest-ranked files (see [`ranks_at_least`]), best first;
    /// among equally ranked files, the one stored first comes first.
    pub fn ranked(&self, limit: usize) -> (r: Vec<(String, FileAttemptStat)>)
        requires
            self.well_formed(),
        ensures
            r.len() == if limit < self@.len() { limit as nat } else { self@.len() },
            forall|i: int| 0 <= i < r.len() ==> self@.contains_key(#[trigger] r@[i].0@) && self@[r@[i].0@] == r@[i].1,
            forall|i: int, j: int| 0 <= i < j < r.len() ==> r@[i].0@ != r@[j].0@ && ranks_at_least(
                #[trigger] r@[i].1,
                #[trigger] r@[j].1,
            ),
            r.len() > 0 ==> forall|k: Seq<char>| #[trigger] self@.contains_key(k) && (forall|i: int| 0 <= i < r.len() ==> r@[i].0@ != k)
                ==> ranks_at_least(r@[r.len() - 1].1, self@[k]),
            forall|i: int, j: int| 0 <= i < j < r.len() ==> (#[trigger] r@[i].1).translation_attempts >= (#[trigger] r@[j].1).translation_attempts
                && (r@[i].1.translation_attempts == r@[j].1.translation_attempts ==> r@[i].1.fix_attempts >= r@[j].1.fix_attempts),
            r.len() > 0 ==> forall|k: Seq<char>| #[trigger] self@.contains_key(k) ==> r@[0].1.translation_attempts
                >= self@[k].translation_attempts,
    {
        let n = self.entries.len();
        proof {
            lemma_map_of_len(self.entries@);
        }
        let goal: usize = if limit < n { limit } else { n };
        let mut used: Vec<bool> = Vec::new();
        let mut z: usize = 0;
        while z < n
            invariant
                z <= n,
                n == self.entries.len(),
                used.len() == z,
                forall|j: int| 0 <= j < z ==> !#[trigger] used@[j],
            decreases n - z,
        {
            used.push(false);
            z = z + 1;
        }
        let mut r: Vec<(String, FileAttemptStat)> = Vec::new();
        let ghost mut picked: Seq<int> = Seq::empty();
        while r.len() < goal
            invariant
                self.well_formed(),
                n == self.entries.len(),
                goal <= n,
                used.len() == n,
                r.len() <= goal,
                picked.len() == r.len(),
                forall|i: int| 0 <= i < picked.len() ==> 0 <= #[trigger] picked[i] < n && used@[picked[i]]
                    && r@[i].0@ == self.entries@[picked[i]].0@ && r@[i].1 == self.entries@[picked[i]].1,
                forall|j: int| 0 <= j < n && #[trigger] used@[j] ==> exists|i: int| 0 <= i < picked.len() && picked[i] == j,
                forall|a: int, b: int| 0 <= a < b < picked.len() ==> #[trigger] picked[a] != #[trigger] picked[b],
                forall|a: int, b: int| 0 <= a < b < r.len() ==> ranks_at_least(#[trigger] r@[a].1, #[trigger] r@[b].1),
                r.len() > 0 ==> forall|j: int| 0 <= j < n && !#[trigger] used@[j] ==> ranks_at_least(
                    r@[r.len() - 1].1,
                    self.entries@[j].1,
                ),
            decreases goal - r.len(),
        {
            let mut best: usize = n;
            let mut j: usize = 0;
            while j < n
                invariant
                    n == self.entries.len(),
                    used.len() == n,
                    j <= n,
                    best == n || (best < j && !used@[best as int]),
                    best == n ==> forall|t: int| 0 <= t < j ==> #[trigger] used@[t],
                    best < n ==> forall|t: int| 0 <= t < j && !#[trigger] used@[t] ==> ranks_at_least(
                        self.entries@[best as int].1,
                        self.entries@[t].1,
                    ),
                decreases n - j,
            {
                if !used[j] {
                    if best == n {
                        best = j;
                    } else {
                        let a = self.entries[best].1;
                        let b = self.entries[j].1;
                        if b.translation_attempts > a.translation_attempts || (b.translation_attempts
                            == a.translation_attempts && b.fix_attempts > a.fix_attempts) {
                            best = j;
                        }
                    }
                }
                j = j + 1;
            }
            proof {
                if best == n {
                    assert forall|t: int| 0 <= t < n implies #[trigger] used@[t] by {}
                    assert(picked.len() < n);
                    assert(false) by {
                        lemma_picked_cover(picked, used@, n as int);
                    }
                }
            }
            let ghost old_r = r@;
            let ghost old_picked = picked;
            let ghost old_used = used@;
            r.push((copy_string(&self.entries[best].0), self.entries[best].1));
            used.set(best, true);
            proof {
                picked = picked.push(best as int);
                assert forall|i: int| 0 <= i < picked.len() implies 0 <= #[trigger] picked[i] < n && used@[picked[i]]
                    && r@[i].0@ == self.entries@[picked[i]].0@ && r@[i].1 == self.entries@[picked[i]].1 by {
                    if i < old_picked.len() {
                        assert(picked[i] == old_picked[i]);
                        assert(r@[i] == old_r[i]);
                    }
                }
                assert forall|jj: int| 0 <= jj < n && #[trigger] used@[jj] implies exists|i: int| 0 <= i < picked.len() && picked[i] == jj by {
                    if jj == best as int {
                        assert(picked[picked.len() - 1] == jj);
                    } else {
                        let i = choose|i: int| 0 <= i < old_picked.len() && old_picked[i] == jj;
                        assert(picked[i] == jj);
                    }
                }
                assert forall|a: int, b: int| 0 <= a < b < picked.len() implies #[trigger] picked[a] != #[trigger] picked[b] by {
                    if b == picked.len() - 1 {
                        assert(old_used[old_picked[a]]);
                        assert(!old_used[best as int]);
                        assert(picked[a] == old_picked[a]);
                    } else {
                        assert(picked[a] == old_picked[a] && picked[b] == old_picked[b]);
                    }
                }
                assert forall|a: int, b: int| 0 <= a < b < r.len() implies ranks_at_least(#[trigger] r@[a].1, #[trigger] r@[b].1) by {
                    if b == r.len() - 1 && a < old_r.len() {
                        assert(r@[a] == old_r[a]);
                        if a < old_r.len() - 1 {
                            assert(ranks_at_least(old_r[a].1, old_r[old_r.len() - 1].1));
                        }
                    } else if b < r.len() - 1 {
                        assert(r@[a] == old_r[a] && r@[b] == old_r[b]);
                    }
                }
            }
        }
        proof {
            assert forall|i: int| 0 <= i < r.len() implies self@.contains_key(#[trigger] r@[i].0@) && self@[r@[i].0@] == r@[i].1 by {
                lemma_map_of_value(self.entries@, picked[i]);
            }
            assert forall|i: int, j: int| 0 <= i < j < r.len() implies r@[i].0@ != r@[j].0@ && ranks_at_least(
                #[trigger] r@[i].1,
                #[trigger] r@[j].1,
            ) by {
                assert(picked[i] != picked[j]);
            }
            if r.len() > 0 {
                assert forall|k: Seq<char>| #[trigger] self@.contains_key(k) && (forall|i: int| 0 <= i < r.len() ==> r@[i].0@ != k)
                    implies ranks_at_least(r@[r.len() - 1].1, self@[k]) by {
                    lemma_map_of_key(self.entries@, k);
                    let j = choose|j: int| 0 <= j < self.entries@.len() && #[trigger] self.entries@[j].0@ == k;
                    lemma_map_of_value(self.entries@, j);
                    if used@[j] {
                        let i = choose|i: int| 0 <= i < picked.len() && picked[i] == j;
                        assert(r@[i].0@ == k);
                    }
                }
                assert forall|k: Seq<char>| #[trigger] self@.contains_key(k) implies r@[0].1.translation_attempts
                    >= self@[k].translation_attempts by {
                    if exists|i: int| 0 <= i < r.len() && r@[i].0@ == k {
                        let i = choose|i: int| 0 <= i < r.len() && r@[i].0@ == k;
                        assert(self@[r@[i].0@] == r@[i].1);
                        if i > 0 {
                            assert(ranks_at_least(r@[0].1, r@[i].1));
                        }
                    } else {
                        assert(ranks_at_least(r@[r.len() - 1].1, self@[k]));
                        if r.len() > 1 {
                            assert(ranks_at_least(r@[0].1, r@[r.len() - 1].1));
                        }
                    }
                }
            }
            assert forall|i: int, j: int| 0 <= i < j < r.len() implies (#[trigger] r@[i].1).translation_attempts
                >= (#[trigger] r@[j].1).translation_attempts && (r@[i].1.translation_attempts == r@[j].1.translation_attempts
                ==> r@[i].1.fix_attempts >= r@[j].1.fix_attempts) by {
                assert(ranks_at_least(r@[i].1, r@[j].1));
            }
        }
        r
    }
}

proof fn lemma_picked_cover(picked: Seq<int>, used: Seq<bool>, n: int)
    requires
        used.len() == n,
        forall|t: int| 0 <= t < n ==> #[trigger] used[t],
        forall|j: int| 0 <= j < n && #[trigger] used[j] ==> exists|i: int| 0 <= i < picked.len() && picked[i] == j,
        forall|a: int, b: int| 0 <= a < b < picked.len() ==> #[trigger] picked[a] != #[trigger] picked[b],
        forall|i: int| 0 <= i < picked.len() ==> 0 <= #[trigger] picked[i] < n,
    ensures
        picked.len() >= n,
{
    let s = picked.to_set();
    assert forall|j: int| 0 <= j < n implies s.contains(j) by {
        assert(used[j]);
        let i = choose|i: int| 0 <= i < picked.len() && picked[i] == j;
        assert(picked[i] == j);
    }
    let full = Set::new(|j: int| 0 <= j < n);
    assert(full.subset_of(s));
    vstd::set_lib::lemma_int_range(0, n);
    assert(full =~= vstd::set_lib::set_int_range(0, n));
    picked.unique_seq_to_set();
    vstd::set_lib::lemma_len_subset(full, s);
}

impl TranslationStats {
    /// The statistics file of `feature` under the project root:
    /// `<root>/.c2rust/<feature>/translation_stats.json`; refused for a
    /// feature name that is not a plain directory name.
    pub fn get_stats_file_path(project_root: &str, feature: &str) -> (r: Result<String, crate::util::FeatureNameError>)
        ensures
            match r {
                Ok(p) => crate::util::valid_feature_name(feature@) && p@ == crate::paths::join_path(
                    crate::paths::join_path(crate::paths::join_path(project_root@, ".c2rust"@), feature@),
                    "translation_stats.json"@,
                ),
                Err(e) => !crate::util::valid_feature_name(feature@) && e.feature@ == feature@,
            },
    {
        crate::paths::stats_file_path(project_root, feature)
    }
}

} // verus!
