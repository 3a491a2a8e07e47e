//! The `[feature.section]` / `key = "value"` configuration text that the
//! `c2rust-config` tool reads and edits.

use vstd::prelude::*;
use crate::text::{
    char_pred, first_match, lemma_find_char, lemma_first_match_stable, lemma_find_char_none, lemma_find_first,
    lemma_strip_lead_at, lemma_strip_trail_at, matches_at, ws_pred,
    chars_of, concat_chars, find, find_in, has_char, lemma_find_char_facts, lemma_find_spec, owned,
    push_char, push_range, push_str_chars, string_of_range, trim, trim_bounds, trim_char,
    trim_char_bounds,
};

verus! {

/// Why a configuration lookup or update was refused.
pub enum ConfigError {
    /// The key is not of the form `section.key`.
    InvalidKeyFormat,
    /// No value is stored under the key for the feature.
    KeyNotFound { key: String, feature: String },
}

impl ConfigError {
    /// The text of the error, as the tool reports it.
    pub fn message(&self) -> (s: String)
        ensures
            s@ == match self {
                ConfigError::InvalidKeyFormat => "Key must be in format 'section.key'"@,
                ConfigError::KeyNotFound { key, feature } => "Key '"@ + key@ + "' not found in feature '"@ + feature@
                    + "'"@,
            },
    {
        match self {
            ConfigError::InvalidKeyFormat => owned("Key must be in format 'section.key'"),
            ConfigError::KeyNotFound { key, feature } => {
                let mut s = owned("Key '");
                push_str_chars(&mut s, key.as_str());
                push_str_chars(&mut s, "' not found in feature '");
                push_str_chars(&mut s, feature.as_str());
                push_str_chars(&mut s, "'");
                s
            },
        }
    }
}

/// `key` split at its only `.` into (section, name); `None` unless it holds exactly one `.`.
pub open spec fn split_key(key: Seq<char>) -> Option<(Seq<char>, Seq<char>)> {
    match find(key, seq!['.']) {
        None => None,
        Some(i) => if key.skip(i + 1).contains('.') {
            None
        } else {
            Some((key.take(i), key.skip(i + 1)))
        },
    }
}

/// The section header `[feature.section]`.
pub open spec fn header(feature: Seq<char>, section: Seq<char>) -> Seq<char> {
    seq!['['] + feature + seq!['.'] + section + seq![']']
}

/// The text that starts the line of `name`: `name = `.
pub open spec fn key_pat(name: Seq<char>) -> Seq<char> {
    name + seq![' ', '=', ' ']
}

/// The line that stores `value` under `name`: `name = "value"`.
pub open spec fn key_line(name: Seq<char>, value: Seq<char>) -> Seq<char> {
    name + seq![' ', '=', ' ', '"'] + value + seq!['"']
}

/// Where the section that starts at `ss` ends: at the next `[`, or at the end of `c`.
pub open spec fn section_end(c: Seq<char>, ss: int) -> int {
    match find(c.subrange(ss + 1, c.len() as int), seq!['[']) {
        Some(i) => ss + 1 + i,
        None => c.len() as int,
    }
}

/// Where the line that contains position `from` ends: at the next newline, or at `dflt`.
pub open spec fn line_end(c: Seq<char>, from: int, dflt: int) -> int {
    match find(c.subrange(from, c.len() as int), seq!['\n']) {
        Some(i) => from + i,
        None => dflt,
    }
}

/// The value stored under `name` in section `section` of `feature`, if any.
pub open spec fn lookup(c: Seq<char>, feature: Seq<char>, section: Seq<char>, name: Seq<char>) -> Option<Seq<char>> {
    match find(c, header(feature, section)) {
        None => None,
        Some(ss) => {
            let se = section_end(c, ss);
            match find(c.subrange(ss, se), key_pat(name)) {
                None => None,
                Some(ks) => {
                    let vs = ss + ks + key_pat(name).len();
                    let ve = line_end(c, vs, c.len() as int);
                    Some(trim_char(trim_char(trim(c.subrange(vs, ve)), '"'), '\''))
                },
            }
        },
    }
}

/// `c` with a newline appended unless it is empty or already ends with one.
pub open spec fn with_final_newline(c: Seq<char>) -> Seq<char> {
    if c.len() > 0 && c.last() != '\n' {
        c.push('\n')
    } else {
        c
    }
}

/// `c` after storing `value` under `name` in section `section` of `feature`.
pub open spec fn store(c: Seq<char>, feature: Seq<char>, section: Seq<char>, name: Seq<char>, value: Seq<char>) -> Seq<char> {
    let n = c.len() as int;
    let kl = key_line(name, value);
    match find(c, header(feature, section)) {
        None => with_final_newline(c) + header(feature, section) + seq!['\n'] + kl + seq!['\n'],
        Some(ss) => {
            let se = section_end(c, ss);
            match find(c.subrange(ss, se), key_pat(name)) {
                Some(ks) => {
                    let kls = ss + ks;
                    c.take(kls) + kl + c.skip(line_end(c, kls, se))
                },
                None => if se < n {
                    c.take(se) + kl + seq!['\n'] + c.skip(se)
                } else {
                    with_final_newline(c) + kl + seq!['\n']
                },
            }
        },
    }
}

/// The characters of `[feature.section]`.
fn header_chars(feature: &Vec<char>, section: &Vec<char>) -> (r: Vec<char>)
    ensures
        r@ == header(feature@, section@),
{
    let a = concat_chars(&vec!['['], feature);
    let b = concat_chars(&a, &vec!['.']);
    let c = concat_chars(&b, section);
    let r = concat_chars(&c, &vec![']']);
    r
}

/// Splits `key` at its only `.`.
fn split_key_exec(key: &Vec<char>) -> (r: Option<(Vec<char>, Vec<char>)>)
    ensures
        match split_key(key@) {
            Some((s, k)) => r matches Some((a, b)) && a@ == s && b@ == k,
            None => r is None,
        },
{
    let n = key.len();
    proof {
        assert(key@.subrange(0, n as int) =~= key@);
    }
    let dot = vec!['.'];
    assert(dot@ =~= seq!['.']);
    match find_in(key, 0, n, &dot) {
        None => None,
        Some(i) => {
            proof {
                lemma_find_char_facts(key@, '.');
            }
            let rest = {
                let s = string_of_range(key, i + 1, n);
                chars_of(s.as_str())
            };
            let first = {
                let s = string_of_range(key, 0, i);
                chars_of(s.as_str())
            };
            proof {
                assert(rest@ =~= key@.skip(i + 1));
                assert(first@ =~= key@.take(i as int));
            }
            if has_char(&rest, '.') {
                None
            } else {
                Some((first, rest))
            }
        },
    }
}

/// The value stored under `key` (`section.name`) for `feature` in the configuration text `content`.
pub fn get_config_value(content: &str, feature: &str, key: &str) -> (r: Result<String, ConfigError>)
    ensures
        match split_key(key@) {
            None => r matches Err(ConfigError::InvalidKeyFormat),
            Some((section, name)) => match lookup(content@, feature@, section, name) {
                Some(v) => r is Ok && r->Ok_0@ == v,
                None => r matches Err(ConfigError::KeyNotFound { key: k, feature: f }) && k@ == key@ && f@ == feature@,
            },
        },
{
    let kchars = chars_of(key);
    let parts = split_key_exec(&kchars);
    let (section, name) = match parts {
        None => return Err(ConfigError::InvalidKeyFormat),
        Some(p) => p,
    };
    let c = chars_of(content);
    let n = c.len();
    let h = header_chars(&chars_of(feature), &section);
    let kp = concat_chars(&name, &vec![' ', '=', ' ']);
    let lb = vec!['['];
    let nl = vec!['\n'];
    assert(lb@ =~= seq!['[']);
    assert(nl@ =~= seq!['\n']);
    proof {
        assert(c@.subrange(0, n as int) =~= c@);
        lemma_find_spec(c@, h@);
    }
    let not_found = ConfigError::KeyNotFound { key: owned(key), feature: owned(feature) };
    let ss = match find_in(&c, 0, n, &h) {
        None => return Err(not_found),
        Some(ss) => ss,
    };
    let se = match find_in(&c, ss + 1, n, &lb) {
        Some(i) => i,
        None => n,
    };
    proof {
        lemma_find_char_facts(c@.subrange(ss + 1, n as int), '[');
        lemma_find_spec(c@.subrange(ss as int, se as int), kp@);
    }
    let kls = match find_in(&c, ss, se, &kp) {
        None => return Err(not_found),
        Some(k) => k,
    };
    let vs = kls + kp.len();
    let ve = match find_in(&c, vs, n, &nl) {
        Some(i) => i,
        None => n,
    };
    proof {
        lemma_find_char_facts(c@.subrange(vs as int, n as int), '\n');
    }
    let (a, b) = trim_bounds(&c, vs, ve);
    let (a2, b2) = trim_char_bounds(&c, a, b, '"');
    let (a3, b3) = trim_char_bounds(&c, a2, b2, '\'');
    Ok(string_of_range(&c, a3, b3))
}

/// `c` (with a final newline added if it lacks one), then `h` and a newline, then `kl` and a newline.
fn append_lines(c: &Vec<char>, n: usize, h: &Vec<char>, kl: &Vec<char>) -> (out: String)
    requires
        n == c.len(),
    ensures
        h@.len() > 0 ==> out@ == with_final_newline(c@) + h@ + seq!['\n'] + kl@ + seq!['\n'],
        h@.len() == 0 ==> out@ == with_final_newline(c@) + kl@ + seq!['\n'],
{
    let mut out = String::new();
    push_range(&mut out, c, 0, n);
    if n > 0 && c[n - 1] != '\n' {
        push_char(&mut out, '\n');
    }
    if h.len() > 0 {
        push_range(&mut out, h, 0, h.len());
        push_char(&mut out, '\n');
    }
    push_range(&mut out, kl, 0, kl.len());
    push_char(&mut out, '\n');
    proof {
        assert(c@.subrange(0, n as int) =~= c@);
        assert(h@.subrange(0, h@.len() as int) =~= h@);
        assert(kl@.subrange(0, kl@.len() as int) =~= kl@);
        if h@.len() > 0 {
            assert(out@ =~= with_final_newline(c@) + h@ + seq!['\n'] + kl@ + seq!['\n']);
        } else {
            assert(out@ =~= with_final_newline(c@) + kl@ + seq!['\n']);
        }
    }
    out
}

/// `c[..lo] + kl + c[hi..]`.
fn splice(c: &Vec<char>, lo: usize, hi: usize, kl: &Vec<char>) -> (out: String)
    requires
        lo <= hi <= c.len(),
    ensures
        out@ == c@.take(lo as int) + kl@ + c@.skip(hi as int),
{
    let mut out = String::new();
    push_range(&mut out, c, 0, lo);
    push_range(&mut out, kl, 0, kl.len());
    push_range(&mut out, c, hi, c.len());
    proof {
        assert(kl@.subrange(0, kl@.len() as int) =~= kl@);
        assert(out@ =~= c@.take(lo as int) + kl@ + c@.skip(hi as int));
    }
    out
}

/// `c[..at] + kl + "\n" + c[at..]`.
fn splice_line(c: &Vec<char>, at: usize, kl: &Vec<char>) -> (out: String)
    requires
        at <= c.len(),
    ensures
        out@ == c@.take(at as int) + kl@ + seq!['\n'] + c@.skip(at as int),
{
    let mut out = String::new();
    push_range(&mut out, c, 0, at);
    push_range(&mut out, kl, 0, kl.len());
    push_char(&mut out, '\n');
    push_range(&mut out, c, at, c.len());
    proof {
        assert(kl@.subrange(0, kl@.len() as int) =~= kl@);
        assert(out@ =~= c@.take(at as int) + kl@ + seq!['\n'] + c@.skip(at as int));
    }
    out
}

/// Stores `value` under `key` (`section.name`) for `feature` in the configuration text `content`.
#[verifier::rlimit(50)]
pub fn set_config_value(content: &mut String, feature: &str, key: &str, value: &str) -> (r: Result<(), ConfigError>)
    ensures
        match split_key(key@) {
            None => r matches Err(ConfigError::InvalidKeyFormat) && final(content)@ == old(content)@,
            Some((section, name)) => r is Ok && final(content)@ == store(old(content)@, feature@, section, name, value@),
        },
{
    let kchars = chars_of(key);
    let parts = split_key_exec(&kchars);
    let (section, name) = match parts {
        None => return Err(ConfigError::InvalidKeyFormat),
        Some(p) => p,
    };
    let c = chars_of(content.as_str());
    let n = c.len();
    let h = header_chars(&chars_of(feature), &section);
    let kp = concat_chars(&name, &vec![' ', '=', ' ']);
    let lb = vec!['['];
    let nl = vec!['\n'];
    assert(lb@ =~= seq!['[']);
    assert(nl@ =~= seq!['\n']);
    let kl = {
        let a = concat_chars(&name, &vec![' ', '=', ' ', '"']);
        let b = concat_chars(&a, &chars_of(value));
        concat_chars(&b, &vec!['"'])
    };
    proof {
        assert(c@.subrange(0, n as int) =~= c@);
        lemma_find_spec(c@, h@);
    }
    let mut out = String::new();
    match find_in(&c, 0, n, &h) {
        None => {
            out = append_lines(&c, n, &h, &kl);
            proof {
                assert(out@ =~= store(c@, feature@, section@, name@, value@));
            }
        },
        Some(ss) => {
            let se = match find_in(&c, ss + 1, n, &lb) {
                Some(i) => i,
                None => n,
            };
            proof {
                lemma_find_char_facts(c@.subrange(ss + 1, n as int), '[');
                lemma_find_spec(c@.subrange(ss as int, se as int), kp@);
            }
            match find_in(&c, ss, se, &kp) {
                Some(kls) => {
                    let kle = match find_in(&c, kls, n, &nl) {
                        Some(i) => i,
                        None => se,
                    };
                    proof {
                        lemma_find_char_facts(c@.subrange(kls as int, n as int), '\n');
                    }
                    out = splice(&c, kls, kle, &kl);
                    proof {
                        assert(out@ =~= store(c@, feature@, section@, name@, value@));
                    }
                },
                None => {
                    if se < n {
                        out = splice_line(&c, se, &kl);
                    } else {
                        let empty: Vec<char> = Vec::new();
                        out = append_lines(&c, n, &empty, &kl);
                    }
                    proof {
                        assert(out@ =~= store(c@, feature@, section@, name@, value@));
                    }
                },
            }
        },
    }
    *content = out;
    Ok(())
}

} // verus!

verus! {

/// The `key = "value"` value format keeps `value` intact: no newline, and no quote at either end.
pub open spec fn storable_value(v: Seq<char>) -> bool {
    &&& !v.contains('\n')
    &&& v.len() > 0 ==> v[0] != '"' && v[0] != '\'' && v.last() != '"' && v.last() != '\''
}

/// A name part (feature or section) that keeps the header `[feature.section]` recognisable.
pub open spec fn plain_header_part(s: Seq<char>) -> bool {
    !s.contains('\n') && !s.contains('[') && !s.contains('=')
}

/// A key name whose line `name = ...` cannot be confused with other text.
pub open spec fn plain_key_name(k: Seq<char>) -> bool {
    &&& k.len() > 0
    &&& !k.contains(' ') && !k.contains('=') && !k.contains('[') && !k.contains(']') && !k.contains('\n')
}

/// Every section header in `c` starts a line.
pub open spec fn headers_start_lines(c: Seq<char>) -> bool {
    forall|i: int| 0 < i < c.len() && #[trigger] c[i] == '[' ==> c[i - 1] == '\n'
}

pub(crate) proof fn lemma_value_extract(v: Seq<char>)
    requires
        storable_value(v),
    ensures
        trim_char(trim_char(trim(seq!['"'] + v + seq!['"']), '"'), '\'') == v,
{
    let q = seq!['"'] + v + seq!['"'];
    lemma_strip_lead_at(q, ws_pred(), 0);
    assert(q.skip(0) =~= q);
    lemma_strip_trail_at(q, ws_pred(), q.len() as int);
    assert(q.take(q.len() as int) =~= q);
    assert(trim(q) == q);
    if v.len() > 0 {
        lemma_strip_lead_at(q, char_pred('"'), 1);
        let q1 = q.skip(1);
        assert(q1 =~= v + seq!['"']);
        lemma_strip_trail_at(q1, char_pred('"'), v.len() as int);
        assert(q1.take(v.len() as int) =~= v);
        lemma_strip_lead_at(v, char_pred('\''), 0);
        assert(v.skip(0) =~= v);
        lemma_strip_trail_at(v, char_pred('\''), v.len() as int);
        assert(v.take(v.len() as int) =~= v);
    } else {
        lemma_strip_lead_at(q, char_pred('"'), 2);
        assert(q.skip(2) =~= v);
        lemma_strip_trail_at(v, char_pred('"'), 0);
        assert(v.take(0) =~= v);
        lemma_strip_lead_at(v, char_pred('\''), 0);
        assert(v.skip(0) =~= v);
        lemma_strip_trail_at(v, char_pred('\''), 0);
    }
}

pub(crate) proof fn lemma_section_end_facts(c: Seq<char>, ss: int)
    requires
        0 <= ss < c.len(),
    ensures
        ss + 1 <= section_end(c, ss) <= c.len(),
        forall|j: int| ss + 1 <= j < section_end(c, ss) ==> c[j] != '[',
        section_end(c, ss) < c.len() ==> c[section_end(c, ss)] == '[',
{
    let t = c.subrange(ss + 1, c.len() as int);
    lemma_find_char_facts(t, '[');
    assert forall|j: int| ss + 1 <= j < section_end(c, ss) implies c[j] != '[' by {
        assert(t[j - ss - 1] == c[j]);
    }
    if section_end(c, ss) < c.len() {
        assert(t[section_end(c, ss) - ss - 1] == c[section_end(c, ss)]);
    }
}

pub(crate) proof fn lemma_line_end_at(c: Seq<char>, from: int, e: int)
    requires
        0 <= from <= e <= c.len(),
        forall|j: int| from <= j < e ==> c[j] != '\n',
        e == c.len() || c[e] == '\n',
    ensures
        line_end(c, from, c.len() as int) == e,
{
    let t = c.subrange(from, c.len() as int);
    if e < c.len() {
        assert(t[e - from] == c[e]);
        assert forall|j: int| 0 <= j < e - from implies t[j] != '\n' by {
            assert(t[j] == c[from + j]);
        }
        lemma_find_char(t, '\n', e - from);
    } else {
        assert forall|j: int| 0 <= j < t.len() implies t[j] != '\n' by {
            assert(t[j] == c[from + j]);
        }
        lemma_find_char_none(t, '\n');
    }
}

proof fn lemma_header_facts(f: Seq<char>, s: Seq<char>)
    requires
        plain_header_part(f),
        plain_header_part(s),
    ensures
        header(f, s).len() >= 3,
        header(f, s)[0] == '[',
        header(f, s).last() == ']',
        forall|i: int| 1 <= i < header(f, s).len() ==> header(f, s)[i] != '[',
        forall|i: int| 0 <= i < header(f, s).len() ==> header(f, s)[i] != '\n' && header(f, s)[i] != '=',
{
    let h = header(f, s);
    assert forall|i: int| 1 <= i < h.len() implies h[i] != '[' by {
        if 1 <= i < 1 + f.len() {
            assert(h[i] == f[i - 1]);
        } else if i == 1 + f.len() {
        } else if i < 2 + f.len() + s.len() {
            assert(h[i] == s[i - 2 - f.len()]);
        }
    }
    assert forall|i: int| 0 <= i < h.len() implies h[i] != '\n' && h[i] != '=' by {
        if 1 <= i < 1 + f.len() {
            assert(h[i] == f[i - 1]);
        } else if 2 + f.len() <= i < 2 + f.len() + s.len() {
            assert(h[i] == s[i - 2 - f.len()]);
        }
    }
}

pub(crate) proof fn lemma_key_line_facts(k: Seq<char>, v: Seq<char>)
    requires
        plain_key_name(k),
        storable_value(v),
    ensures
        key_line(k, v).len() == key_pat(k).len() + v.len() + 2,
        key_line(k, v).subrange(0, key_pat(k).len() as int) == key_pat(k),
        key_line(k, v).subrange(key_pat(k).len() as int, key_line(k, v).len() as int) == seq!['"'] + v + seq!['"'],
        forall|i: int| 0 <= i < key_line(k, v).len() ==> key_line(k, v)[i] != '\n',
        forall|i: int| 0 <= i < key_pat(k).len() ==> key_pat(k)[i] != '[' && key_pat(k)[i] != '\n',
        forall|i: int| 0 <= i < k.len() ==> key_pat(k)[i] != '=' && key_pat(k)[i] != ' ' && key_pat(k)[i] != ']',
        key_pat(k)[k.len() as int] == ' ',
        key_pat(k)[k.len() as int + 1] == '=',
        key_pat(k)[k.len() as int + 2] == ' ',
        key_pat(k).len() == k.len() + 3,
{
    let kl = key_line(k, v);
    let kp = key_pat(k);
    assert(kl.subrange(0, kp.len() as int) =~= kp);
    assert(kl.subrange(kp.len() as int, kl.len() as int) =~= seq!['"'] + v + seq!['"']);
    assert forall|i: int| 0 <= i < kl.len() implies kl[i] != '\n' by {
        if i < k.len() {
            assert(kl[i] == k[i]);
        } else if k.len() + 4 <= i < k.len() + 4 + v.len() {
            assert(kl[i] == v[i - k.len() - 4]);
        }
    }
    assert forall|i: int| 0 <= i < kp.len() implies kp[i] != '[' && kp[i] != '\n' by {
        if i < k.len() {
            assert(kp[i] == k[i]);
        }
    }
    assert forall|i: int| 0 <= i < k.len() implies kp[i] != '=' && kp[i] != ' ' && kp[i] != ']' by {
        assert(kp[i] == k[i]);
    }
}

/// A window of `kp` that covers a position holding a character foreign to `kp` is no occurrence.
pub(crate) proof fn lemma_no_match_over(c: Seq<char>, j: int, kp: Seq<char>, pos: int)
    requires
        j <= pos < j + kp.len(),
        0 <= pos < c.len(),
        forall|i: int| 0 <= i < kp.len() ==> kp[i] != c[pos],
    ensures
        !matches_at(c, j, kp),
{
    if matches_at(c, j, kp) {
        assert(c.subrange(j, j + kp.len())[pos - j] == c[pos]);
    }
}

/// The lookup succeeds once the header, the key line and its end are where they must be.
proof fn lemma_lookup_at(c: Seq<char>, f: Seq<char>, s: Seq<char>, k: Seq<char>, v: Seq<char>, ss: int, kls: int)
    requires
        plain_header_part(f),
        plain_header_part(s),
        plain_key_name(k),
        storable_value(v),
        first_match(c, header(f, s), ss),
        ss <= kls,
        kls + key_line(k, v).len() <= c.len(),
        c.subrange(kls, kls + key_line(k, v).len()) == key_line(k, v),
        forall|j: int| ss + 1 <= j < kls + key_pat(k).len() ==> c[j] != '[',
        forall|j: int| ss <= j < kls ==> !matches_at(c, j, key_pat(k)),
        kls + key_line(k, v).len() == c.len() || c[kls + key_line(k, v).len()] == '\n',
    ensures
        lookup(c, f, s, k) == Some(v),
{
    let h = header(f, s);
    let kp = key_pat(k);
    let kl = key_line(k, v);
    lemma_header_facts(f, s);
    lemma_key_line_facts(k, v);
    lemma_find_first(c, h, ss);
    lemma_section_end_facts(c, ss);
    let se = section_end(c, ss);
    if se < kls + kp.len() {
        assert(c[se] == '[');
        if se < kls {
        } else {
            assert(c[se] == kl[se - kls]);
            assert(kl[se - kls] == kp[se - kls]) by {
                assert(kl.subrange(0, kp.len() as int)[se - kls] == kl[se - kls]);
            }
        }
    }
    assert(se >= kls + kp.len());
    let t = c.subrange(ss, se);
    assert(t.subrange(kls - ss, kls - ss + kp.len()) =~= kp) by {
        assert forall|i: int| 0 <= i < kp.len() implies t.subrange(kls - ss, kls - ss + kp.len())[i] == kp[i] by {
            assert(c.subrange(kls, kls + kl.len())[i] == c[kls + i]);
            assert(kl.subrange(0, kp.len() as int)[i] == kl[i]);
        }
    }
    assert forall|j: int| 0 <= j < kls - ss implies !matches_at(t, j, kp) by {
        assert(!matches_at(c, ss + j, kp));
        if matches_at(t, j, kp) {
            assert(c.subrange(ss + j, ss + j + kp.len()) =~= t.subrange(j, j + kp.len()));
        }
    }
    lemma_find_first(t, kp, kls - ss);
    let vs = kls + kp.len();
    let ve = kls + kl.len();
    assert forall|j: int| vs <= j < ve implies c[j] != '\n' by {
        assert(c.subrange(kls, kls + kl.len())[j - kls] == c[j]);
    }
    lemma_line_end_at(c, vs, ve);
    assert(c.subrange(vs, ve) =~= seq!['"'] + v + seq!['"']) by {
        assert forall|i: int| 0 <= i < ve - vs implies c.subrange(vs, ve)[i] == (seq!['"'] + v + seq!['"'])[i] by {
            assert(c.subrange(kls, kls + kl.len())[kp.len() + i] == c[vs + i]);
            assert(kl.subrange(kp.len() as int, kl.len() as int)[i] == kl[kp.len() + i]);
        }
    }
    lemma_value_extract(v);
}

} // verus!

verus! {

proof fn lemma_store_new_section(c: Seq<char>, f: Seq<char>, s: Seq<char>, k: Seq<char>, v: Seq<char>)
    requires
        plain_header_part(f),
        plain_header_part(s),
        plain_key_name(k),
        storable_value(v),
        find(c, header(f, s)) is None,
    ensures
        lookup(store(c, f, s, k, v), f, s, k) == Some(v),
{
    let h = header(f, s);
    let kp = key_pat(k);
    let kl = key_line(k, v);
    lemma_header_facts(f, s);
    lemma_key_line_facts(k, v);
    lemma_find_spec(c, h);
    let w = with_final_newline(c);
    let c2 = w + h + seq!['\n'] + kl + seq!['\n'];
    assert(store(c, f, s, k, v) == c2);
    let ss = w.len() as int;
    let kls = ss + h.len() + 1;
    assert(w.len() > 0 ==> w[w.len() - 1] == '\n');
    assert forall|i: int| 0 <= i < c.len() implies c2[i] == c[i] by {
        assert(c2[i] == w[i]);
    }
    assert forall|i: int| 0 <= i < h.len() implies c2[ss + i] == h[i] by {}
    assert(c2[kls - 1] == '\n');
    assert forall|i: int| 0 <= i < kl.len() implies c2[kls + i] == kl[i] by {}
    assert(c2[kls + kl.len()] == '\n');
    assert(c2.subrange(ss, ss + h.len()) =~= h);
    assert forall|j: int| 0 <= j < ss implies !matches_at(c2, j, h) by {
        if j + h.len() <= c.len() {
            assert(!matches_at(c, j, h));
            assert(c2.subrange(j, j + h.len()) =~= c.subrange(j, j + h.len()));
        } else {
            assert(c2[w.len() - 1] == '\n');
            lemma_no_match_over(c2, j, h, w.len() - 1);
        }
    }
    assert forall|j: int| ss + 1 <= j < kls + kp.len() implies c2[j] != '[' by {
        if j < ss + h.len() {
            assert(c2[j] == h[j - ss]);
        } else if j >= kls {
            assert(c2[j] == kl[j - kls]);
            assert(kl.subrange(0, kp.len() as int)[j - kls] == kl[j - kls]);
        }
    }
    assert forall|j: int| ss <= j < kls implies !matches_at(c2, j, kp) by {
        let e = j + k.len() + 1;
        if e >= kls {
            lemma_no_match_over(c2, j, kp, kls - 1);
        } else if matches_at(c2, j, kp) {
            assert(c2.subrange(j, j + kp.len())[k.len() as int + 1] == c2[e]);
            if e < kls - 1 {
                assert(c2[e] == h[e - ss]);
            }
        }
    }
    assert(c2.subrange(kls, kls + kl.len()) =~= kl);
    lemma_lookup_at(c2, f, s, k, v, ss, kls);
}

} // verus!

verus! {

/// Facts about the section that starts at the first header: its key occurrence, if any.
proof fn lemma_header_first(c: Seq<char>, f: Seq<char>, s: Seq<char>, ss: int)
    requires
        plain_header_part(f),
        plain_header_part(s),
        find(c, header(f, s)) == Some(ss),
    ensures
        first_match(c, header(f, s), ss),
        0 <= ss,
        ss + header(f, s).len() <= c.len(),
        forall|i: int| 0 <= i < header(f, s).len() ==> c[ss + i] == header(f, s)[i],
        ss + header(f, s).len() <= section_end(c, ss) <= c.len(),
        forall|j: int| ss + 1 <= j < section_end(c, ss) ==> c[j] != '[',
        section_end(c, ss) < c.len() ==> c[section_end(c, ss)] == '[',
{
    let h = header(f, s);
    lemma_header_facts(f, s);
    lemma_find_spec(c, h);
    assert forall|i: int| 0 <= i < h.len() implies c[ss + i] == h[i] by {
        assert(c.subrange(ss, ss + h.len())[i] == c[ss + i]);
    }
    lemma_section_end_facts(c, ss);
    let se = section_end(c, ss);
    if se < ss + h.len() {
        assert(c[se] == h[se - ss]);
    }
}

#[verifier::spinoff_prover]
#[verifier::rlimit(40)]
proof fn lemma_store_replace(c: Seq<char>, f: Seq<char>, s: Seq<char>, k: Seq<char>, v: Seq<char>, ss: int)
    requires
        plain_header_part(f),
        plain_header_part(s),
        plain_key_name(k),
        storable_value(v),
        headers_start_lines(c),
        find(c, header(f, s)) == Some(ss),
        find(c.subrange(ss, section_end(c, ss)), key_pat(k)) is Some,
    ensures
        lookup(store(c, f, s, k, v), f, s, k) == Some(v),
{
    let h = header(f, s);
    let kp = key_pat(k);
    let kl = key_line(k, v);
    let n = c.len() as int;
    lemma_header_facts(f, s);
    lemma_key_line_facts(k, v);
    lemma_header_first(c, f, s, ss);
    let se = section_end(c, ss);
    let t = c.subrange(ss, se);
    lemma_find_spec(t, kp);
    let ks = find(t, kp)->0;
    let kls = ss + ks;
    assert forall|i: int| 0 <= i < kp.len() implies c[kls + i] == kp[i] by {
        assert(t.subrange(ks, ks + kp.len())[i] == t[ks + i]);
    }
    // The key occurrence does not start inside the header.
    if kls < ss + h.len() {
        let e = kls + k.len() + 1;
        assert(c[e] == kp[k.len() as int + 1]);
        if e < ss + h.len() {
            assert(c[e] == h[e - ss]);
        }
        let p = ss + h.len() - 1;
        assert(c[p] == ']');
        assert(c[p] == kp[p - kls]);
    }
    assert(kls >= ss + h.len());
    let kle = line_end(c, kls, se);
    lemma_find_char_facts(c.subrange(kls, n), '\n');
    let c2 = c.take(kls) + kl + c.skip(kle);
    assert(store(c, f, s, k, v) == c2);
    if find(c.subrange(kls, n), seq!['\n']) is None && se < n {
        assert(c[se - 1] == '\n');
        assert(c.subrange(kls, n)[se - 1 - kls] == c[se - 1]);
    }
    assert(kls <= kle <= n);
    assert(kle < n ==> c[kle] == '\n') by {
        if kle < n {
            if find(c.subrange(kls, n), seq!['\n']) is Some {
                assert(c.subrange(kls, n)[kle - kls] == c[kle]);
            }
        }
    }
    assert forall|i: int| 0 <= i < kls + kp.len() implies c2[i] == c[i] by {
        if i >= kls {
            assert(c2[i] == kl[i - kls]);
            assert(kl.subrange(0, kp.len() as int)[i - kls] == kl[i - kls]);
        }
    }
    lemma_first_match_stable(c, c2, h, ss, kls);
    assert forall|j: int| ss + 1 <= j < kls + kp.len() implies c2[j] != '[' by {}
    assert forall|j: int| ss <= j < kls implies !matches_at(c2, j, kp) by {
        assert(!matches_at(t, j - ss, kp));
        if matches_at(c2, j, kp) {
            assert(c2.subrange(j, j + kp.len()) =~= c.subrange(j, j + kp.len()));
            assert(t.subrange(j - ss, j - ss + kp.len()) =~= c.subrange(j, j + kp.len()));
        }
    }
    assert forall|i: int| 0 <= i < kl.len() implies c2[kls + i] == kl[i] by {}
    assert(c2.subrange(kls, kls + kl.len()) =~= kl);
    if kle < n {
        assert(c2[kls + kl.len()] == c[kle]);
    }
    lemma_lookup_at(c2, f, s, k, v, ss, kls);
}

#[verifier::rlimit(40)]
proof fn lemma_store_insert_mid(c: Seq<char>, f: Seq<char>, s: Seq<char>, k: Seq<char>, v: Seq<char>, ss: int)
    requires
        plain_header_part(f),
        plain_header_part(s),
        plain_key_name(k),
        storable_value(v),
        find(c, header(f, s)) == Some(ss),
        find(c.subrange(ss, section_end(c, ss)), key_pat(k)) is None,
        section_end(c, ss) < c.len(),
    ensures
        lookup(store(c, f, s, k, v), f, s, k) == Some(v),
{
    let h = header(f, s);
    let kp = key_pat(k);
    let kl = key_line(k, v);
    let n = c.len() as int;
    lemma_header_facts(f, s);
    lemma_key_line_facts(k, v);
    lemma_header_first(c, f, s, ss);
    let se = section_end(c, ss);
    let t = c.subrange(ss, se);
    lemma_find_spec(t, kp);
    let c2 = c.take(se) + kl + seq!['\n'] + c.skip(se);
    assert(store(c, f, s, k, v) == c2);
    assert forall|i: int| 0 <= i < se implies c2[i] == c[i] by {}
    assert forall|i: int| 0 <= i < kl.len() implies c2[se + i] == kl[i] by {}
    assert(c2[se + kl.len()] == '\n');
    lemma_first_match_stable(c, c2, h, ss, se);
    assert forall|j: int| ss + 1 <= j < se + kp.len() implies c2[j] != '[' by {
        if j >= se {
            assert(kl.subrange(0, kp.len() as int)[j - se] == kl[j - se]);
        }
    }
    assert forall|j: int| ss <= j < se implies !matches_at(c2, j, kp) by {
        if j + kp.len() <= se {
            assert(!matches_at(t, j - ss, kp));
            if matches_at(c2, j, kp) {
                assert(c2.subrange(j, j + kp.len()) =~= c.subrange(j, j + kp.len()));
                assert(t.subrange(j - ss, j - ss + kp.len()) =~= c.subrange(j, j + kp.len()));
            }
        } else if matches_at(c2, j, kp) {
            let e = j + k.len() + 1;
            assert(c2.subrange(j, j + kp.len())[k.len() as int + 1] == c2[e]);
            assert(c2.subrange(j, j + kp.len())[k.len() as int + 2] == c2[e + 1]);
            if e >= se {
                assert(c2[e] == kl[e - se]);
                assert(kl.subrange(0, kp.len() as int)[e - se] == kl[e - se]);
            } else {
                assert(e + 1 == se);
                assert(c2[se] == kl[0]);
                assert(kl.subrange(0, kp.len() as int)[0] == kl[0]);
            }
        }
    }
    assert(c2.subrange(se, se + kl.len()) =~= kl);
    lemma_lookup_at(c2, f, s, k, v, ss, se);
}

#[verifier::rlimit(40)]
proof fn lemma_store_insert_end(c: Seq<char>, f: Seq<char>, s: Seq<char>, k: Seq<char>, v: Seq<char>, ss: int)
    requires
        plain_header_part(f),
        plain_header_part(s),
        plain_key_name(k),
        storable_value(v),
        find(c, header(f, s)) == Some(ss),
        find(c.subrange(ss, section_end(c, ss)), key_pat(k)) is None,
        section_end(c, ss) == c.len(),
    ensures
        lookup(store(c, f, s, k, v), f, s, k) == Some(v),
{
    let h = header(f, s);
    let kp = key_pat(k);
    let kl = key_line(k, v);
    let n = c.len() as int;
    lemma_header_facts(f, s);
    lemma_key_line_facts(k, v);
    lemma_header_first(c, f, s, ss);
    let se = section_end(c, ss);
    let t = c.subrange(ss, se);
    lemma_find_spec(t, kp);
    let w = with_final_newline(c);
    let c2 = w + kl + seq!['\n'];
    assert(store(c, f, s, k, v) == c2);
    let kls = w.len() as int;
    assert(w[w.len() - 1] == '\n');
    assert forall|i: int| 0 <= i < n implies c2[i] == c[i] by {
        assert(c2[i] == w[i]);
    }
    assert forall|i: int| 0 <= i < kl.len() implies c2[kls + i] == kl[i] by {}
    assert(c2[kls + kl.len()] == '\n');
    lemma_first_match_stable(c, c2, h, ss, n);
    assert forall|j: int| ss + 1 <= j < kls + kp.len() implies c2[j] != '[' by {
        if j >= kls {
            assert(kl.subrange(0, kp.len() as int)[j - kls] == kl[j - kls]);
        } else if j < n {
        } else {
            assert(c2[j] == w[j]);
        }
    }
    assert forall|j: int| ss <= j < kls implies !matches_at(c2, j, kp) by {
        if j + kp.len() <= n {
            assert(!matches_at(t, j - ss, kp));
            if matches_at(c2, j, kp) {
                assert(c2.subrange(j, j + kp.len()) =~= c.subrange(j, j + kp.len()));
                assert(t.subrange(j - ss, j - ss + kp.len()) =~= c.subrange(j, j + kp.len()));
            }
        } else {
            assert(c2[w.len() - 1] == w[w.len() - 1]);
            lemma_no_match_over(c2, j, kp, w.len() - 1);
        }
    }
    assert(c2.subrange(kls, kls + kl.len()) =~= kl);
    lemma_lookup_at(c2, f, s, k, v, ss, kls);
}

/// Reading a key right after storing a value under it gives that value back.
///
/// This holds for every configuration text whose section headers start lines, for
/// every feature and section name free of newlines, `[` and `=`, every key name
/// free of spaces, `=`, brackets and newlines, and every value without a newline
/// and without a quote at either end.
pub proof fn lemma_get_after_set(content: Seq<char>, feature: Seq<char>, key: Seq<char>, value: Seq<char>)
    requires
        split_key(key) matches Some((section, name)) && plain_header_part(section) && plain_key_name(name),
        plain_header_part(feature),
        storable_value(value),
        headers_start_lines(content),
    ensures
        split_key(key) matches Some((section, name)) && lookup(
            store(content, feature, section, name, value),
            feature,
            section,
            name,
        ) == Some(value),
{
    let (section, name) = split_key(key)->0;
    let h = header(feature, section);
    match find(content, h) {
        None => lemma_store_new_section(content, feature, section, name, value),
        Some(ss) => {
            lemma_header_first(content, feature, section, ss);
            if find(content.subrange(ss, section_end(content, ss)), key_pat(name)) is Some {
                lemma_store_replace(content, feature, section, name, value, ss);
            } else {
                if section_end(content, ss) < content.len() {
                    lemma_store_insert_mid(content, feature, section, name, value, ss);
                } else {
                    lemma_store_insert_end(content, feature, section, name, value, ss);
                }
            }
        },
    }
}

} // verus!

verus! {

/// The feature a command works on: the one named, else `default`.
pub open spec fn feature_or_default(feature: Option<Seq<char>>) -> Seq<char> {
    match feature {
        Some(f) => f,
        None => "default"@,
    }
}

/// Runs one `config` command of the configuration tool on the text of the
/// configuration file: first `--set key value` (both must be given), then
/// `--list key`; the feature defaults to `default`. Returns whether the text
/// was changed (and must be written back) and the listed value, if one was asked for.
pub fn run_config_command(
    content: &mut String,
    feature: Option<&str>,
    set_key: Option<&str>,
    set_value: Option<&str>,
    list_key: Option<&str>,
) -> (r: Result<(bool, Option<String>), ConfigError>)
    ensures
        ({
            let f = feature_or_default(match feature { Some(x) => Some(x@), None => None });
            let setting = set_key is Some && set_value is Some;
            let after_set = if setting {
                match split_key(set_key->0@) {
                    Some((section, name)) => Some(store(old(content)@, f, section, name, set_value->0@)),
                    None => None,
                }
            } else {
                Some(old(content)@)
            };
            match after_set {
                None => r matches Err(ConfigError::InvalidKeyFormat) && final(content)@ == old(content)@,
                Some(c) => {
                    &&& final(content)@ == c
                    &&& match list_key {
                        None => r matches Ok((w, None)) && w == setting,
                        Some(k) => match split_key(k@) {
                            None => r matches Err(ConfigError::InvalidKeyFormat),
                            Some((section, name)) => match lookup(c, f, section, name) {
                                Some(v) => r matches Ok((w, Some(x))) && w == setting && x@ == v,
                                None => r matches Err(ConfigError::KeyNotFound { key: kk, feature: ff }) && kk@ == k@
                                    && ff@ == f,
                            },
                        },
                    }
                },
            }
        }),
{
    let feature_name: &str = match feature {
        Some(f) => f,
        None => "default",
    };
    let mut wrote = false;
    match (set_key, set_value) {
        (Some(key), Some(value)) => {
            match set_config_value(content, feature_name, key, value) {
                Err(e) => return Err(e),
                Ok(()) => {
                    wrote = true;
                },
            }
        },
        _ => {},
    }
    match list_key {
        None => Ok((wrote, None)),
        Some(key) => match get_config_value(content.as_str(), feature_name, key) {
            Err(e) => Err(e),
            Ok(v) => Ok((wrote, Some(v))),
        },
    }
}

} // verus!

