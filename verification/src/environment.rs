//! The environment of the command that sudo runs: which variables of the invoking user are
//! kept, and which variables sudo sets itself.

use vstd::prelude::*;
use crate::interface::{GroupId, UserId};
use crate::sudoers::policy::Restrictions;
use crate::wildcard_match::{wildcard_match, wildcard_matches};

verus! {

// ---------------------------------------------------------------------------------------------
// Environments
// ---------------------------------------------------------------------------------------------

/// The map of variable names to values that the entries describe, later entries winning.
pub open spec fn env_map(s: Seq<(Seq<u8>, Seq<u8>)>) -> Map<Seq<u8>, Seq<u8>>
    decreases s.len(),
{
    if s.len() == 0 {
        Map::empty()
    } else {
        env_map(s.drop_last()).insert(s.last().0, s.last().1)
    }
}

/// No name occurs twice.
pub open spec fn distinct_keys(s: Seq<(Seq<u8>, Seq<u8>)>) -> bool {
    forall|i: int, j: int| 0 <= i < j < s.len() ==> #[trigger] s[i].0 != #[trigger] s[j].0
}

pub open spec fn pair_view(p: (Vec<u8>, Vec<u8>)) -> (Seq<u8>, Seq<u8>) {
    (p.0@, p.1@)
}

proof fn lemma_env_map_dom(s: Seq<(Seq<u8>, Seq<u8>)>, k: Seq<u8>)
    ensures
        env_map(s).dom().contains(k) <==> exists|i: int| 0 <= i < s.len() && #[trigger] s[i].0 == k,
    decreases s.len(),
{
    if s.len() > 0 {
        lemma_env_map_dom(s.drop_last(), k);
        if env_map(s).dom().contains(k) && s.last().0 != k {
            let i = choose|i: int| 0 <= i < s.drop_last().len() && #[trigger] s.drop_last()[i].0 == k;
            assert(s[i].0 == k);
        }
        if exists|i: int| 0 <= i < s.len() && #[trigger] s[i].0 == k {
            let i = choose|i: int| 0 <= i < s.len() && #[trigger] s[i].0 == k;
            if i < s.len() - 1 {
                assert(s.drop_last()[i].0 == k);
            }
        }
    }
}

proof fn lemma_env_map_at(s: Seq<(Seq<u8>, Seq<u8>)>, i: int)
    requires
        distinct_keys(s),
        0 <= i < s.len(),
    ensures
        env_map(s).dom().contains(s[i].0),
        env_map(s)[s[i].0] == s[i].1,
    decreases s.len(),
{
    if i < s.len() - 1 {
        assert(distinct_keys(s.drop_last()));
        assert(s.drop_last()[i] == s[i]);
        lemma_env_map_at(s.drop_last(), i);
        assert(s[i].0 != s[s.len() - 1].0);
    }
}

proof fn lemma_env_map_update(s: Seq<(Seq<u8>, Seq<u8>)>, i: int, v: Seq<u8>)
    requires
        distinct_keys(s),
        0 <= i < s.len(),
    ensures
        distinct_keys(s.update(i, (s[i].0, v))),
        env_map(s.update(i, (s[i].0, v))) =~= env_map(s).insert(s[i].0, v),
    decreases s.len(),
{
    let t = s.update(i, (s[i].0, v));
    assert(forall|j: int| 0 <= j < s.len() ==> #[trigger] t[j].0 == s[j].0);
    if i == s.len() - 1 {
        assert(t.drop_last() =~= s.drop_last());
        let d = s.drop_last();
        assert forall|k: Seq<u8>| #![auto] env_map(d).dom().contains(k) implies k != s[i].0 by {
            lemma_env_map_dom(d, k);
            let j = choose|j: int| 0 <= j < d.len() && #[trigger] d[j].0 == k;
            assert(s[j].0 == k);
        }
    } else {
        let d = s.drop_last();
        assert(distinct_keys(d));
        assert(t.drop_last() =~= d.update(i, (d[i].0, v)));
        lemma_env_map_update(d, i, v);
        assert(s[i].0 != s.last().0);
    }
}

proof fn lemma_env_map_push(s: Seq<(Seq<u8>, Seq<u8>)>, k: Seq<u8>, v: Seq<u8>)
    requires
        distinct_keys(s),
        !env_map(s).dom().contains(k),
    ensures
        distinct_keys(s.push((k, v))),
        env_map(s.push((k, v))) == env_map(s).insert(k, v),
{
    let t = s.push((k, v));
    assert(t.drop_last() =~= s);
    assert forall|i: int, j: int| 0 <= i < j < t.len() implies #[trigger] t[i].0 != #[trigger] t[j].0 by {
        if j == s.len() {
            lemma_env_map_dom(s, k);
            assert(t[i] == s[i]);
        }
    }
}

/// A set of environment variables: names and values, as bytes, each name at most once.
#[derive(Clone, Debug)]
pub struct Environment {
    vars: Vec<(Vec<u8>, Vec<u8>)>,
}

impl Environment {
    pub closed spec fn entries(&self) -> Seq<(Seq<u8>, Seq<u8>)> {
        self.vars@.map_values(|p: (Vec<u8>, Vec<u8>)| pair_view(p))
    }

    /// Each name occurs once.
    pub closed spec fn wf(&self) -> bool {
        distinct_keys(self.entries())
    }

    /// The variables and their values.
    pub closed spec fn view(&self) -> Map<Seq<u8>, Seq<u8>> {
        env_map(self.entries())
    }

    /// An environment without variables.
    pub fn new() -> (e: Environment)
        ensures
            e.wf(),
            e@ == Map::<Seq<u8>, Seq<u8>>::empty(),
    {
        let e = Environment { vars: Vec::new() };
        proof {
            assert(e.entries() =~= Seq::<(Seq<u8>, Seq<u8>)>::empty());
        }
        e
    }

    fn index_of(&self, key: &[u8]) -> (r: Option<usize>)
        requires
            self.wf(),
        ensures
            match r {
                Some(i) => i < self.entries().len() && self.entries()[i as int].0 == key@,
                None => !self@.dom().contains(key@),
            },
    {
        let mut i: usize = 0;
        while i < self.vars.len()
            invariant
                i <= self.vars@.len(),
                self.entries().len() == self.vars@.len(),
                forall|j: int| 0 <= j < i ==> #[trigger] self.entries()[j].0 != key@,
            decreases self.vars.len() - i,
        {
            if bytes_eq(self.vars[i].0.as_slice(), key) {
                return Some(i);
            }
            i += 1;
        }
        proof {
            lemma_env_map_dom(self.entries(), key@);
        }
        None
    }

    /// The value of a variable.
    pub fn get(&self, key: &[u8]) -> (r: Option<&Vec<u8>>)
        requires
            self.wf(),
        ensures
            match r {
                Some(v) => self@.dom().contains(key@) && self@[key@] == v@,
                None => !self@.dom().contains(key@),
            },
    {
        match self.index_of(key) {
            Some(i) => {
                proof {
                    lemma_env_map_at(self.entries(), i as int);
                }
                Some(&self.vars[i].1)
            },
            None => None,
        }
    }

    /// Whether a variable is set.
    pub fn contains(&self, key: &[u8]) -> (b: bool)
        requires
            self.wf(),
        ensures
            b == self@.dom().contains(key@),
    {
        self.get(key).is_some()
    }

    /// Set a variable, replacing its value if it was set.
    pub fn insert(&mut self, key: Vec<u8>, value: Vec<u8>)
        requires
            old(self).wf(),
        ensures
            final(self).wf(),
            final(self)@ == old(self)@.insert(key@, value@),
    {
        let ghost s = self.entries();
        match self.index_of(key.as_slice()) {
            Some(i) => {
                proof {
                    lemma_env_map_update(s, i as int, value@);
                }
                self.vars.set(i, (key, value));
                proof {
                    assert(self.entries() =~= s.update(i as int, (s[i as int].0, s[i as int].1)).update(
                        i as int,
                        (s[i as int].0, self.vars@[i as int].1@),
                    ));
                    assert(self.entries() =~= s.update(i as int, (s[i as int].0, self.vars@[i as int].1@)));
                }
            },
            None => {
                let ghost k = key@;
                let ghost v = value@;
                proof {
                    lemma_env_map_push(s, k, v);
                }
                self.vars.push((key, value));
                proof {
                    assert(self.entries() =~= s.push((k, v)));
                }
            },
        }
    }

    /// Set a variable unless it is set already.
    pub fn insert_if_absent(&mut self, key: Vec<u8>, value: Vec<u8>)
        requires
            old(self).wf(),
        ensures
            final(self).wf(),
            final(self)@ == (if old(self)@.dom().contains(key@) {
                old(self)@
            } else {
                old(self)@.insert(key@, value@)
            }),
    {
        if !self.contains(key.as_slice()) {
            self.insert(key, value);
        }
    }

    /// The number of variables.
    pub fn len(&self) -> (n: usize)
        requires
            self.wf(),
        ensures
            n == self@.dom().len(),
    {
        proof {
            lemma_env_map_len(self.entries());
        }
        self.vars.len()
    }

    /// The variables, in no particular order.
    pub fn entries_vec(&self) -> (v: &Vec<(Vec<u8>, Vec<u8>)>)
        requires
            self.wf(),
        ensures
            v@.map_values(|p: (Vec<u8>, Vec<u8>)| pair_view(p)) == self.entries(),
            forall|i: int| 0 <= i < v@.len() ==> #[trigger] self@.dom().contains(v@[i].0@) && self@[v@[i].0@] == v@[i].1@,
    {
        proof {
            assert forall|i: int| 0 <= i < self.vars@.len() implies #[trigger] self@.dom().contains(self.vars@[i].0@) && self@[self.vars@[i].0@] == self.vars@[i].1@ by {
                lemma_env_map_at(self.entries(), i);
            }
        }
        &self.vars
    }
}

proof fn lemma_env_map_len(s: Seq<(Seq<u8>, Seq<u8>)>)
    requires
        distinct_keys(s),
    ensures
        env_map(s).dom().finite(),
        env_map(s).dom().len() == s.len(),
    decreases s.len(),
{
    if s.len() > 0 {
        let d = s.drop_last();
        assert(distinct_keys(d));
        lemma_env_map_len(d);
        lemma_env_map_dom(d, s.last().0);
        if env_map(d).dom().contains(s.last().0) {
            let j = choose|j: int| 0 <= j < d.len() && #[trigger] d[j].0 == s.last().0;
            assert(s[j].0 == s[s.len() - 1].0);
        }
    }
}

/// Two byte strings are equal.
pub fn bytes_eq(a: &[u8], b: &[u8]) -> (r: bool)
    ensures
        r == (a@ == b@),
{
    if a.len() != b.len() {
        return false;
    }
    let mut i: usize = 0;
    while i < a.len()
        invariant
            a@.len() == b@.len(),
            i <= a@.len(),
            forall|j: int| 0 <= j < i ==> a@[j] == b@[j],
        decreases a.len() - i,
    {
        if a[i] != b[i] {
            return false;
        }
        i += 1;
    }
    proof {
        assert(a@ =~= b@);
    }
    true
}

// ---------------------------------------------------------------------------------------------
// Which variables are kept
// ---------------------------------------------------------------------------------------------

/// Where the time zone files live.
pub const PATH_ZONEINFO: &'static str = "/usr/share/zoneinfo";

/// The bytes of a string, as UTF-8.
pub open spec fn utf8_of(s: Seq<char>) -> Seq<u8> {
    vstd::utf8::encode_utf8(s)
}

/// An ASCII letter, digit or punctuation mark: a printable character other than the space.
pub open spec fn printable(c: u8) -> bool {
    0x21u8 <= c <= 0x7eu8
}

/// Every byte is an ASCII letter, digit or punctuation mark.
fn is_printable(input: &[u8]) -> (r: bool)
    ensures
        r == forall|i: int| 0 <= i < input@.len() ==> printable(#[trigger] input@[i]),
{
    let mut i: usize = 0;
    while i < input.len()
        invariant
            i <= input@.len(),
            forall|j: int| 0 <= j < i ==> printable(#[trigger] input@[j]),
        decreases input.len() - i,
    {
        if !(0x21u8 <= input[i] && input[i] <= 0x7eu8) {
            return false;
        }
        i += 1;
    }
    true
}

pub open spec fn colon() -> u8 {
    0x3au8
}

pub open spec fn slash() -> u8 {
    0x2fu8
}

/// A `TZ` value without its optional leading colon.
pub open spec fn tz_path(value: Seq<u8>) -> Seq<u8> {
    if value.len() > 0 && value[0] == colon() {
        value.drop_first()
    } else {
        value
    }
}

/// The path has `..` as one of its elements (between slashes, or at either end).
pub open spec fn has_dotdot_element(v: Seq<u8>) -> bool {
    exists|i: int|
        0 <= i && i + 2 <= v.len() && (i == 0 || v[i - 1] == slash()) && #[trigger] v[i] == 0x2eu8
            && v[i + 1] == 0x2eu8 && (i + 2 == v.len() || v[i + 2] == slash())
}

/// A `TZ` value is safe unless it is an absolute path outside the zoneinfo directory, it
/// has a `..` path element, a space or a character that is not printable, or it is not
/// shorter than `path_max` (the colon that may start it not counted).
pub open spec fn safe_tz(value: Seq<u8>, zoneinfo: Seq<u8>, path_max: int) -> bool {
    let v = tz_path(value);
    &&& (v.len() > 0 && v[0] == slash()) ==> (zoneinfo.len() > 0 && v.len() > zoneinfo.len()
        && v.subrange(0, zoneinfo.len() as int) == zoneinfo && v[zoneinfo.len() as int]
        == slash())
    &&& !has_dotdot_element(v)
    &&& forall|i: int| 0 <= i < v.len() ==> printable(#[trigger] v[i])
    &&& v.len() < path_max
}

/// Whether the path has `..` as one of its elements.
fn dotdot_element(v: &[u8]) -> (r: bool)
    ensures
        r == has_dotdot_element(v@),
{
    let mut i: usize = 0;
    while v.len() >= 2 && i <= v.len() - 2
        invariant
            i <= v@.len(),
            forall|j: int|
                0 <= j < i && j + 2 <= v@.len() ==> !((j == 0 || v@[j - 1] == slash()) && #[trigger] v@[j]
                    == 0x2eu8 && v@[j + 1] == 0x2eu8 && (j + 2 == v@.len() || v@[j + 2] == slash())),
        decreases v.len() - i,
    {
        if (i == 0 || v[i - 1] == 0x2fu8) && v[i] == 0x2eu8 && v[i + 1] == 0x2eu8 && (i + 2
            == v.len() || v[i + 2] == 0x2fu8) {
            return true;
        }
        i += 1;
    }
    false
}

fn starts_with_bytes(v: &[u8], prefix: &[u8]) -> (r: bool)
    ensures
        r == (prefix@.len() <= v@.len() && v@.subrange(0, prefix@.len() as int) == prefix@),
{
    if prefix.len() > v.len() {
        return false;
    }
    let mut i: usize = 0;
    while i < prefix.len()
        invariant
            prefix@.len() <= v@.len(),
            i <= prefix@.len(),
            forall|j: int| 0 <= j < i ==> v@[j] == prefix@[j],
        decreases prefix.len() - i,
    {
        if v[i] != prefix[i] {
            proof {
                assert(v@.subrange(0, prefix@.len() as int)[i as int] == v@[i as int]);
            }
            return false;
        }
        i += 1;
    }
    proof {
        assert(v@.subrange(0, prefix@.len() as int) =~= prefix@);
    }
    true
}

/// Whether a `TZ` value is safe to pass on: see `safe_tz`; `path_max` is the system's
/// longest path name (`PATH_MAX`).
pub fn is_safe_tz(value: &[u8], path_max: usize) -> (r: bool)
    ensures
        r == safe_tz(value@, utf8_of(PATH_ZONEINFO@), path_max as int),
{
    let check_value: &[u8] = if value.len() > 0 && value[0] == 0x3au8 {
        vstd::slice::slice_subrange(value, 1, value.len())
    } else {
        value
    };
    proof {
        if value@.len() > 0 && value@[0] == colon() {
            assert(check_value@ =~= value@.drop_first());
        }
    }
    let zoneinfo = PATH_ZONEINFO.as_bytes();
    if check_value.len() > 0 && check_value[0] == 0x2fu8 {
        if zoneinfo.len() > 0 {
            if !starts_with_bytes(check_value, zoneinfo) || check_value.len() <= zoneinfo.len()
                || check_value[zoneinfo.len()] != 0x2fu8 {
                return false;
            }
        } else {
            return false;
        }
    }
    !dotdot_element(check_value) && is_printable(check_value) && check_value.len() < path_max
}

/// How a pattern of `env_keep` or `env_check` matches a variable: `NAME=VALUE` matches the
/// name and the value, a pattern without `=` matches the name; `*` matches any run of bytes.
pub open spec fn pattern_matches(key: Seq<u8>, value: Seq<u8>, pattern: Seq<u8>) -> bool {
    match first_byte(pattern, 0x3du8) {
        Some(i) => wildcard_matches(key, pattern.subrange(0, i)) && wildcard_matches(
            value,
            pattern.subrange(i + 1, pattern.len() as int),
        ),
        None => wildcard_matches(key, pattern),
    }
}

/// The position of the first occurrence of a byte.
pub open spec fn first_byte(s: Seq<u8>, b: u8) -> Option<int> {
    if exists|i: int| 0 <= i < s.len() && s[i] == b {
        Some(choose|i: int| 0 <= i < s.len() && s[i] == b && forall|j: int| 0 <= j < i ==> s[j] != b)
    } else {
        None
    }
}

proof fn lemma_first_byte(s: Seq<u8>, b: u8, i: int)
    requires
        0 <= i <= s.len(),
        forall|j: int| 0 <= j < i ==> s[j] != b,
        i < s.len() ==> s[i] == b,
    ensures
        first_byte(s, b) == (if i < s.len() { Some(i) } else { None::<int> }),
{
    if i < s.len() {
        assert(0 <= i < s.len() && s[i] == b && forall|j: int| 0 <= j < i ==> s[j] != b);
        let k = choose|k: int| 0 <= k < s.len() && s[k] == b && forall|j: int| 0 <= j < k ==> s[j] != b;
        assert(k == i) by {
            if k < i {
                assert(s[k] != b);
            }
            if k > i {
                assert(s[i] != b);
            }
        }
    }
}

/// Some pattern of the table matches the variable.
pub open spec fn in_table_spec(key: Seq<u8>, value: Seq<u8>, table: Seq<String>) -> bool {
    exists|i: int| 0 <= i < table.len() && pattern_matches(key, value, #[trigger] utf8_of(table[i]@))
}

/// Whether some pattern of the table matches the variable.
fn in_table(key: &[u8], value: &[u8], haystack: &Vec<String>) -> (r: bool)
    ensures
        r == in_table_spec(key@, value@, haystack@),
{
    let mut i: usize = 0;
    while i < haystack.len()
        invariant
            i <= haystack@.len(),
            forall|j: int| 0 <= j < i ==> !pattern_matches(key@, value@, #[trigger] utf8_of(haystack@[j]@)),
        decreases haystack.len() - i,
    {
        let pattern = haystack[i].as_str().as_bytes();
        let mut k: usize = 0;
        while k < pattern.len() && pattern[k] != 0x3du8
            invariant
                k <= pattern@.len(),
                forall|j: int| 0 <= j < k ==> pattern@[j] != 0x3du8,
            decreases pattern.len() - k,
        {
            k += 1;
        }
        proof {
            lemma_first_byte(pattern@, 0x3du8, k as int);
        }
        proof {
            assert(pattern@ == utf8_of(haystack@[i as int]@));
        }
        let hit = if k < pattern.len() {
            let name = vstd::slice::slice_subrange(pattern, 0, k);
            let val = vstd::slice::slice_subrange(pattern, k + 1, pattern.len());
            wildcard_match(key, name) && wildcard_match(value, val)
        } else {
            wildcard_match(key, pattern)
        };
        proof {
            assert(hit == pattern_matches(key@, value@, utf8_of(haystack@[i as int]@)));
        }
        if hit {
            return true;
        }
        i += 1;
    }
    false
}

pub open spec fn path_name() -> Seq<u8> {
    seq![0x50u8, 0x41u8, 0x54u8, 0x48u8]
}

pub open spec fn tz_name() -> Seq<u8> {
    seq![0x54u8, 0x5au8]
}

/// Whether a variable of the invoking user's environment is passed on to the command:
/// never a value that starts with `()` (a shell function), nor `PATH` when `secure_path`
/// is set; `TZ` when `env_keep` has it, or `env_check` has it and its value is safe;
/// a variable that `env_check` has when its value holds no `%` and no `/`; else
/// when `env_keep` has it.
pub open spec fn keep_var(
    key: Seq<u8>,
    value: Seq<u8>,
    keep: Seq<String>,
    check: Seq<String>,
    secure_path: bool,
    path_max: int,
) -> bool {
    if value.len() >= 2 && value[0] == 0x28u8 && value[1] == 0x29u8 {
        false
    } else if secure_path && key == path_name() {
        false
    } else if key == tz_name() {
        in_table_spec(key, value, keep) || (in_table_spec(key, value, check) && safe_tz(
            value,
            utf8_of(PATH_ZONEINFO@),
            path_max,
        ))
    } else if in_table_spec(key, value, check) {
        forall|i: int| 0 <= i < value.len() ==> #[trigger] value[i] != 0x25u8 && value[i] != slash()
    } else {
        in_table_spec(key, value, keep)
    }
}

pub open spec fn keeps(cfg: Restrictions, path_max: int, key: Seq<u8>, value: Seq<u8>) -> bool {
    keep_var(key, value, cfg.env_keep@, cfg.env_check@, cfg.path is Some, path_max)
}

fn eq_path(key: &[u8]) -> (r: bool)
    ensures
        r == (key@ == path_name()),
{
    let name: [u8; 4] = [0x50u8, 0x41u8, 0x54u8, 0x48u8];
    proof {
        assert(name@ =~= path_name());
    }
    bytes_eq(key, &name)
}

fn eq_tz(key: &[u8]) -> (r: bool)
    ensures
        r == (key@ == tz_name()),
{
    let name: [u8; 2] = [0x54u8, 0x5au8];
    proof {
        assert(name@ =~= tz_name());
    }
    bytes_eq(key, &name)
}

/// No byte of the value is `%` or `/`.
fn free_of_percent_and_slash(value: &[u8]) -> (r: bool)
    ensures
        r == forall|i: int| 0 <= i < value@.len() ==> #[trigger] value@[i] != 0x25u8 && value@[i] != slash(),
{
    let mut i: usize = 0;
    while i < value.len()
        invariant
            i <= value@.len(),
            forall|j: int| 0 <= j < i ==> #[trigger] value@[j] != 0x25u8 && value@[j] != slash(),
        decreases value.len() - i,
    {
        if value[i] == 0x25u8 || value[i] == 0x2fu8 {
            proof {
                assert(!(value@[i as int] != 0x25u8 && value@[i as int] != slash()));
            }
            return false;
        }
        i += 1;
    }
    true
}

/// Whether a specific environment variable should be kept; `path_max` as for `is_safe_tz`.
pub fn should_keep(key: &[u8], value: &[u8], cfg: &Restrictions, path_max: usize) -> (r: bool)
    ensures
        r == keeps(*cfg, path_max as int, key@, value@),
{
    if value.len() >= 2 && value[0] == 0x28u8 && value[1] == 0x29u8 {
        return false;
    }
    if cfg.path.is_some() && eq_path(key) {
        return false;
    }
    if eq_tz(key) {
        return in_table(key, value, cfg.env_keep) || (in_table(key, value, cfg.env_check)
            && is_safe_tz(value, path_max));
    }
    if in_table(key, value, cfg.env_check) {
        return free_of_percent_and_slash(value);
    }
    in_table(key, value, cfg.env_keep)
}

// ---------------------------------------------------------------------------------------------
// The environment of the command
// ---------------------------------------------------------------------------------------------

/// The search path when none is kept or configured.
pub const PATH_DEFAULT: &'static str = "/usr/bin:/bin:/usr/sbin:/sbin";

/// What the environment of a command depends on: the command and the two users.
pub struct Context {
    pub command: String,
    pub arguments: Vec<String>,
    pub current_uid: UserId,
    pub current_gid: GroupId,
    pub current_name: String,
    pub current_home: String,
    pub target_name: String,
    pub target_shell: String,
    pub target_home: String,
}

pub open spec fn strings_utf8(s: Seq<String>) -> Seq<Seq<u8>> {
    s.map_values(|x: String| utf8_of(x@))
}

/// `SUDO_COMMAND`: the command followed by its arguments, each after a space; an argument
/// that would make it 4096 bytes or longer is left out.
pub open spec fn fmt_command(command: Seq<u8>, args: Seq<Seq<u8>>) -> Seq<u8>
    decreases args.len(),
{
    if args.len() == 0 {
        command
    } else {
        let prev = fmt_command(command, args.drop_last());
        if prev.len() + args.last().len() < 4096 {
            prev + seq![0x20u8] + args.last()
        } else {
            prev
        }
    }
}

/// The decimal digits of a number.
pub open spec fn decimal(n: nat) -> Seq<u8>
    decreases n,
{
    if n < 10 {
        seq![(0x30 + n) as u8]
    } else {
        decimal(n / 10).push((0x30 + n % 10) as u8)
    }
}

fn decimal_bytes(n: u32) -> (v: Vec<u8>)
    ensures
        v@ == decimal(n as nat),
    decreases n,
{
    if n < 10 {
        let mut v: Vec<u8> = Vec::new();
        v.push(0x30u8 + n as u8);
        proof {
            assert(v@ =~= seq![(0x30 + n) as u8]);
        }
        v
    } else {
        let mut v = decimal_bytes(n / 10);
        v.push(0x30u8 + (n % 10) as u8);
        v
    }
}

fn copy_bytes(v: &Vec<u8>) -> (r: Vec<u8>)
    ensures
        r@ == v@,
{
    vstd::slice::slice_to_vec(v.as_slice())
}

fn bytes_of(s: &str) -> (v: Vec<u8>)
    ensures
        v@ == utf8_of(s@),
{
    vstd::slice::slice_to_vec(s.as_bytes())
}

/// Formats the command and arguments passed for the SUDO_COMMAND environment variable.
fn format_command(command: &String, arguments: &Vec<String>) -> (r: Vec<u8>)
    ensures
        r@ == fmt_command(utf8_of(command@), strings_utf8(arguments@)),
{
    let mut formatted = bytes_of(command.as_str());
    let mut i: usize = 0;
    proof {
        assert(strings_utf8(arguments@).take(0) =~= Seq::<Seq<u8>>::empty());
    }
    while i < arguments.len()
        invariant
            i <= arguments@.len(),
            formatted@ == fmt_command(utf8_of(command@), strings_utf8(arguments@).take(i as int)),
        decreases arguments.len() - i,
    {
        let arg = arguments[i].as_str().as_bytes();
        proof {
            assert(strings_utf8(arguments@).take(i + 1).drop_last() =~= strings_utf8(arguments@).take(i as int));
            assert(strings_utf8(arguments@).take(i + 1).last() == arg@);
        }
        if formatted.len() < 4096 && arg.len() < 4096 - formatted.len() {
            formatted.push(0x20u8);
            let mut k: usize = 0;
            let ghost before = formatted@;
            while k < arg.len()
                invariant
                    k <= arg@.len(),
                    formatted@ == before + arg@.take(k as int),
                decreases arg.len() - k,
            {
                formatted.push(arg[k]);
                proof {
                    assert(arg@.take(k + 1) =~= arg@.take(k as int).push(arg@[k as int]));
                }
                k += 1;
            }
            proof {
                assert(arg@.take(arg@.len() as int) =~= arg@);
            }
        }
        i += 1;
    }
    proof {
        assert(strings_utf8(arguments@).take(arguments@.len() as int) =~= strings_utf8(arguments@));
    }
    formatted
}

pub open spec fn set_if_absent(m: Map<Seq<u8>, Seq<u8>>, k: Seq<u8>, v: Seq<u8>) -> Map<
    Seq<u8>,
    Seq<u8>,
> {
    if m.dom().contains(k) {
        m
    } else {
        m.insert(k, v)
    }
}

/// `LOGNAME` and `USER`: both the target user's name when neither is set; the one that is
/// set copied to the other; unchanged when both are.
pub open spec fn with_login_names(m: Map<Seq<u8>, Seq<u8>>, name: Seq<u8>) -> Map<Seq<u8>, Seq<u8>> {
    let logname = utf8_of("LOGNAME"@);
    let user = utf8_of("USER"@);
    if !m.dom().contains(logname) && !m.dom().contains(user) {
        m.insert(logname, name).insert(user, name)
    } else if !m.dom().contains(logname) {
        m.insert(logname, m[user])
    } else if !m.dom().contains(user) {
        m.insert(user, m[logname])
    } else {
        m
    }
}

/// The variables that sudo sets itself, over those kept: `SUDO_COMMAND`, `SUDO_UID`,
/// `SUDO_GID`, `SUDO_USER` and `SUDO_HOME` always; `SHELL` and `HOME` for the target user
/// unless kept; `LOGNAME` and `USER`; `PATH` from `secure_path` when it is set, else a
/// default unless kept; `TERM` unless kept; `PS1` from `SUDO_PS1` when that was set.
pub open spec fn with_extra(
    m: Map<Seq<u8>, Seq<u8>>,
    ctx: Context,
    secure_path: Option<Seq<u8>>,
    sudo_ps1: Option<Seq<u8>>,
) -> Map<Seq<u8>, Seq<u8>> {
    let m1 = m.insert(
        utf8_of("SUDO_COMMAND"@),
        fmt_command(utf8_of(ctx.command@), strings_utf8(ctx.arguments@)),
    ).insert(utf8_of("SUDO_UID"@), decimal(ctx.current_uid.id() as nat)).insert(
        utf8_of("SUDO_GID"@),
        decimal(ctx.current_gid.id() as nat),
    ).insert(utf8_of("SUDO_USER"@), utf8_of(ctx.current_name@)).insert(
        utf8_of("SUDO_HOME"@),
        utf8_of(ctx.current_home@),
    );
    let m3 = set_if_absent(
        set_if_absent(m1, utf8_of("SHELL"@), utf8_of(ctx.target_shell@)),
        utf8_of("HOME"@),
        utf8_of(ctx.target_home@),
    );
    let m4 = with_login_names(m3, utf8_of(ctx.target_name@));
    let m5 = match secure_path {
        Some(p) => m4.insert(utf8_of("PATH"@), p),
        None => m4,
    };
    let m6 = set_if_absent(
        set_if_absent(m5, utf8_of("PATH"@), utf8_of(PATH_DEFAULT@)),
        utf8_of("TERM"@),
        utf8_of("unknown"@),
    );
    match sudo_ps1 {
        Some(v) => m6.insert(utf8_of("PS1"@), v),
        None => m6,
    }
}

/// Construct sudo-specific environment variables.
fn add_extra_env(
    context: &Context,
    cfg: &Restrictions,
    sudo_ps1: Option<Vec<u8>>,
    environment: &mut Environment,
)
    requires
        old(environment).wf(),
    ensures
        final(environment).wf(),
        final(environment)@ == with_extra(
            old(environment)@,
            *context,
            match cfg.path {
                Some(p) => Some(utf8_of(p@)),
                None => None,
            },
            match sudo_ps1 {
                Some(v) => Some(v@),
                None => None,
            },
        ),
{
    let ghost m0 = environment@;
    environment.insert(bytes_of("SUDO_COMMAND"), format_command(&context.command, &context.arguments));
    environment.insert(bytes_of("SUDO_UID"), decimal_bytes(context.current_uid.inner()));
    environment.insert(bytes_of("SUDO_GID"), decimal_bytes(context.current_gid.inner()));
    environment.insert(bytes_of("SUDO_USER"), bytes_of(context.current_name.as_str()));
    environment.insert(bytes_of("SUDO_HOME"), bytes_of(context.current_home.as_str()));
    let ghost m1 = environment@;
    environment.insert_if_absent(bytes_of("SHELL"), bytes_of(context.target_shell.as_str()));
    environment.insert_if_absent(bytes_of("HOME"), bytes_of(context.target_home.as_str()));
    let ghost m3 = environment@;
    let has_logname = environment.contains("LOGNAME".as_bytes());
    let has_user = environment.contains("USER".as_bytes());
    if !has_logname && !has_user {
        environment.insert(bytes_of("LOGNAME"), bytes_of(context.target_name.as_str()));
        environment.insert(bytes_of("USER"), bytes_of(context.target_name.as_str()));
    } else if !has_logname {
        let user = match environment.get("USER".as_bytes()) {
            Some(v) => copy_bytes(v),
            None => Vec::new(),
        };
        environment.insert(bytes_of("LOGNAME"), user);
    } else if !has_user {
        let logname = match environment.get("LOGNAME".as_bytes()) {
            Some(v) => copy_bytes(v),
            None => Vec::new(),
        };
        environment.insert(bytes_of("USER"), logname);
    }
    proof {
        assert(environment@ == with_login_names(m3, utf8_of(context.target_name@)));
    }
    if let Some(secure_path) = cfg.path {
        environment.insert(bytes_of("PATH"), bytes_of(secure_path));
    }
    environment.insert_if_absent(bytes_of("PATH"), bytes_of(PATH_DEFAULT));
    environment.insert_if_absent(bytes_of("TERM"), bytes_of("unknown"));
    if let Some(sudo_ps1_value) = sudo_ps1 {
        environment.insert(bytes_of("PS1"), sudo_ps1_value);
    }
}

/// The variables of `m` that the restrictions let through.
pub open spec fn kept_from(m: Map<Seq<u8>, Seq<u8>>, cfg: Restrictions, path_max: int) -> Map<Seq<u8>, Seq<u8>> {
    Map::new(|k: Seq<u8>| m.dom().contains(k) && keeps(cfg, path_max, k, m[k]), |k: Seq<u8>| m[k])
}

/// The variables that the user asked for on the command line, as far as they are allowed,
/// later ones winning.
pub open spec fn with_overrides(
    m: Map<Seq<u8>, Seq<u8>>,
    overrides: Seq<(String, String)>,
    cfg: Restrictions,
    path_max: int,
) -> Map<Seq<u8>, Seq<u8>>
    decreases overrides.len(),
{
    if overrides.len() == 0 {
        m
    } else {
        let prev = with_overrides(m, overrides.drop_last(), cfg, path_max);
        let (k, v) = overrides.last();
        if keeps(cfg, path_max, utf8_of(k@), utf8_of(v@)) {
            prev.insert(utf8_of(k@), utf8_of(v@))
        } else {
            prev
        }
    }
}

/// The names of the variables that the user asked for but may not set, in order.
pub open spec fn refused(overrides: Seq<(String, String)>, cfg: Restrictions, path_max: int) -> Seq<Seq<char>>
    decreases overrides.len(),
{
    if overrides.len() == 0 {
        Seq::empty()
    } else {
        let prev = refused(overrides.drop_last(), cfg, path_max);
        let (k, v) = overrides.last();
        if keeps(cfg, path_max, utf8_of(k@), utf8_of(v@)) {
            prev
        } else {
            prev.push(k@)
        }
    }
}

pub open spec fn sudo_ps1_of(m: Map<Seq<u8>, Seq<u8>>) -> Option<Seq<u8>> {
    if m.dom().contains(utf8_of("SUDO_PS1"@)) {
        Some(m[utf8_of("SUDO_PS1"@)])
    } else {
        None
    }
}

/// A value that starts with `()`: a shell function.
pub open spec fn is_function(v: Seq<u8>) -> bool {
    v.len() >= 2 && v[0] == 0x28u8 && v[1] == 0x29u8
}

/// The variables whose value is not a shell function.
pub open spec fn without_functions(m: Map<Seq<u8>, Seq<u8>>) -> Map<Seq<u8>, Seq<u8>> {
    Map::new(|k: Seq<u8>| m.dom().contains(k) && !is_function(m[k]), |k: Seq<u8>| m[k])
}

/// The variables before the shell functions are taken out: the additional variables, then
/// the variables of the invoking user that the restrictions let through, then those that
/// sudo sets itself.
pub open spec fn sudo_environment(
    current: Map<Seq<u8>, Seq<u8>>,
    additional: Map<Seq<u8>, Seq<u8>>,
    ctx: Context,
    cfg: Restrictions,
    path_max: int,
) -> Map<Seq<u8>, Seq<u8>> {
    let base = additional.union_prefer_right(kept_from(current, cfg, path_max));
    let secure_path = match cfg.path {
        Some(p) => Some(utf8_of(p@)),
        None => None,
    };
    with_extra(base, ctx, secure_path, sudo_ps1_of(current))
}

/// The environment of the command: `sudo_environment` less every variable whose value
/// starts with `()`, then the allowed variables that the user asked for.
pub open spec fn target_environment(
    current: Map<Seq<u8>, Seq<u8>>,
    additional: Map<Seq<u8>, Seq<u8>>,
    overrides: Seq<(String, String)>,
    ctx: Context,
    cfg: Restrictions,
    path_max: int,
) -> Map<Seq<u8>, Seq<u8>> {
    with_overrides(
        without_functions(sudo_environment(current, additional, ctx, cfg, path_max)),
        overrides,
        cfg,
        path_max,
    )
}

/// The environment less the variables whose value starts with `()`.
fn strip_functions(env: &Environment) -> (r: Environment)
    requires
        env.wf(),
    ensures
        r.wf(),
        r@ == without_functions(env@),
{
    let entries = env.entries_vec();
    let ghost es = env.entries();
    let mut result = Environment::new();
    let mut i: usize = 0;
    proof {
        assert(without_functions(env_map(es.take(0))) =~= Map::<Seq<u8>, Seq<u8>>::empty());
    }
    while i < entries.len()
        invariant
            result.wf(),
            env.wf(),
            es == env.entries(),
            entries@.map_values(|p: (Vec<u8>, Vec<u8>)| pair_view(p)) == es,
            i <= entries@.len(),
            result@ == without_functions(env_map(es.take(i as int))),
        decreases entries.len() - i,
    {
        let key = entries[i].0.as_slice();
        let value = entries[i].1.as_slice();
        proof {
            assert(es[i as int] == (key@, value@));
            lemma_env_map_take(es, i as int);
        }
        let ghost before = without_functions(env_map(es.take(i as int)));
        if !(value.len() >= 2 && value[0] == 0x28u8 && value[1] == 0x29u8) {
            result.insert(copy_bytes(&entries[i].0), copy_bytes(&entries[i].1));
            proof {
                assert(without_functions(env_map(es.take(i + 1))) =~= before.insert(key@, value@));
            }
        } else {
            proof {
                assert(without_functions(env_map(es.take(i + 1))) =~= before);
            }
        }
        i += 1;
    }
    proof {
        assert(es.take(entries@.len() as int) =~= es);
    }
    result
}

proof fn lemma_env_map_take(s: Seq<(Seq<u8>, Seq<u8>)>, i: int)
    requires
        distinct_keys(s),
        0 <= i < s.len(),
    ensures
        env_map(s.take(i + 1)) == env_map(s.take(i)).insert(s[i].0, s[i].1),
        !env_map(s.take(i)).dom().contains(s[i].0),
{
    assert(s.take(i + 1).drop_last() =~= s.take(i));
    lemma_env_map_dom(s.take(i), s[i].0);
    if env_map(s.take(i)).dom().contains(s[i].0) {
        let j = choose|j: int| 0 <= j < s.take(i).len() && #[trigger] s.take(i)[j].0 == s[i].0;
        assert(s[j].0 == s[i].0);
    }
}

/// Construct the final environment from the current one and a sudo context: the
/// environment of `target_environment`, or the names of the variables that the user asked
/// for and may not set.
pub fn get_target_environment(
    current_env: &Environment,
    additional_env: Environment,
    user_override: Vec<(String, String)>,
    context: &Context,
    settings: &Restrictions,
    path_max: usize,
) -> (r: Result<Environment, Vec<String>>)
    requires
        current_env.wf(),
        additional_env.wf(),
    ensures
        match r {
            Ok(env) => refused(user_override@, *settings, path_max as int).len() == 0 && env.wf()
                && env@ == target_environment(
                current_env@,
                additional_env@,
                user_override@,
                *context,
                *settings,
                path_max as int,
            ),
            Err(names) => refused(user_override@, *settings, path_max as int).len() > 0
                && names@.map_values(|n: String| n@) == refused(
                user_override@,
                *settings,
                path_max as int,
            ),
        },
{
    let sudo_ps1 = match current_env.get("SUDO_PS1".as_bytes()) {
        Some(v) => Some(copy_bytes(v)),
        None => None,
    };
    let mut environment = additional_env;
    let entries = current_env.entries_vec();
    let ghost es = current_env.entries();
    let ghost add = environment@;
    let mut i: usize = 0;
    proof {
        assert(es.take(0) =~= Seq::<(Seq<u8>, Seq<u8>)>::empty());
        assert(kept_from(env_map(es.take(0)), *settings, path_max as int) =~= Map::<Seq<u8>, Seq<u8>>::empty());
        assert(add.union_prefer_right(Map::<Seq<u8>, Seq<u8>>::empty()) =~= add);
    }
    while i < entries.len()
        invariant
            environment.wf(),
            current_env.wf(),
            es == current_env.entries(),
            entries@.map_values(|p: (Vec<u8>, Vec<u8>)| pair_view(p)) == es,
            i <= entries@.len(),
            environment@ == add.union_prefer_right(kept_from(env_map(es.take(i as int)), *settings, path_max as int)),
        decreases entries.len() - i,
    {
        let key = entries[i].0.as_slice();
        let value = entries[i].1.as_slice();
        proof {
            assert(es[i as int] == (key@, value@));
            lemma_env_map_take(es, i as int);
        }
        let ghost before = kept_from(env_map(es.take(i as int)), *settings, path_max as int);
        if should_keep(key, value, settings, path_max) {
            environment.insert(copy_bytes(&entries[i].0), copy_bytes(&entries[i].1));
            proof {
                assert(kept_from(env_map(es.take(i + 1)), *settings, path_max as int) =~= before.insert(key@, value@));
                assert(add.union_prefer_right(before.insert(key@, value@)) =~= add.union_prefer_right(before).insert(key@, value@));
            }
        } else {
            proof {
                assert(kept_from(env_map(es.take(i + 1)), *settings, path_max as int) =~= before);
            }
        }
        i += 1;
    }
    proof {
        assert(es.take(entries@.len() as int) =~= es);
    }
    add_extra_env(context, settings, sudo_ps1, &mut environment);
    let mut environment = strip_functions(&environment);
    let mut rejected_vars: Vec<String> = Vec::new();
    let ghost extra = environment@;
    let mut j: usize = 0;
    proof {
        assert(user_override@.take(0) =~= Seq::<(String, String)>::empty());
        assert(rejected_vars@.map_values(|n: String| n@) =~= Seq::<Seq<char>>::empty());
    }
    while j < user_override.len()
        invariant
            environment.wf(),
            j <= user_override@.len(),
            environment@ == with_overrides(extra, user_override@.take(j as int), *settings, path_max as int),
            rejected_vars@.map_values(|n: String| n@) == refused(user_override@.take(j as int), *settings, path_max as int),
        decreases user_override.len() - j,
    {
        let key = &user_override[j].0;
        let value = &user_override[j].1;
        proof {
            assert(user_override@.take(j + 1).drop_last() =~= user_override@.take(j as int));
            assert(user_override@.take(j + 1).last() == user_override@[j as int]);
        }
        if should_keep(key.as_str().as_bytes(), value.as_str().as_bytes(), settings, path_max) {
            environment.insert(bytes_of(key.as_str()), bytes_of(value.as_str()));
        } else {
            let ghost before = rejected_vars@;
            rejected_vars.push(key.clone());
            proof {
                assert(rejected_vars@.map_values(|n: String| n@) =~= before.map_values(|n: String| n@).push(key@));
            }
        }
        j += 1;
    }
    proof {
        assert(user_override@.take(user_override@.len() as int) =~= user_override@);
    }
    if rejected_vars.len() > 0 {
        return Err(rejected_vars);
    }
    Ok(environment)
}

/// Every pair set in order, later ones winning.
pub open spec fn with_all(m: Map<Seq<u8>, Seq<u8>>, vars: Seq<(String, String)>) -> Map<
    Seq<u8>,
    Seq<u8>,
>
    decreases vars.len(),
{
    if vars.len() == 0 {
        m
    } else {
        with_all(m, vars.drop_last()).insert(utf8_of(vars.last().0@), utf8_of(vars.last().1@))
    }
}

/// Extend the environment with user-supplied info, without any check.
pub fn dangerous_extend(env: &mut Environment, user_override: Vec<(String, String)>)
    requires
        old(env).wf(),
    ensures
        final(env).wf(),
        final(env)@ == with_all(old(env)@, user_override@),
{
    let ghost start = env@;
    let mut j: usize = 0;
    proof {
        assert(user_override@.take(0) =~= Seq::<(String, String)>::empty());
    }
    while j < user_override.len()
        invariant
            env.wf(),
            j <= user_override@.len(),
            env@ == with_all(start, user_override@.take(j as int)),
        decreases user_override.len() - j,
    {
        proof {
            assert(user_override@.take(j + 1).drop_last() =~= user_override@.take(j as int));
            assert(user_override@.take(j + 1).last() == user_override@[j as int]);
        }
        env.insert(bytes_of(user_override[j].0.as_str()), bytes_of(user_override[j].1.as_str()));
        j += 1;
    }
    proof {
        assert(user_override@.take(user_override@.len() as int) =~= user_override@);
    }
}

// ---------------------------------------------------------------------------------------------
// Laws
// ---------------------------------------------------------------------------------------------

proof fn lemma_overrides_keep(
    m: Map<Seq<u8>, Seq<u8>>,
    overrides: Seq<(String, String)>,
    cfg: Restrictions,
    path_max: int,
    k: Seq<u8>,
)
    ensures
        m.dom().contains(k) ==> with_overrides(m, overrides, cfg, path_max).dom().contains(k),
        (cfg.path is Some && k == path_name()) ==> with_overrides(m, overrides, cfg, path_max).dom().contains(k)
            == m.dom().contains(k) && (m.dom().contains(k) ==> with_overrides(m, overrides, cfg, path_max)[k]
            == m[k]),
    decreases overrides.len(),
{
    if overrides.len() > 0 {
        lemma_overrides_keep(m, overrides.drop_last(), cfg, path_max, k);
    }
}

proof fn lemma_overrides_no_functions(
    m: Map<Seq<u8>, Seq<u8>>,
    overrides: Seq<(String, String)>,
    cfg: Restrictions,
    path_max: int,
)
    requires
        forall|k: Seq<u8>| #[trigger] m.dom().contains(k) ==> !is_function(m[k]),
    ensures
        forall|k: Seq<u8>|
            #[trigger] with_overrides(m, overrides, cfg, path_max).dom().contains(k) ==> !is_function(
                with_overrides(m, overrides, cfg, path_max)[k],
            ),
    decreases overrides.len(),
{
    if overrides.len() > 0 {
        lemma_overrides_no_functions(m, overrides.drop_last(), cfg, path_max);
        let prev = with_overrides(m, overrides.drop_last(), cfg, path_max);
        let (k, v) = overrides.last();
        if keeps(cfg, path_max, utf8_of(k@), utf8_of(v@)) {
            assert(!is_function(utf8_of(v@)));
            assert forall|x: Seq<u8>| #[trigger] prev.insert(utf8_of(k@), utf8_of(v@)).dom().contains(x)
                implies !is_function(prev.insert(utf8_of(k@), utf8_of(v@))[x]) by {
                if x != utf8_of(k@) {
                    assert(prev.dom().contains(x));
                }
            }
        }
    }
}

proof fn lemma_path_name()
    ensures
        utf8_of("PATH"@) == path_name(),
{
    reveal_strlit("PATH");
    assert(vstd::utf8::is_ascii_chars("PATH"@));
    vstd::utf8::is_ascii_chars_encode_utf8("PATH"@);
    assert(utf8_of("PATH"@) =~= path_name());
}

/// The names that sudo always sets.
pub open spec fn always_set(env: Map<Seq<u8>, Seq<u8>>) -> bool {
    &&& env.dom().contains(utf8_of("SUDO_COMMAND"@))
    &&& env.dom().contains(utf8_of("SUDO_UID"@))
    &&& env.dom().contains(utf8_of("SUDO_GID"@))
    &&& env.dom().contains(utf8_of("SUDO_USER"@))
    &&& env.dom().contains(utf8_of("SUDO_HOME"@))
    &&& env.dom().contains(utf8_of("SHELL"@))
    &&& env.dom().contains(utf8_of("HOME"@))
    &&& env.dom().contains(utf8_of("LOGNAME"@))
    &&& env.dom().contains(utf8_of("USER"@))
    &&& env.dom().contains(utf8_of("PATH"@))
    &&& env.dom().contains(utf8_of("TERM"@))
}

proof fn lemma_extra_sets(
    m: Map<Seq<u8>, Seq<u8>>,
    ctx: Context,
    secure_path: Option<Seq<u8>>,
    sudo_ps1: Option<Seq<u8>>,
)
    ensures
        always_set(with_extra(m, ctx, secure_path, sudo_ps1)),
        secure_path matches Some(p) ==> with_extra(m, ctx, secure_path, sudo_ps1)[utf8_of(
            "PATH"@,
        )] == p || utf8_of("PS1"@) == utf8_of("PATH"@),
{
}

/// Before the shell functions are taken out, sudo has set `SUDO_COMMAND`, `SUDO_UID`,
/// `SUDO_GID`, `SUDO_USER`, `SUDO_HOME`, `SHELL`, `HOME`, `LOGNAME`, `USER`, `PATH` and
/// `TERM`; every variable it holds then reaches the command unless its value starts with
/// `()`; when `secure_path` is set (and is no shell function), `PATH` is that path, whatever
/// the user's environment and command line held.
pub proof fn law_target_environment_sets(
    current: Map<Seq<u8>, Seq<u8>>,
    additional: Map<Seq<u8>, Seq<u8>>,
    overrides: Seq<(String, String)>,
    ctx: Context,
    cfg: Restrictions,
    path_max: int,
)
    ensures
        always_set(sudo_environment(current, additional, ctx, cfg, path_max)),
        forall|n: Seq<u8>|
            #[trigger] sudo_environment(current, additional, ctx, cfg, path_max).dom().contains(n)
                && !is_function(sudo_environment(current, additional, ctx, cfg, path_max)[n])
                ==> target_environment(current, additional, overrides, ctx, cfg, path_max).dom().contains(n),
        cfg.path matches Some(p) ==> (!is_function(utf8_of(p@)) ==> target_environment(
            current,
            additional,
            overrides,
            ctx,
            cfg,
            path_max,
        )[utf8_of("PATH"@)] == utf8_of(p@)),
{
    let base = additional.union_prefer_right(kept_from(current, cfg, path_max));
    let secure_path = match cfg.path {
        Some(p) => Some(utf8_of(p@)),
        None => None,
    };
    let extra = sudo_environment(current, additional, ctx, cfg, path_max);
    let stripped = without_functions(extra);
    lemma_extra_sets(base, ctx, secure_path, sudo_ps1_of(current));
    assert forall|n: Seq<u8>|
        #[trigger] extra.dom().contains(n) && !is_function(extra[n]) implies target_environment(
        current,
        additional,
        overrides,
        ctx,
        cfg,
        path_max,
    ).dom().contains(n) by {
        assert(stripped.dom().contains(n));
        lemma_overrides_keep(stripped, overrides, cfg, path_max, n);
    }
    lemma_path_name();
    lemma_overrides_keep(stripped, overrides, cfg, path_max, utf8_of("PATH"@));
    if cfg.path is Some {
        reveal_strlit("PS1");
        reveal_strlit("PATH");
        assert("PS1"@ != "PATH"@);
        assert(utf8_of("PS1"@) != utf8_of("PATH"@)) by {
            vstd::utf8::encode_utf8_decode_utf8("PS1"@);
            vstd::utf8::encode_utf8_decode_utf8("PATH"@);
        }
    }
}

/// A variable whose value starts with `()` (a shell function) is never passed on from the
/// invoking user's environment nor from the command line, and no variable of the command's
/// environment starts with `()`.
pub proof fn law_shell_functions_removed(
    cfg: Restrictions,
    path_max: int,
    key: Seq<u8>,
    value: Seq<u8>,
    current: Map<Seq<u8>, Seq<u8>>,
    additional: Map<Seq<u8>, Seq<u8>>,
    overrides: Seq<(String, String)>,
    ctx: Context,
)
    requires
        is_function(value),
    ensures
        !keeps(cfg, path_max, key, value),
        !kept_from(Map::empty().insert(key, value), cfg, path_max).dom().contains(key),
        forall|n: Seq<u8>|
            #[trigger] target_environment(current, additional, overrides, ctx, cfg, path_max).dom().contains(n)
                ==> !is_function(target_environment(current, additional, overrides, ctx, cfg, path_max)[n]),
{
    let stripped = without_functions(sudo_environment(current, additional, ctx, cfg, path_max));
    lemma_overrides_no_functions(stripped, overrides, cfg, path_max);
}


/// A variable that no argument of the command line names keeps what it had.
proof fn lemma_overrides_unnamed(
    m: Map<Seq<u8>, Seq<u8>>,
    overrides: Seq<(String, String)>,
    cfg: Restrictions,
    path_max: int,
    k: Seq<u8>,
)
    requires
        forall|j: int| 0 <= j < overrides.len() ==> utf8_of(#[trigger] overrides[j].0@) != k,
    ensures
        with_overrides(m, overrides, cfg, path_max).dom().contains(k) == m.dom().contains(k),
        m.dom().contains(k) ==> with_overrides(m, overrides, cfg, path_max)[k] == m[k],
    decreases overrides.len(),
{
    if overrides.len() > 0 {
        let front = overrides.drop_last();
        assert forall|j: int| 0 <= j < front.len() implies utf8_of(#[trigger] front[j].0@) != k by {
            assert(front[j] == overrides[j]);
        }
        lemma_overrides_unnamed(m, front, cfg, path_max, k);
        assert(overrides.last() == overrides[overrides.len() - 1]);
    }
}

/// The names whose value sudo sets over whatever was kept: `SUDO_COMMAND`, `SUDO_UID`,
/// `SUDO_GID`, `SUDO_USER` and `SUDO_HOME`; `PATH` when `secure_path` is set; `PS1` when the
/// invoking user's environment has `SUDO_PS1`.
pub open spec fn overwritten_by_sudo(k: Seq<u8>, current: Map<Seq<u8>, Seq<u8>>, cfg: Restrictions) -> bool {
    ||| k == utf8_of("SUDO_COMMAND"@)
    ||| k == utf8_of("SUDO_UID"@)
    ||| k == utf8_of("SUDO_GID"@)
    ||| k == utf8_of("SUDO_USER"@)
    ||| k == utf8_of("SUDO_HOME"@)
    ||| (cfg.path is Some && k == utf8_of("PATH"@))
    ||| (current.dom().contains(utf8_of("SUDO_PS1"@)) && k == utf8_of("PS1"@))
}

/// Variables kept from the invoking user's environment come before the additional
/// environment (that of the session): a variable of the user's environment that the
/// restrictions let through, that sudo does not set itself and that the command line does not
/// name reaches the command with the user's value, whatever the additional environment holds.
pub proof fn law_kept_variables_win(
    current: Map<Seq<u8>, Seq<u8>>,
    additional: Map<Seq<u8>, Seq<u8>>,
    overrides: Seq<(String, String)>,
    ctx: Context,
    cfg: Restrictions,
    path_max: int,
    k: Seq<u8>,
)
    requires
        current.dom().contains(k),
        keeps(cfg, path_max, k, current[k]),
        !overwritten_by_sudo(k, current, cfg),
        forall|j: int| 0 <= j < overrides.len() ==> utf8_of(#[trigger] overrides[j].0@) != k,
    ensures
        target_environment(current, additional, overrides, ctx, cfg, path_max).dom().contains(k),
        target_environment(current, additional, overrides, ctx, cfg, path_max)[k] == current[k],
{
    if is_function(current[k]) {
        law_shell_functions_removed(cfg, path_max, k, current[k], current, additional, overrides, ctx);
    }
    let base = additional.union_prefer_right(kept_from(current, cfg, path_max));
    assert(base.dom().contains(k) && base[k] == current[k]);
    let extra = sudo_environment(current, additional, ctx, cfg, path_max);
    assert(extra.dom().contains(k) && extra[k] == current[k]);
    let stripped = without_functions(extra);
    assert(stripped.dom().contains(k) && stripped[k] == current[k]);
    lemma_overrides_unnamed(stripped, overrides, cfg, path_max, k);
}


proof fn lemma_utf8_injective(a: Seq<char>, b: Seq<char>)
    ensures
        utf8_of(a) == utf8_of(b) ==> a == b,
{
    vstd::utf8::encode_utf8_decode_utf8(a);
    vstd::utf8::encode_utf8_decode_utf8(b);
}

/// sudo tells the command who ran it: `SUDO_COMMAND` holds the command line, `SUDO_UID` and
/// `SUDO_GID` the invoking user's ids in decimal, `SUDO_USER` its name and `SUDO_HOME` its
/// home directory, whatever the invoking user's and the additional environment held; and a
/// variable that sudo set reaches the command as it was set, unless its value starts with `()`
/// or the command line names it.
pub proof fn law_sudo_variables(
    current: Map<Seq<u8>, Seq<u8>>,
    additional: Map<Seq<u8>, Seq<u8>>,
    overrides: Seq<(String, String)>,
    ctx: Context,
    cfg: Restrictions,
    path_max: int,
)
    ensures
        sudo_environment(current, additional, ctx, cfg, path_max)[utf8_of("SUDO_COMMAND"@)] == fmt_command(
            utf8_of(ctx.command@),
            strings_utf8(ctx.arguments@),
        ),
        sudo_environment(current, additional, ctx, cfg, path_max)[utf8_of("SUDO_UID"@)] == decimal(
            ctx.current_uid.id() as nat,
        ),
        sudo_environment(current, additional, ctx, cfg, path_max)[utf8_of("SUDO_GID"@)] == decimal(
            ctx.current_gid.id() as nat,
        ),
        sudo_environment(current, additional, ctx, cfg, path_max)[utf8_of("SUDO_USER"@)] == utf8_of(ctx.current_name@),
        sudo_environment(current, additional, ctx, cfg, path_max)[utf8_of("SUDO_HOME"@)] == utf8_of(ctx.current_home@),
        forall|k: Seq<u8>|
            #![trigger target_environment(current, additional, overrides, ctx, cfg, path_max)[k]]
            sudo_environment(current, additional, ctx, cfg, path_max).dom().contains(k) && !is_function(
                sudo_environment(current, additional, ctx, cfg, path_max)[k],
            ) && (forall|j: int| 0 <= j < overrides.len() ==> utf8_of(#[trigger] overrides[j].0@) != k)
                ==> target_environment(current, additional, overrides, ctx, cfg, path_max)[k] == sudo_environment(
                current,
                additional,
                ctx,
                cfg,
                path_max,
            )[k],
{
    reveal_strlit("SUDO_COMMAND");
    reveal_strlit("SUDO_UID");
    reveal_strlit("SUDO_GID");
    reveal_strlit("SUDO_USER");
    reveal_strlit("SUDO_HOME");
    reveal_strlit("PATH");
    reveal_strlit("PS1");
    assert("SUDO_UID"@[5] != "SUDO_GID"@[5]);
    assert("SUDO_USER"@[5] != "SUDO_HOME"@[5]);
    let names = seq!["SUDO_COMMAND"@, "SUDO_UID"@, "SUDO_GID"@, "SUDO_USER"@, "SUDO_HOME"@, "PATH"@, "PS1"@];
    assert forall|i: int, j: int| 0 <= i < j < 7 implies utf8_of(names[i]) != utf8_of(names[j]) by {
        lemma_utf8_injective(names[i], names[j]);
        assert(names[i] != names[j]) by {
            if names[i].len() == names[j].len() {
                assert(names[i][5] != names[j][5]);
            }
        }
    }
    assert(utf8_of(names[0]) != utf8_of(names[5]));
    assert(utf8_of(names[1]) != utf8_of(names[5]));
    assert(utf8_of(names[2]) != utf8_of(names[5]));
    assert(utf8_of(names[3]) != utf8_of(names[5]));
    assert(utf8_of(names[4]) != utf8_of(names[5]));
    assert(utf8_of(names[0]) != utf8_of(names[6]));
    assert(utf8_of(names[1]) != utf8_of(names[6]));
    assert(utf8_of(names[2]) != utf8_of(names[6]));
    assert(utf8_of(names[3]) != utf8_of(names[6]));
    assert(utf8_of(names[4]) != utf8_of(names[6]));
    assert(utf8_of(names[0]) != utf8_of(names[1]));
    assert(utf8_of(names[0]) != utf8_of(names[2]));
    assert(utf8_of(names[0]) != utf8_of(names[3]));
    assert(utf8_of(names[0]) != utf8_of(names[4]));
    assert(utf8_of(names[1]) != utf8_of(names[2]));
    assert(utf8_of(names[1]) != utf8_of(names[3]));
    assert(utf8_of(names[1]) != utf8_of(names[4]));
    assert(utf8_of(names[2]) != utf8_of(names[3]));
    assert(utf8_of(names[2]) != utf8_of(names[4]));
    assert(utf8_of(names[3]) != utf8_of(names[4]));
    let extra = sudo_environment(current, additional, ctx, cfg, path_max);
    let stripped = without_functions(extra);
    assert forall|k: Seq<u8>|
        #![trigger target_environment(current, additional, overrides, ctx, cfg, path_max)[k]]
        extra.dom().contains(k) && !is_function(extra[k]) && (forall|j: int|
            0 <= j < overrides.len() ==> utf8_of(#[trigger] overrides[j].0@) != k) implies target_environment(
        current,
        additional,
        overrides,
        ctx,
        cfg,
        path_max,
    )[k] == extra[k] by {
        assert(stripped.dom().contains(k) && stripped[k] == extra[k]);
        lemma_overrides_unnamed(stripped, overrides, cfg, path_max, k);
    }
}


/// The additional environment (that of the session) reaches the command where nothing comes
/// before it: a variable that it holds, that is not kept from the invoking user's environment,
/// that sudo does not set itself, whose value does not start with `()` and that the command
/// line does not name, reaches the command with the additional environment's value.
pub proof fn law_additional_variables_pass(
    current: Map<Seq<u8>, Seq<u8>>,
    additional: Map<Seq<u8>, Seq<u8>>,
    overrides: Seq<(String, String)>,
    ctx: Context,
    cfg: Restrictions,
    path_max: int,
    k: Seq<u8>,
)
    requires
        additional.dom().contains(k),
        !kept_from(current, cfg, path_max).dom().contains(k),
        !overwritten_by_sudo(k, current, cfg),
        !is_function(additional[k]),
        forall|j: int| 0 <= j < overrides.len() ==> utf8_of(#[trigger] overrides[j].0@) != k,
    ensures
        target_environment(current, additional, overrides, ctx, cfg, path_max).dom().contains(k),
        target_environment(current, additional, overrides, ctx, cfg, path_max)[k] == additional[k],
{
    let base = additional.union_prefer_right(kept_from(current, cfg, path_max));
    assert(base.dom().contains(k) && base[k] == additional[k]);
    let extra = sudo_environment(current, additional, ctx, cfg, path_max);
    assert(extra.dom().contains(k) && extra[k] == additional[k]);
    let stripped = without_functions(extra);
    assert(stripped.dom().contains(k) && stripped[k] == additional[k]);
    lemma_overrides_unnamed(stripped, overrides, cfg, path_max, k);
}

} // verus!
