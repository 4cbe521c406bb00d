//! Matching of environment variable names and values against patterns.

use vstd::prelude::*;

verus! {

pub open spec fn is_star(c: u8) -> bool {
    c == 42u8
}

/// `test` matches `pattern`, where every `*` in the pattern matches zero or more bytes and
/// every other byte of the pattern matches itself.
pub open spec fn wildcard_matches(test: Seq<u8>, pattern: Seq<u8>) -> bool
    decreases pattern.len(), test.len(),
{
    if pattern.len() == 0 {
        test.len() == 0
    } else if is_star(pattern[0]) {
        wildcard_matches(test, pattern.drop_first()) || (test.len() > 0 && wildcard_matches(
            test.drop_first(),
            pattern,
        ))
    } else {
        test.len() > 0 && test[0] == pattern[0] && wildcard_matches(
            test.drop_first(),
            pattern.drop_first(),
        )
    }
}

/// The suffixes `t[k..]` and `p[j..]` match.
spec fn m(t: Seq<u8>, p: Seq<u8>, k: int, j: int) -> bool {
    wildcard_matches(t.skip(k), p.skip(j))
}

/// Some suffix `t[k2..]` with `k <= k2` matches `p[j..]`.
spec fn m_from(t: Seq<u8>, p: Seq<u8>, k: int, j: int) -> bool {
    exists|k2: int| k <= k2 <= t.len() && #[trigger] m(t, p, k2, j)
}

/// The number of bytes of the pattern that are not `*`.
spec fn lits(p: Seq<u8>) -> nat
    decreases p.len(),
{
    if p.len() == 0 {
        0
    } else {
        (if is_star(p[0]) { 0nat } else { 1nat }) + lits(p.drop_first())
    }
}

proof fn lemma_unfold(t: Seq<u8>, p: Seq<u8>, k: int, j: int)
    requires
        0 <= k <= t.len(),
        0 <= j <= p.len(),
    ensures
        j == p.len() ==> (m(t, p, k, j) <==> k == t.len()),
        j < p.len() && is_star(p[j]) ==> (m(t, p, k, j) <==> (m(t, p, k, j + 1) || (k < t.len()
            && m(t, p, k + 1, j)))),
        j < p.len() && !is_star(p[j]) ==> (m(t, p, k, j) <==> (k < t.len() && t[k] == p[j] && m(
            t,
            p,
            k + 1,
            j + 1,
        ))),
        j < p.len() ==> lits(p.skip(j)) == (if is_star(p[j]) { 0nat } else { 1nat }) + lits(
            p.skip(j + 1),
        ),
{
    if k < t.len() {
        assert(t.skip(k).drop_first() =~= t.skip(k + 1));
    }
    if j < p.len() {
        assert(p.skip(j).drop_first() =~= p.skip(j + 1));
    }
}

/// A star matches any amount of the text.
proof fn lemma_star(t: Seq<u8>, p: Seq<u8>, k: int, j: int)
    requires
        0 <= k <= t.len(),
        0 <= j < p.len(),
        is_star(p[j]),
    ensures
        m(t, p, k, j) <==> m_from(t, p, k, j + 1),
    decreases t.len() - k,
{
    lemma_unfold(t, p, k, j);
    if k < t.len() {
        lemma_star(t, p, k + 1, j);
        if m_from(t, p, k + 1, j + 1) {
            let k2 = choose|k2: int| k + 1 <= k2 <= t.len() && #[trigger] m(t, p, k2, j + 1);
            assert(k <= k2 <= t.len() && m(t, p, k2, j + 1));
        }
        if m_from(t, p, k, j + 1) {
            let k2 = choose|k2: int| k <= k2 <= t.len() && #[trigger] m(t, p, k2, j + 1);
            if k2 > k {
                assert(k + 1 <= k2 <= t.len() && m(t, p, k2, j + 1));
            }
        }
    } else {
        if m_from(t, p, k, j + 1) {
            let k2 = choose|k2: int| k <= k2 <= t.len() && #[trigger] m(t, p, k2, j + 1);
            assert(k2 == k);
        }
        if m(t, p, k, j + 1) {
            assert(k <= k <= t.len() && m(t, p, k, j + 1));
        }
    }
}

/// A matching text is at least as long as the number of non-star bytes of the pattern.
proof fn lemma_lits(t: Seq<u8>, p: Seq<u8>, k: int, j: int)
    requires
        0 <= k <= t.len(),
        0 <= j <= p.len(),
        m(t, p, k, j),
    ensures
        t.len() - k >= lits(p.skip(j)),
    decreases p.len() - j, t.len() - k,
{
    lemma_unfold(t, p, k, j);
    if j == p.len() {
        assert(p.skip(j) =~= Seq::<u8>::empty());
    } else if is_star(p[j]) {
        if m(t, p, k, j + 1) {
            lemma_lits(t, p, k, j + 1);
        } else {
            lemma_lits(t, p, k + 1, j);
        }
    } else {
        lemma_lits(t, p, k + 1, j + 1);
    }
}

/// A run of `n` non-star pattern bytes consumes exactly `n` bytes of text.
proof fn lemma_literal_run(t: Seq<u8>, p: Seq<u8>, k: int, j: int, n: int)
    requires
        0 <= k <= t.len(),
        0 <= j,
        0 <= n,
        j + n <= p.len(),
        forall|i: int| j <= i < j + n ==> !is_star(#[trigger] p[i]),
        m(t, p, k, j),
    ensures
        k + n <= t.len(),
        m(t, p, k + n, j + n),
    decreases n,
{
    if n > 0 {
        lemma_unfold(t, p, k, j);
        assert(!is_star(p[j]));
        lemma_literal_run(t, p, k + 1, j + 1, n - 1);
    }
}

/// Match a test input with a pattern
/// Only wildcard characters (*) in the pattern string have a special meaning: they match on zero or more characters
pub fn wildcard_match(test: &[u8], pattern: &[u8]) -> (res: bool)
    ensures
        res == wildcard_matches(test@, pattern@),
{
    let ghost t = test@;
    let ghost p = pattern@;
    proof {
        assert(t.skip(0) =~= t);
        assert(p.skip(0) =~= p);
    }
    let mut test_index: usize = 0;
    let mut pattern_index: usize = 0;
    let mut last_star: Option<(usize, usize)> = None;

    loop
        invariant
            t == test@,
            p == pattern@,
            test_index <= t.len(),
            pattern_index <= p.len(),
            wildcard_matches(t, p) == m(t, p, 0, 0),
            last_star is None ==> (m(t, p, 0, 0) <==> m(
                t,
                p,
                test_index as int,
                pattern_index as int,
            )),
            last_star matches Some((s, ps)) ==> {
                &&& s <= test_index
                &&& 1 <= ps <= pattern_index
                &&& (m(t, p, 0, 0) <==> m_from(t, p, s as int, ps as int))
                &&& (m(t, p, test_index as int, pattern_index as int) ==> m(
                    t,
                    p,
                    s as int,
                    ps as int,
                ))
                &&& test_index < t.len() ==> (m(t, p, s as int, ps as int) ==> m(
                    t,
                    p,
                    test_index as int,
                    pattern_index as int,
                ))
                &&& test_index < t.len() ==> test_index - s == pattern_index - ps
                &&& test_index < t.len() ==> forall|i: int|
                    ps <= i < pattern_index ==> !is_star(#[trigger] p[i])
                &&& lits(p.skip(ps as int)) >= (test_index - s) + lits(
                    p.skip(pattern_index as int),
                )
            },
        decreases
            t.len() - (match last_star {
                Some((s, _)) => s as int,
                None => 0int,
            }),
            (t.len() - test_index) + (p.len() - pattern_index),
    {
        proof {
            lemma_unfold(t, p, test_index as int, pattern_index as int);
        }
        let has_p = pattern_index < pattern.len();
        let has_t = test_index < test.len();
        if has_p && has_t {
            let pc = pattern[pattern_index];
            let tc = test[test_index];
            if pc == 42u8 {
                proof {
                    lemma_star(t, p, test_index as int, pattern_index as int);
                    if let Some((s, ps)) = last_star {
                        // every match of p[ps..] starting at or after s runs through the
                        // literal bytes up to this star
                        if m_from(t, p, s as int, ps as int) {
                            let k = choose|k: int|
                                s <= k <= t.len() && #[trigger] m(t, p, k, ps as int);
                            let n = pattern_index - ps;
                            lemma_literal_run(t, p, k, ps as int, n);
                            lemma_star(t, p, k + n, pattern_index as int);
                            let k2 = choose|k2: int|
                                k + n <= k2 <= t.len() && #[trigger] m(
                                    t,
                                    p,
                                    k2,
                                    pattern_index + 1,
                                );
                            assert(test_index <= k2 <= t.len() && m(
                                t,
                                p,
                                k2,
                                pattern_index + 1,
                            ));
                        }
                        if m_from(t, p, test_index as int, pattern_index + 1) {
                            assert(m(t, p, s as int, ps as int));
                            assert(s <= s <= t.len() && m(t, p, s as int, ps as int));
                        }
                    }
                }
                pattern_index += 1;
                last_star = Some((test_index, pattern_index));
            } else if pc == tc {
                pattern_index += 1;
                test_index += 1;
            } else if let Some((t_index, p_index)) = last_star {
                proof {
                    lemma_unfold(t, p, t_index as int, p_index as int);
                    if m_from(t, p, t_index as int, p_index as int) {
                        let k = choose|k: int|
                            t_index <= k <= t.len() && #[trigger] m(t, p, k, p_index as int);
                        assert(k != t_index);
                        assert(t_index + 1 <= k <= t.len() && m(t, p, k, p_index as int));
                    }
                    if m_from(t, p, t_index + 1, p_index as int) {
                        let k = choose|k: int|
                            t_index + 1 <= k <= t.len() && #[trigger] m(t, p, k, p_index as int);
                        assert(t_index <= k <= t.len() && m(t, p, k, p_index as int));
                    }
                }
                test_index = t_index + 1;
                pattern_index = p_index;
                last_star = Some((test_index, pattern_index));
            } else {
                return false;
            }
        } else if !has_p && has_t {
            if let Some((t_index, p_index)) = last_star {
                proof {
                    if m_from(t, p, t_index as int, p_index as int) {
                        let k = choose|k: int|
                            t_index <= k <= t.len() && #[trigger] m(t, p, k, p_index as int);
                        assert(k != t_index);
                        assert(t_index + 1 <= k <= t.len() && m(t, p, k, p_index as int));
                    }
                    if m_from(t, p, t_index + 1, p_index as int) {
                        let k = choose|k: int|
                            t_index + 1 <= k <= t.len() && #[trigger] m(t, p, k, p_index as int);
                        assert(t_index <= k <= t.len() && m(t, p, k, p_index as int));
                    }
                }
                test_index = t_index + 1;
                pattern_index = p_index;
                last_star = Some((test_index, pattern_index));
            } else {
                return false;
            }
        } else if has_p && !has_t && pattern[pattern_index] == 42u8 {
            pattern_index += 1;
        } else if !has_p && !has_t {
            proof {
                if let Some((s, ps)) = last_star {
                    assert(s <= s <= t.len() && m(t, p, s as int, ps as int));
                }
            }
            return true;
        } else {
            proof {
                if let Some((s, ps)) = last_star {
                    if m_from(t, p, s as int, ps as int) {
                        let k = choose|k: int| s <= k <= t.len() && #[trigger] m(t, p, k, ps as int);
                        lemma_lits(t, p, k, ps as int);
                    }
                }
            }
            return false;
        }
    }
}

} // verus!

verus! {

/// The state of a scan over a bracket pattern: the accepted bytes, whether the set is
/// negated, and whether a `-` is pending.
pub struct BracketScan {
    pub cases: Seq<u8>,
    pub negated: bool,
    pub dash: bool,
}

/// The bytes `lo..=hi`, in increasing order (empty when `lo > hi`).
pub open spec fn byte_range(lo: u8, hi: u8) -> Seq<u8> {
    if lo <= hi {
        Seq::new((hi - lo + 1) as nat, |i: int| (lo + i) as u8)
    } else {
        Seq::empty()
    }
}

/// One step of the scan; `None` when a range has no start (a `-` before any byte).
pub open spec fn bracket_step(st: BracketScan, c: u8) -> Option<BracketScan> {
    if c == 91u8 || c == 93u8 {
        // '[' and ']' are skipped
        Some(st)
    } else if c == 33u8 || c == 94u8 {
        // '!' and '^' negate
        Some(BracketScan { negated: true, ..st })
    } else if c == 45u8 {
        // '-' starts a range
        Some(BracketScan { dash: true, ..st })
    } else if st.dash {
        if st.cases.len() == 0 {
            None
        } else {
            Some(
                BracketScan {
                    cases: st.cases + byte_range(st.cases.last(), c),
                    dash: false,
                    ..st
                },
            )
        }
    } else {
        Some(BracketScan { cases: st.cases.push(c), ..st })
    }
}

/// The scan of a whole bracket pattern.
pub open spec fn bracket_scan(pattern: Seq<u8>) -> Option<BracketScan>
    decreases pattern.len(),
{
    if pattern.len() == 0 {
        Some(BracketScan { cases: Seq::empty(), negated: false, dash: false })
    } else {
        match bracket_scan(pattern.drop_last()) {
            Some(st) => bracket_step(st, pattern.last()),
            None => None,
        }
    }
}

/// Some byte of `test` is one of `cases`.
pub open spec fn any_in(test: Seq<u8>, cases: Seq<u8>) -> bool {
    exists|i: int| 0 <= i < test.len() && cases.contains(#[trigger] test[i])
}

fn contains_byte(v: &Vec<u8>, b: u8) -> (res: bool)
    ensures
        res == v@.contains(b),
{
    let mut i: usize = 0;
    while i < v.len()
        invariant
            i <= v.len(),
            forall|j: int| 0 <= j < i ==> v@[j] != b,
        decreases v.len() - i,
    {
        if v[i] == b {
            assert(v@[i as int] == b);
            return true;
        }
        i += 1;
    }
    false
}

/// Match a test input against a bracket pattern such as `[a-z]` or `[!0-9]`: the input
/// matches when one of its bytes is in the set (or, for a negated set, when none is).
pub fn bracket_match(test: &[u8], pattern: &[u8]) -> (res: bool)
    requires
        bracket_scan(pattern@) is Some,
    ensures
        res == (if bracket_scan(pattern@)->0.negated {
            !any_in(test@, bracket_scan(pattern@)->0.cases)
        } else {
            any_in(test@, bracket_scan(pattern@)->0.cases)
        }),
{
    let mut match_cases: Vec<u8> = Vec::new();
    let mut pattern_index: usize = 0;
    let mut is_negated = false;
    let mut last_dash: Option<usize> = None;
    proof {
        assert(pattern@.take(0) =~= Seq::<u8>::empty());
    }

    while pattern_index < pattern.len()
        invariant
            pattern_index <= pattern.len(),
            bracket_scan(pattern@.take(pattern_index as int)) == Some(
                BracketScan {
                    cases: match_cases@,
                    negated: is_negated,
                    dash: last_dash is Some,
                },
            ),
            bracket_scan(pattern@) is Some,
        decreases pattern.len() - pattern_index,
    {
        let p = pattern[pattern_index];
        proof {
            assert(pattern@.take(pattern_index + 1).drop_last() =~= pattern@.take(
                pattern_index as int,
            ));
            lemma_scan_prefix(pattern@, pattern_index + 1);
        }
        if p == 91u8 || p == 93u8 {
            pattern_index += 1;
        } else if p == 33u8 || p == 94u8 {
            pattern_index += 1;
            is_negated = true;
        } else if p == 45u8 {
            pattern_index += 1;
            last_dash = Some(pattern_index);
        } else if last_dash.is_some() {
            let last_push = match_cases[match_cases.len() - 1];
            let ghost before = match_cases@;
            let mut case: u16 = last_push as u16;
            while case <= p as u16
                invariant
                    last_push as u16 <= case,
                    last_push <= p ==> case <= p as u16 + 1,
                    last_push > p ==> case == last_push as u16,
                    match_cases@ == before + byte_range(last_push, p).take(
                        (case - last_push) as int,
                    ),
                    last_push <= p ==> case - last_push <= byte_range(last_push, p).len(),
                decreases p as u16 + 1 - case,
            {
                let ghost prev = match_cases@;
                match_cases.push(case as u8);
                case += 1;
                proof {
                    assert(byte_range(last_push, p).take((case - last_push) as int) =~= byte_range(
                        last_push,
                        p,
                    ).take((case - 1 - last_push) as int).push((case - 1) as u8));
                }
            }
            proof {
                if last_push <= p {
                    assert(byte_range(last_push, p).take((case - last_push) as int) =~= byte_range(
                        last_push,
                        p,
                    ));
                } else {
                    assert(byte_range(last_push, p).take(0) =~= byte_range(last_push, p));
                }
            }
            last_dash = None;
            pattern_index += 1;
        } else {
            match_cases.push(p);
            pattern_index += 1;
        }
    }
    proof {
        assert(pattern@.take(pattern.len() as int) =~= pattern@);
    }
    let mut found = false;
    let mut i: usize = 0;
    while i < test.len()
        invariant
            i <= test.len(),
            found == any_in(test@.take(i as int), match_cases@),
        decreases test.len() - i,
    {
        let c = test[i];
        let hit = contains_byte(&match_cases, c);
        proof {
            if any_in(test@.take(i + 1), match_cases@) && !hit {
                let j = choose|j: int|
                    0 <= j < i + 1 && match_cases@.contains(#[trigger] test@.take(i + 1)[j]);
                assert(test@.take(i as int)[j] == test@.take(i + 1)[j]);
            }
            if found {
                let j = choose|j: int|
                    0 <= j < i && match_cases@.contains(#[trigger] test@.take(i as int)[j]);
                assert(test@.take(i + 1)[j] == test@.take(i as int)[j]);
            }
            if hit {
                assert(test@.take(i + 1)[i as int] == c);
            }
        }
        found = found || hit;
        i += 1;
    }
    proof {
        assert(test@.take(test.len() as int) =~= test@);
    }
    if is_negated {
        !found
    } else {
        found
    }
}

/// A scan that succeeds on a pattern succeeds on each of its prefixes.
proof fn lemma_scan_prefix(pattern: Seq<u8>, n: int)
    requires
        0 <= n <= pattern.len(),
        bracket_scan(pattern) is Some,
    ensures
        bracket_scan(pattern.take(n)) is Some,
    decreases pattern.len() - n,
{
    if n < pattern.len() {
        lemma_scan_prefix(pattern, n + 1);
        assert(pattern.take(n + 1).drop_last() =~= pattern.take(n));
    } else {
        assert(pattern.take(n) =~= pattern);
    }
}

} // verus!
