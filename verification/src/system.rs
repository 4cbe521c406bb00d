//! Facts about the running system that the library decides on: the host name and whether
//! the kernel is recent enough.

use vstd::prelude::*;
use crate::interface::GroupId;
use crate::text::{chars_of, owned, split_chars, split_on};

verus! {

/// The name of this host.
#[derive(Clone, Debug)]
pub struct Hostname {
    inner: String,
}

impl Hostname {
    pub closed spec fn view(&self) -> Seq<char> {
        self.inner@
    }

    /// The host name that the system reported.
    pub fn new(inner: String) -> (h: Hostname)
        ensures
            h@ == inner@,
    {
        Hostname { inner }
    }

    /// A host name given by the caller.
    pub fn fake(hostname: &str) -> (h: Hostname)
        ensures
            h@ == hostname@,
    {
        Hostname { inner: owned(hostname) }
    }

    /// The name as text.
    pub fn as_str(&self) -> (s: &str)
        ensures
            s@ == self@,
    {
        self.inner.as_str()
    }
}

pub open spec fn is_digit(c: char) -> bool {
    '0' <= c <= '9'
}

pub open spec fn digit_value(c: char) -> nat {
    (c as nat - '0' as nat) as nat
}

/// The number that a run of decimal digits spells.
pub open spec fn digits_value(s: Seq<char>) -> nat
    decreases s.len(),
{
    if s.len() == 0 {
        0
    } else {
        digits_value(s.drop_last()) * 10 + digit_value(s.last())
    }
}

/// The text without the `+` that may start it.
pub open spec fn without_plus(s: Seq<char>) -> Seq<char> {
    if s.len() > 0 && s[0] == '+' {
        s.drop_first()
    } else {
        s
    }
}

pub open spec fn all_digits(t: Seq<char>) -> bool {
    forall|i: int| 0 <= i < t.len() ==> is_digit(#[trigger] t[i])
}

/// What `str::parse::<u32>` gives: an optional `+`, then at least one decimal digit and
/// nothing else, for a number that fits in 32 bits.
pub open spec fn parse_u32(s: Seq<char>) -> Option<u32> {
    let t = without_plus(s);
    if t.len() > 0 && all_digits(t) && digits_value(t) <= u32::MAX {
        Some(digits_value(t) as u32)
    } else {
        None
    }
}

proof fn lemma_digits_value_grows(s: Seq<char>, i: int)
    requires
        0 <= i <= s.len(),
        forall|j: int| 0 <= j < s.len() ==> is_digit(#[trigger] s[j]),
    ensures
        digits_value(s.take(i)) <= digits_value(s),
    decreases s.len() - i,
{
    if i < s.len() {
        lemma_digits_value_grows(s, i + 1);
        assert(s.take(i + 1).drop_last() =~= s.take(i));
    } else {
        assert(s.take(i) =~= s);
    }
}

/// Parse a number as `str::parse::<u32>` does.
pub fn parse_u32_exec(s: &Vec<char>) -> (r: Option<u32>)
    ensures
        r == parse_u32(s@),
{
    let start: usize = if s.len() > 0 && s[0] == '+' {
        1
    } else {
        0
    };
    let ghost t = without_plus(s@);
    proof {
        assert(t =~= s@.skip(start as int));
    }
    if start >= s.len() {
        return None;
    }
    let mut i: usize = start;
    let mut value: u32 = 0;
    while i < s.len()
        invariant
            start <= i <= s@.len(),
            t == s@.skip(start as int),
            t == without_plus(s@),
            forall|j: int| start <= j < i ==> is_digit(#[trigger] s@[j]),
            value == digits_value(t.take(i - start)),
        decreases s.len() - i,
    {
        let c = s[i];
        if !('0' <= c && c <= '9') {
            proof {
                assert(t[i - start] == c);
                assert(!is_digit(t[i - start]));
                assert(!all_digits(t));
            }
            return None;
        }
        let d = (c as u32) - ('0' as u32);
        proof {
            assert(t.take(i + 1 - start).drop_last() =~= t.take(i - start));
            assert(t.take(i + 1 - start).last() == c);
        }
        if value > 429496729 || (value == 429496729 && d > 5) {
            proof {
                assert(digits_value(t.take(i + 1 - start)) == value * 10 + d);
                if all_digits(t) {
                    lemma_digits_value_grows(t, i + 1 - start);
                    assert(digits_value(t) > u32::MAX);
                }
            }
            return None;
        }
        value = value * 10 + d;
        i += 1;
    }
    proof {
        assert(t.take(s@.len() - start) =~= t);
    }
    Some(value)
}

/// The kernel is older than 5.9: its release starts with two numbers, separated by a dot,
/// that come before 5.9.
pub open spec fn kernel_too_old(release: Seq<char>) -> bool {
    let parts = split_on(release, '.');
    &&& parts.len() >= 2
    &&& parse_u32(parts[0]) matches Some(major)
    &&& parse_u32(parts[1]) matches Some(minor)
    &&& (major < 5 || (major == 5 && minor < 9))
}

/// The kernel is too old to run on: it lacks `close_range()`.
#[derive(Debug, PartialEq, Eq)]
pub struct KernelCheck;

/// Whether a Linux kernel with this release (as `uname` reports it) is recent enough: when
/// its release does not show that it is older than 5.9, it is given the benefit of the
/// doubt.
pub fn kernel_check(release: &str) -> (r: Result<(), KernelCheck>)
    ensures
        r is Err <==> kernel_too_old(release@),
{
    let chars = chars_of(release);
    let parts = split_chars(chars.as_slice(), '.');
    proof {
        assert(parts@.len() == split_on(release@, '.').len());
    }
    if parts.len() < 2 {
        return Ok(());
    }
    let major = parse_u32_exec(&chars_of(parts[0].as_str()));
    let minor = parse_u32_exec(&chars_of(parts[1].as_str()));
    proof {
        assert(parts@[0]@ == split_on(release@, '.')[0]);
        assert(parts@[1]@ == split_on(release@, '.')[1]);
    }
    match (major, minor) {
        (Some(major), Some(minor)) => {
            if major < 5 || (major == 5 && minor < 9) {
                Err(KernelCheck)
            } else {
                Ok(())
            }
        },
        _ => Ok(()),
    }
}

/// The groups with `target` first: moved to the front (swapped with the first) when it is
/// among them, added in front otherwise.
pub open spec fn injected(target: GroupId, groups: Seq<GroupId>) -> Seq<GroupId> {
    if exists|i: int| 0 <= i < groups.len() && groups[i] == target {
        let i = choose|i: int| 0 <= i < groups.len() && groups[i] == target && forall|j: int|
            0 <= j < i ==> groups[j] != target;
        groups.update(0, groups[i]).update(i, groups[0])
    } else {
        seq![target] + groups
    }
}

/// Make sure that the target group is among the groups, and is the first of them.
pub fn inject_group(target: GroupId, groups: &mut Vec<GroupId>)
    ensures
        final(groups)@ == injected(target, old(groups)@),
{
    let ghost g = groups@;
    let mut i: usize = 0;
    while i < groups.len()
        invariant
            i <= groups@.len(),
            groups@ == g,
            g == old(groups)@,
            forall|j: int| 0 <= j < i ==> groups@[j] != target,
        decreases groups@.len() - i,
    {
        if groups[i] == target {
            let ghost ii = i as int;
            proof {
                assert(g[ii] == target);
                assert(exists|k: int| 0 <= k < g.len() && g[k] == target);
                assert(exists|k: int|
                    0 <= k < g.len() && g[k] == target && forall|j: int| 0 <= j < k ==> g[j] != target) by {
                    assert(0 <= ii < g.len() && g[ii] == target && forall|j: int| 0 <= j < ii ==> g[j] != target);
                }
                let k = choose|k: int| 0 <= k < g.len() && g[k] == target && forall|j: int|
                    0 <= j < k ==> g[j] != target;
                assert(k == ii) by {
                    if k < ii {
                        assert(g[k] != target);
                    } else if k > ii {
                        assert(g[ii] != target);
                    }
                }
            }
            let first = groups[0];
            let found = groups[i];
            groups.set(0, found);
            groups.set(i, first);
            proof {
                assert(groups@ =~= injected(target, g));
            }
            return;
        }
        i += 1;
    }
    groups.insert(0, target);
    proof {
        assert(groups@ =~= seq![target] + g);
    }
}

} // verus!
