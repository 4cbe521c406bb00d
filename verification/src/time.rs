//! Points in time (as seconds and nanoseconds) and spans of time.

use vstd::prelude::*;

verus! {

pub const NANOS_PER_SEC: i64 = 1_000_000_000;

/// The byte encoding that `i64::to_ne_bytes` produces for a value.
pub uninterp spec fn i64_ne_bytes(x: i64) -> Seq<u8>;

/// The value that `i64::from_ne_bytes` reads from eight bytes.
pub uninterp spec fn i64_from_ne(b: Seq<u8>) -> i64;

/// Calls `i64::to_ne_bytes`. Its documentation states that `from_ne_bytes` gives the
/// value back; the contract names the bytes and states that fact, and nothing more.
#[verifier::external_body]
fn to_ne_bytes(x: i64) -> (b: [u8; 8])
    ensures
        b@ == i64_ne_bytes(x),
        i64_from_ne(b@) == x,
{
    x.to_ne_bytes()
}

/// Calls `i64::from_ne_bytes`. The two functions are inverse bijections between `i64`
/// and arrays of eight bytes (their documentation); the contract states that, over the names.
#[verifier::external_body]
fn from_ne_bytes(b: [u8; 8]) -> (x: i64)
    ensures
        x == i64_from_ne(b@),
        i64_ne_bytes(x) == b@,
{
    i64::from_ne_bytes(b)
}

/// The reason a value could not be read from a byte stream.
#[derive(Debug, Clone, Copy, PartialEq, Eq, Structural)]
pub enum DecodeError {
    /// The input ended before the value was complete.
    UnexpectedEof,
    /// The input holds bytes that do not form a valid value.
    InvalidData,
    /// The input is not of the expected shape (an unknown variant, or bytes left over).
    InvalidInput,
}

/// Append `b` to `out`.
pub fn write_all(out: &mut Vec<u8>, b: &[u8])
    ensures
        final(out)@ == old(out)@ + b@,
{
    let mut i: usize = 0;
    while i < b.len()
        invariant
            i <= b.len(),
            out@ == old(out)@ + b@.take(i as int),
        decreases b.len() - i,
    {
        out.push(b[i]);
        i += 1;
        proof {
            assert(b@.take(i as int) =~= b@.take(i - 1).push(b@[i - 1]));
        }
    }
    proof {
        assert(b@.take(b.len() as int) =~= b@);
    }
}

/// Read `N` bytes at `*pos`, advancing `*pos`; fails when fewer remain.
pub fn read_exact8(from: &[u8], pos: &mut usize) -> (res: Result<[u8; 8], DecodeError>)
    requires
        *old(pos) <= from@.len(),
    ensures
        *final(pos) <= from@.len(),
        match res {
            Ok(b) => *old(pos) + 8 <= from@.len() && b@ == from@.subrange(
                *old(pos) as int,
                *old(pos) + 8,
            ) && *final(pos) == *old(pos) + 8,
            Err(e) => e == DecodeError::UnexpectedEof && *old(pos) + 8 > from@.len() && *final(pos) == *old(pos),
        },
{
    if from.len() - *pos < 8 {
        return Err(DecodeError::UnexpectedEof);
    }
    let p = *pos;
    let b: [u8; 8] = [
        from[p],
        from[p + 1],
        from[p + 2],
        from[p + 3],
        from[p + 4],
        from[p + 5],
        from[p + 6],
        from[p + 7],
    ];
    *pos = p + 8;
    assert(b@ =~= from@.subrange(p as int, p + 8));
    Ok(b)
}

/// A span of time, counted in nanoseconds.
#[derive(Debug, Clone, Copy, PartialEq, Eq, Structural)]
pub struct Duration {
    nanos: u128,
}

impl Duration {
    pub closed spec fn spec_nanos(&self) -> int {
        self.nanos as int
    }

    pub fn from_secs(secs: u64) -> (d: Duration)
        ensures
            d.spec_nanos() == secs * 1_000_000_000,
    {
        Duration { nanos: secs as u128 * 1_000_000_000 }
    }

    pub fn from_nanos(nanos: u64) -> (d: Duration)
        ensures
            d.spec_nanos() == nanos,
    {
        Duration { nanos: nanos as u128 }
    }

    pub fn seconds(secs: u64) -> (d: Duration)
        ensures
            d.spec_nanos() == secs * 1_000_000_000,
    {
        Self::from_secs(secs)
    }

    pub fn minutes(minutes: u32) -> (d: Duration)
        ensures
            d.spec_nanos() == minutes * 60 * 1_000_000_000,
    {
        Duration { nanos: minutes as u128 * 60 * 1_000_000_000 }
    }

    pub fn as_nanos(&self) -> (n: u128)
        ensures
            n == self.spec_nanos(),
    {
        self.nanos
    }
}

/// The normalised second count of a time given as seconds plus nanoseconds.
pub open spec fn norm_secs(secs: int, nsecs: int) -> int {
    secs + nsecs / (NANOS_PER_SEC as int)
}

/// The normalised nanosecond count (in `0..NANOS_PER_SEC`).
pub open spec fn norm_nsecs(nsecs: int) -> int {
    nsecs % (NANOS_PER_SEC as int)
}

/// Whether a time given as seconds plus nanoseconds can be normalised without overflow.
pub open spec fn normalisable(secs: int, nsecs: int) -> bool {
    i64::MIN <= norm_secs(secs, nsecs) <= i64::MAX
}

/// Normalise: returns (secs + nsecs.div_euclid(1e9), nsecs.rem_euclid(1e9)).
fn normalise(secs: i64, nsecs: i64) -> (res: (i64, i64))
    requires
        normalisable(secs as int, nsecs as int),
    ensures
        res.0 == norm_secs(secs as int, nsecs as int),
        res.1 == norm_nsecs(nsecs as int),
        0 <= res.1 < NANOS_PER_SEC,
{
    let q = match nsecs.checked_div_euclid(NANOS_PER_SEC) {
        Some(q) => q,
        None => 0,
    };
    let r = match nsecs.checked_rem_euclid(NANOS_PER_SEC) {
        Some(r) => r,
        None => 0,
    };
    (secs + q, r)
}

/// Adding the duration to the time overflows the second count.
pub open spec fn add_fails(t: SystemTime, d: Duration) -> bool {
    let rs = d.spec_nanos() / (NANOS_PER_SEC as int);
    let rn = d.spec_nanos() % (NANOS_PER_SEC as int);
    rs > i64::MAX || t.spec_secs() + rs > i64::MAX || t.spec_secs() + rs + (t.spec_nsecs() + rn)
        / (NANOS_PER_SEC as int) > i64::MAX
}

/// Subtracting the duration from the time overflows the second count.
pub open spec fn sub_fails(t: SystemTime, d: Duration) -> bool {
    let rs = d.spec_nanos() / (NANOS_PER_SEC as int);
    let rn = d.spec_nanos() % (NANOS_PER_SEC as int);
    rs > i64::MAX || t.spec_secs() - rs < i64::MIN || t.spec_secs() - rs + (t.spec_nsecs() - rn)
        / (NANOS_PER_SEC as int) < i64::MIN
}

/// A timestamp relative to `CLOCK_BOOTTIME`.
#[derive(Debug, Clone, Copy, PartialEq, Eq, Structural)]
pub struct SystemTime {
    secs: i64,
    nsecs: i64,
}

/// A timestamp relative to `CLOCK_BOOTTIME` on Linux and relative to `CLOCK_REALTIME` on FreeBSD.
#[derive(Debug, Clone, Copy, PartialEq, Eq, Structural)]
pub struct ProcessCreateTime {
    secs: i64,
    nsecs: i64,
}

/// Reading a (seconds, nanoseconds) pair of native-endian `i64`s at `pos`.
pub open spec fn read_time(b: Seq<u8>, pos: int) -> Result<(int, int), DecodeError> {
    if pos + 16 > b.len() {
        Err(DecodeError::UnexpectedEof)
    } else {
        let secs = i64_from_ne(b.subrange(pos, pos + 8)) as int;
        let nsecs = i64_from_ne(b.subrange(pos + 8, pos + 16)) as int;
        if normalisable(secs, nsecs) {
            Ok((secs, nsecs))
        } else {
            Err(DecodeError::InvalidData)
        }
    }
}

/// The native-endian bytes of `x` are eight bytes that read back as `x`.
pub open spec fn ne_roundtrip(x: i64) -> bool {
    i64_ne_bytes(x).len() == 8 && i64_from_ne(i64_ne_bytes(x)) == x
}

/// The encoding of a (seconds, nanoseconds) pair: both in native byte order.
pub open spec fn time_bytes(secs: i64, nsecs: i64) -> Seq<u8> {
    i64_ne_bytes(secs) + i64_ne_bytes(nsecs)
}

impl SystemTime {
    /// The time with the given (not necessarily normalised) parts.
    pub closed spec fn spec_new(secs: int, nsecs: int) -> SystemTime {
        SystemTime { secs: norm_secs(secs, nsecs) as i64, nsecs: norm_nsecs(nsecs) as i64 }
    }

    pub closed spec fn spec_secs(&self) -> i64 {
        self.secs
    }

    pub closed spec fn spec_nsecs(&self) -> i64 {
        self.nsecs
    }

    /// Nanoseconds since the epoch of the clock.
    pub open spec fn total_nanos(&self) -> int {
        self.spec_secs() * (NANOS_PER_SEC as int) + self.spec_nsecs()
    }

    /// The nanosecond part lies in `0..NANOS_PER_SEC`.
    pub closed spec fn wf(&self) -> bool {
        0 <= self.nsecs < NANOS_PER_SEC
    }

    /// A normalised time is well formed.
    pub proof fn lemma_spec_new_is_wf(secs: int, nsecs: int)
        requires
            normalisable(secs, nsecs),
        ensures
            Self::spec_new(secs, nsecs).wf(),
            Self::spec_new(secs, nsecs).spec_secs() == norm_secs(secs, nsecs),
            Self::spec_new(secs, nsecs).spec_nsecs() == norm_nsecs(nsecs),
    {
    }

    /// Of well-formed times, one is not later than the other exactly when it counts no more
    /// nanoseconds.
    pub proof fn lemma_le_total(a: SystemTime, b: SystemTime)
        requires
            a.wf(),
            b.wf(),
        ensures
            (a.spec_secs() < b.spec_secs() || (a.spec_secs() == b.spec_secs() && a.spec_nsecs()
                <= b.spec_nsecs())) <==> a.total_nanos() <= b.total_nanos(),
    {
        let x = a.spec_secs() as int;
        let y = b.spec_secs() as int;
        let n = a.spec_nsecs() as int;
        let m = b.spec_nsecs() as int;
        assert(x < y ==> x * 1_000_000_000 + n < y * 1_000_000_000 + m) by (nonlinear_arith)
            requires
                0 <= n < 1_000_000_000,
                0 <= m < 1_000_000_000,
        ;
        assert(x > y ==> x * 1_000_000_000 + n > y * 1_000_000_000 + m) by (nonlinear_arith)
            requires
                0 <= n < 1_000_000_000,
                0 <= m < 1_000_000_000,
        ;
    }

    /// A well-formed time is its own normalisation.
    pub proof fn lemma_spec_new_wf(&self)
        requires
            self.wf(),
        ensures
            normalisable(self.spec_secs() as int, self.spec_nsecs() as int),
            Self::spec_new(self.spec_secs() as int, self.spec_nsecs() as int) == *self,
    {
    }

    pub fn new(secs: i64, nsecs: i64) -> (t: SystemTime)
        requires
            normalisable(secs as int, nsecs as int),
        ensures
            t.wf(),
            t == Self::spec_new(secs as int, nsecs as int),
            t.spec_secs() == norm_secs(secs as int, nsecs as int),
            t.spec_nsecs() == norm_nsecs(nsecs as int),
            t.total_nanos() == secs * (NANOS_PER_SEC as int) + nsecs,
    {
        let (s, n) = normalise(secs, nsecs);
        SystemTime { secs: s, nsecs: n }
    }

    /// Append the encoding of this time to `target`.
    pub fn encode(&self, target: &mut Vec<u8>)
        ensures
            final(target)@ == old(target)@ + time_bytes(self.spec_secs(), self.spec_nsecs()),
            ne_roundtrip(self.spec_secs()),
            ne_roundtrip(self.spec_nsecs()),
    {
        let secs = to_ne_bytes(self.secs);
        let nsecs = to_ne_bytes(self.nsecs);
        write_all(target, &secs);
        write_all(target, &nsecs);
        assert(final(target)@ =~= old(target)@ + time_bytes(self.spec_secs(), self.spec_nsecs()));
    }

    /// Read a time from `from` at `*pos`, advancing `*pos` past it.
    pub fn decode(from: &[u8], pos: &mut usize) -> (res: Result<SystemTime, DecodeError>)
        requires
            *old(pos) <= from@.len(),
        ensures
            *final(pos) <= from@.len(),
            match read_time(from@, *old(pos) as int) {
                Ok((secs, nsecs)) => res == Ok::<SystemTime, DecodeError>(Self::spec_new(secs, nsecs))
                    && *final(pos) == *old(pos) + 16,
                Err(e) => res == Err::<SystemTime, DecodeError>(e),
            },
    {
        let (secs, nsecs) = decode_pair(from, pos)?;
        Ok(SystemTime::new(secs, nsecs))
    }

    /// Add a duration; `None` when the result does not fit.
    pub fn checked_add(self, rhs: Duration) -> (res: Option<SystemTime>)
        requires
            self.wf(),
        ensures
            ({
                let rs = rhs.spec_nanos() / (NANOS_PER_SEC as int);
                let rn = rhs.spec_nanos() % (NANOS_PER_SEC as int);
                match res {
                    Some(t) => {
                        &&& t.wf()
                        &&& t.total_nanos() == self.total_nanos() + rhs.spec_nanos()
                        &&& rs <= i64::MAX && self.spec_secs() + rs <= i64::MAX
                    },
                    None => true,
                }
            }),
            res is None <==> add_fails(self, rhs),
    {
        let total = rhs.as_nanos();
        let rhs_secs_wide = total / 1_000_000_000;
        let rhs_nsecs_wide = total % 1_000_000_000;
        if rhs_secs_wide > i64::MAX as u128 {
            return None;
        }
        let rhs_secs = rhs_secs_wide as i64;
        let rhs_nsecs = rhs_nsecs_wide as i64;
        let secs = self.secs.checked_add(rhs_secs)?;
        let nsecs = self.nsecs + rhs_nsecs;
        if secs == i64::MAX && nsecs >= NANOS_PER_SEC {
            return None;
        }
        Some(SystemTime::new(secs, nsecs))
    }

    /// Subtract a duration; `None` when the result does not fit.
    pub fn checked_sub(self, rhs: Duration) -> (res: Option<SystemTime>)
        requires
            self.wf(),
        ensures
            ({
                let rs = rhs.spec_nanos() / (NANOS_PER_SEC as int);
                let rn = rhs.spec_nanos() % (NANOS_PER_SEC as int);
                match res {
                    Some(t) => {
                        &&& t.wf()
                        &&& t.total_nanos() == self.total_nanos() - rhs.spec_nanos()
                        &&& rs <= i64::MAX && self.spec_secs() - rs >= i64::MIN
                    },
                    None => true,
                }
            }),
            res is None <==> sub_fails(self, rhs),
    {
        let total = rhs.as_nanos();
        let rhs_secs_wide = total / 1_000_000_000;
        let rhs_nsecs_wide = total % 1_000_000_000;
        if rhs_secs_wide > i64::MAX as u128 {
            return None;
        }
        let rhs_secs = rhs_secs_wide as i64;
        let rhs_nsecs = rhs_nsecs_wide as i64;
        let secs = self.secs.checked_sub(rhs_secs)?;
        let nsecs = self.nsecs - rhs_nsecs;
        if secs == i64::MIN && nsecs < 0 {
            return None;
        }
        Some(SystemTime::new(secs, nsecs))
    }

    /// `self` is not later than `other`.
    pub fn le(&self, other: &SystemTime) -> (res: bool)
        ensures
            res == (self.spec_secs() < other.spec_secs() || (self.spec_secs()
                == other.spec_secs() && self.spec_nsecs() <= other.spec_nsecs())),
    {
        self.secs < other.secs || (self.secs == other.secs && self.nsecs <= other.nsecs)
    }
}

/// Read two native-endian `i64`s at `*pos`.
fn decode_pair(from: &[u8], pos: &mut usize) -> (res: Result<(i64, i64), DecodeError>)
    requires
        *old(pos) <= from@.len(),
    ensures
        *final(pos) <= from@.len(),
        match read_time(from@, *old(pos) as int) {
            Ok((secs, nsecs)) => res == Ok::<(i64, i64), DecodeError>((secs as i64, nsecs as i64))
                && *final(pos) == *old(pos) + 16,
            Err(e) => res == Err::<(i64, i64), DecodeError>(e),
        },
{
    if from.len() - *pos < 16 {
        return Err(DecodeError::UnexpectedEof);
    }
    let sec_bytes = read_exact8(from, pos)?;
    let nsec_bytes = read_exact8(from, pos)?;
    let secs = from_ne_bytes(sec_bytes);
    let nsecs = from_ne_bytes(nsec_bytes);
    let q = match nsecs.checked_div_euclid(NANOS_PER_SEC) {
        Some(q) => q,
        None => 0,
    };
    if (q > 0 && secs > i64::MAX - q) || (q < 0 && secs < i64::MIN - q) {
        return Err(DecodeError::InvalidData);
    }
    Ok((secs, nsecs))
}

impl ProcessCreateTime {
    /// The time with the given (not necessarily normalised) parts.
    pub closed spec fn spec_new(secs: int, nsecs: int) -> ProcessCreateTime {
        ProcessCreateTime { secs: norm_secs(secs, nsecs) as i64, nsecs: norm_nsecs(nsecs) as i64 }
    }

    pub closed spec fn spec_secs(&self) -> i64 {
        self.secs
    }

    pub closed spec fn spec_nsecs(&self) -> i64 {
        self.nsecs
    }

    /// The nanosecond part lies in `0..NANOS_PER_SEC`.
    pub closed spec fn wf(&self) -> bool {
        0 <= self.nsecs < NANOS_PER_SEC
    }

    /// A well-formed time is its own normalisation.
    pub proof fn lemma_spec_new_wf(&self)
        requires
            self.wf(),
        ensures
            normalisable(self.spec_secs() as int, self.spec_nsecs() as int),
            Self::spec_new(self.spec_secs() as int, self.spec_nsecs() as int) == *self,
    {
    }

    pub fn new(secs: i64, nsecs: i64) -> (t: ProcessCreateTime)
        requires
            normalisable(secs as int, nsecs as int),
        ensures
            t.wf(),
            t == Self::spec_new(secs as int, nsecs as int),
            t.spec_secs() == norm_secs(secs as int, nsecs as int),
            t.spec_nsecs() == norm_nsecs(nsecs as int),
    {
        let (s, n) = normalise(secs, nsecs);
        ProcessCreateTime { secs: s, nsecs: n }
    }

    pub fn secs(&self) -> (s: i64)
        ensures
            s == self.spec_secs(),
    {
        self.secs
    }

    /// Append the encoding of this time to `target`.
    pub fn encode(&self, target: &mut Vec<u8>)
        ensures
            final(target)@ == old(target)@ + time_bytes(self.spec_secs(), self.spec_nsecs()),
            ne_roundtrip(self.spec_secs()),
            ne_roundtrip(self.spec_nsecs()),
    {
        let secs = to_ne_bytes(self.secs);
        let nsecs = to_ne_bytes(self.nsecs);
        write_all(target, &secs);
        write_all(target, &nsecs);
        assert(final(target)@ =~= old(target)@ + time_bytes(self.spec_secs(), self.spec_nsecs()));
    }

    /// Read a time from `from` at `*pos`, advancing `*pos` past it.
    pub fn decode(from: &[u8], pos: &mut usize) -> (res: Result<ProcessCreateTime, DecodeError>)
        requires
            *old(pos) <= from@.len(),
        ensures
            *final(pos) <= from@.len(),
            match read_time(from@, *old(pos) as int) {
                Ok((secs, nsecs)) => res == Ok::<ProcessCreateTime, DecodeError>(Self::spec_new(secs, nsecs))
                    && *final(pos) == *old(pos) + 16,
                Err(e) => res == Err::<ProcessCreateTime, DecodeError>(e),
            },
    {
        let (secs, nsecs) = decode_pair(from, pos)?;
        Ok(ProcessCreateTime::new(secs, nsecs))
    }
}

/// A well-formed time is fixed by the nanoseconds it counts.
proof fn lemma_total_determines(a: SystemTime, b: SystemTime)
    requires
        a.wf(),
        b.wf(),
        a.total_nanos() == b.total_nanos(),
    ensures
        a == b,
{
    SystemTime::lemma_le_total(a, b);
    SystemTime::lemma_le_total(b, a);
}

/// `x * NANOS_PER_SEC + y`, with `y` within one second, splits back into `x` and `y`.
proof fn lemma_split(x: int, y: int)
    requires
        0 <= y < NANOS_PER_SEC,
    ensures
        (x * (NANOS_PER_SEC as int) + y) / (NANOS_PER_SEC as int) == x,
        (x * (NANOS_PER_SEC as int) + y) % (NANOS_PER_SEC as int) == y,
{
    vstd::arithmetic::div_mod::lemma_fundamental_div_mod_converse(
        x * (NANOS_PER_SEC as int) + y,
        NANOS_PER_SEC as int,
        x,
        y,
    );
}

/// Subtracting a duration undoes adding it: when `t + d` does not overflow and gives `u`,
/// then `u - d` does not overflow either, and the one time it can give is `t`.
pub proof fn law_sub_undoes_add(t: SystemTime, d: Duration, u: SystemTime)
    requires
        t.wf(),
        !add_fails(t, d),
        u.wf(),
        u.total_nanos() == t.total_nanos() + d.spec_nanos(),
    ensures
        !sub_fails(u, d),
        forall|v: SystemTime|
            #[trigger] v.wf() && v.total_nanos() == u.total_nanos() - d.spec_nanos() ==> v == t,
{
    let ns = NANOS_PER_SEC as int;
    let rs = d.spec_nanos() / ns;
    let rn = d.spec_nanos() % ns;
    let ts = t.spec_secs() as int;
    let tn = t.spec_nsecs() as int;
    let us = u.spec_secs() as int;
    let un = u.spec_nsecs() as int;
    vstd::arithmetic::div_mod::lemma_fundamental_div_mod(d.spec_nanos(), ns);
    assert(0 <= rn < ns);
    // u = (ts + rs) * ns + (tn + rn), so us == ts + rs + (tn + rn) / ns.
    let c = (tn + rn) / ns;
    vstd::arithmetic::div_mod::lemma_fundamental_div_mod(tn + rn, ns);
    assert(0 <= tn + rn < 2 * ns);
    assert(c == 0 || c == 1) by {
        if tn + rn < ns {
            lemma_split(0, tn + rn);
        } else {
            lemma_split(1, tn + rn - ns);
        }
    }
    assert(us * ns + un == (ts + rs + c) * ns + (tn + rn - c * ns)) by (nonlinear_arith)
        requires
            us * ns + un == ts * ns + tn + d.spec_nanos(),
            d.spec_nanos() == ns * rs + rn,
            tn + rn == ns * c + (tn + rn - c * ns),
    ;
    lemma_split(ts + rs + c, tn + rn - c * ns);
    lemma_split(us, un);
    assert(us == ts + rs + c);
    assert(un == tn + rn - c * ns);
    // The second count of u - d is us - rs + (un - rn) / ns == ts.
    assert((un - rn) / ns == -c) by {
        lemma_split(-c, tn);
    }
    assert forall|v: SystemTime| #[trigger] v.wf() && v.total_nanos() == u.total_nanos() - d.spec_nanos() implies v
        == t by {
        lemma_total_determines(v, t);
    }
}

} // verus!
