//! Records of successful authentications ("timestamps") and their byte format.

use vstd::prelude::*;
use vstd::bytes::*;
use crate::interface::{DeviceId, ProcessId, UserId};
use crate::time::{
    DecodeError, ProcessCreateTime, SystemTime, i64_from_ne, i64_ne_bytes, ne_roundtrip,
    normalisable, read_time, time_bytes, write_all,
};

verus! {

broadcast use vstd::seq_lib::group_seq_properties;

#[derive(Debug, Clone, Copy, PartialEq, Eq, Structural)]
pub enum TouchResult {
    /// The record was found and within the timeout, and it was refreshed
    Updated { old_time: SystemTime, new_time: SystemTime },
    /// A record was found, but it was no longer valid
    Outdated { time: SystemTime },
    /// A record was not found that matches the input
    NotFound,
}

#[derive(Debug, Clone, Copy, PartialEq, Eq, Structural)]
pub enum CreateResult {
    /// The record was found and it was refreshed
    Updated { old_time: SystemTime, new_time: SystemTime },
    /// A new record was created and was set to the time returned
    Created { time: SystemTime },
}

#[derive(Debug, Clone, Copy, PartialEq, Eq, Structural)]
pub enum RecordScope {
    Tty { tty_device: DeviceId, session_pid: ProcessId, init_time: ProcessCreateTime },
    Ppid { group_pid: ProcessId, init_time: ProcessCreateTime },
    /// PPID scope with session isolation: the session is part of the scope, so processes of
    /// different sessions never share a record.
    PpidV2 { group_pid: ProcessId, session_pid: ProcessId, init_time: ProcessCreateTime },
}

/// A record in the session record file
#[derive(Debug, Clone, Copy, PartialEq, Eq, Structural)]
pub struct SessionRecord {
    /// The scope for which the current record applies, i.e. what process group
    /// or which TTY for interactive sessions
    scope: RecordScope,
    /// The user that needs to be authenticated against
    auth_user: UserId,
    /// The timestamp at which the time was created. This must always be a time
    /// originating from a monotonic clock that continues counting during system
    /// sleep.
    timestamp: SystemTime,
    /// Disabled records act as if they do not exist, but their storage can
    /// be re-used when recreating for the same scope and auth user
    enabled: bool,
}

/// The encoding of a process id: four little-endian bytes.
pub open spec fn pid_bytes(p: ProcessId) -> Seq<u8> {
    spec_u32_to_le_bytes(p.id() as u32)
}

/// The time stored in the scope.
pub open spec fn scope_time(s: RecordScope) -> ProcessCreateTime {
    match s {
        RecordScope::Tty { init_time, .. } => init_time,
        RecordScope::Ppid { init_time, .. } => init_time,
        RecordScope::PpidV2 { init_time, .. } => init_time,
    }
}

/// The encoding of a scope: a discriminator byte (1, 2 or 3) followed by its fields.
pub open spec fn scope_bytes(s: RecordScope) -> Seq<u8> {
    match s {
        RecordScope::Tty { tty_device, session_pid, init_time } => seq![1u8]
            + spec_u64_to_le_bytes(tty_device.id()) + pid_bytes(session_pid) + time_bytes(
            init_time.spec_secs(),
            init_time.spec_nsecs(),
        ),
        RecordScope::Ppid { group_pid, init_time } => seq![2u8] + pid_bytes(group_pid)
            + time_bytes(init_time.spec_secs(), init_time.spec_nsecs()),
        RecordScope::PpidV2 { group_pid, session_pid, init_time } => seq![3u8] + pid_bytes(
            group_pid,
        ) + pid_bytes(session_pid) + time_bytes(init_time.spec_secs(), init_time.spec_nsecs()),
    }
}

/// The encoding of a boolean: 0xFF for true, 0x00 for false.
pub open spec fn bool_byte(b: bool) -> u8 {
    if b {
        0xFFu8
    } else {
        0x00u8
    }
}

/// The encoding of a record: its scope, the user id (four little-endian bytes), the
/// timestamp and the enabled flag.
pub open spec fn record_bytes(r: SessionRecord) -> Seq<u8> {
    scope_bytes(r.spec_scope()) + spec_u32_to_le_bytes(r.spec_auth_user().id()) + time_bytes(
        r.spec_timestamp().spec_secs(),
        r.spec_timestamp().spec_nsecs(),
    ) + seq![bool_byte(r.spec_enabled())]
}

/// Reading a process id at `pos`.
pub open spec fn read_pid(b: Seq<u8>, pos: int) -> ProcessId
    recommends
        pos + 4 <= b.len(),
{
    ProcessId::spec_new(spec_u32_from_le_bytes(b.subrange(pos, pos + 4)) as i32)
}

/// Reading a scope at `pos`: the scope and the position after it.
pub open spec fn decode_scope(b: Seq<u8>, pos: int) -> Result<(RecordScope, int), DecodeError> {
    if pos + 1 > b.len() {
        Err(DecodeError::UnexpectedEof)
    } else if b[pos] == 1 {
        if pos + 13 > b.len() {
            Err(DecodeError::UnexpectedEof)
        } else {
            match read_time(b, pos + 13) {
                Ok((s, n)) => Ok(
                    (
                        RecordScope::Tty {
                            tty_device: DeviceId::spec_new(
                                spec_u64_from_le_bytes(b.subrange(pos + 1, pos + 9)),
                            ),
                            session_pid: read_pid(b, pos + 9),
                            init_time: ProcessCreateTime::spec_new(s, n),
                        },
                        pos + 29,
                    ),
                ),
                Err(e) => Err(e),
            }
        }
    } else if b[pos] == 2 {
        if pos + 5 > b.len() {
            Err(DecodeError::UnexpectedEof)
        } else {
            match read_time(b, pos + 5) {
                Ok((s, n)) => Ok(
                    (
                        RecordScope::Ppid {
                            group_pid: read_pid(b, pos + 1),
                            init_time: ProcessCreateTime::spec_new(s, n),
                        },
                        pos + 21,
                    ),
                ),
                Err(e) => Err(e),
            }
        }
    } else if b[pos] == 3 {
        if pos + 9 > b.len() {
            Err(DecodeError::UnexpectedEof)
        } else {
            match read_time(b, pos + 9) {
                Ok((s, n)) => Ok(
                    (
                        RecordScope::PpidV2 {
                            group_pid: read_pid(b, pos + 1),
                            session_pid: read_pid(b, pos + 5),
                            init_time: ProcessCreateTime::spec_new(s, n),
                        },
                        pos + 25,
                    ),
                ),
                Err(e) => Err(e),
            }
        }
    } else {
        Err(DecodeError::InvalidInput)
    }
}

/// Reading a record at `pos`: the record and the position after it.
pub open spec fn decode_record(b: Seq<u8>, pos: int) -> Result<(SessionRecord, int), DecodeError> {
    match decode_scope(b, pos) {
        Err(e) => Err(e),
        Ok((scope, p1)) => if p1 + 4 > b.len() {
            Err(DecodeError::UnexpectedEof)
        } else {
            match read_time(b, p1 + 4) {
                Err(e) => Err(e),
                Ok((s, n)) => if p1 + 21 > b.len() {
                    Err(DecodeError::UnexpectedEof)
                } else if b[p1 + 20] == 0xFF || b[p1 + 20] == 0x00 {
                    Ok(
                        (
                            SessionRecord::spec_init(
                                scope,
                                UserId::spec_new(spec_u32_from_le_bytes(b.subrange(p1, p1 + 4))),
                                b[p1 + 20] == 0xFF,
                                SystemTime::spec_new(s, n),
                            ),
                            p1 + 21,
                        ),
                    )
                } else {
                    Err(DecodeError::InvalidData)
                },
            }
        },
    }
}

/// Reading a record from all of `b`: no bytes may be left over.
pub open spec fn decode_record_exact(b: Seq<u8>) -> Result<SessionRecord, DecodeError> {
    match decode_record(b, 0) {
        Err(e) => Err(e),
        Ok((r, end)) => if end == b.len() {
            Ok(r)
        } else {
            Err(DecodeError::InvalidInput)
        },
    }
}

/// Read four bytes at `*pos`.
fn read4<'a>(from: &'a [u8], pos: &mut usize) -> (res: Result<&'a [u8], DecodeError>)
    requires
        *old(pos) <= from@.len(),
    ensures
        *final(pos) <= from@.len(),
        match res {
            Ok(b) => *old(pos) + 4 <= from@.len() && b@ == from@.subrange(
                *old(pos) as int,
                *old(pos) + 4,
            ) && *final(pos) == *old(pos) + 4,
            Err(e) => e == DecodeError::UnexpectedEof && *old(pos) + 4 > from@.len() && *final(pos)
                == *old(pos),
        },
{
    if from.len() - *pos < 4 {
        return Err(DecodeError::UnexpectedEof);
    }
    let p = *pos;
    *pos = p + 4;
    Ok(slice_subrange(from, p, p + 4))
}

/// The bytes `from[start..end]`.
fn slice_subrange<'a>(from: &'a [u8], start: usize, end: usize) -> (res: &'a [u8])
    requires
        start <= end <= from@.len(),
    ensures
        res@ == from@.subrange(start as int, end as int),
{
    vstd::slice::slice_subrange(from, start, end)
}

fn encode_pid(p: ProcessId, target: &mut Vec<u8>)
    ensures
        final(target)@ == old(target)@ + pid_bytes(p),
{
    let b = u32_to_le_bytes(p.inner() as u32);
    write_all(target, b.as_slice());
}

fn decode_pid(from: &[u8], pos: &mut usize) -> (res: Result<ProcessId, DecodeError>)
    requires
        *old(pos) <= from@.len(),
    ensures
        *final(pos) <= from@.len(),
        match res {
            Ok(p) => *old(pos) + 4 <= from@.len() && p == read_pid(from@, *old(pos) as int)
                && *final(pos) == *old(pos) + 4,
            Err(e) => e == DecodeError::UnexpectedEof && *old(pos) + 4 > from@.len(),
        },
{
    let b = read4(from, pos)?;
    Ok(ProcessId::new(u32_from_le_bytes(b) as i32))
}

/// The bytes of a process id decode to the same process id.
proof fn lemma_pid_roundtrip(p: ProcessId)
    ensures
        ProcessId::spec_new(spec_u32_from_le_bytes(pid_bytes(p)) as i32) == p,
        pid_bytes(p).len() == 4,
{
    lemma_auto_spec_u32_to_from_le_bytes();
    let x = p.id();
    assert((x as u32) as i32 == x) by (bit_vector);
    ProcessId::lemma_spec_new_id(p);
}

impl RecordScope {
    /// Append the encoding of this scope to `target`.
    pub fn encode(&self, target: &mut Vec<u8>)
        ensures
            final(target)@ == old(target)@ + scope_bytes(*self),
            ne_roundtrip(scope_time(*self).spec_secs()),
            ne_roundtrip(scope_time(*self).spec_nsecs()),
    {
        match self {
            RecordScope::Tty { tty_device, session_pid, init_time } => {
                write_all(target, &[1u8]);
                let b = u64_to_le_bytes(tty_device.inner());
                write_all(target, b.as_slice());
                encode_pid(*session_pid, target);
                init_time.encode(target);
            },
            RecordScope::Ppid { group_pid, init_time } => {
                write_all(target, &[2u8]);
                encode_pid(*group_pid, target);
                init_time.encode(target);
            },
            RecordScope::PpidV2 { group_pid, session_pid, init_time } => {
                write_all(target, &[3u8]);
                encode_pid(*group_pid, target);
                encode_pid(*session_pid, target);
                init_time.encode(target);
            },
        }
        assert(final(target)@ =~= old(target)@ + scope_bytes(*self));
    }

    /// Read a scope at `*pos`, advancing `*pos` past it.
    pub fn decode(from: &[u8], pos: &mut usize) -> (res: Result<RecordScope, DecodeError>)
        requires
            *old(pos) <= from@.len(),
        ensures
            *final(pos) <= from@.len(),
            match decode_scope(from@, *old(pos) as int) {
                Ok((s, end)) => res == Ok::<RecordScope, DecodeError>(s) && *final(pos) == end,
                Err(e) => res == Err::<RecordScope, DecodeError>(e),
            },
    {
        if *pos >= from.len() {
            return Err(DecodeError::UnexpectedEof);
        }
        let d = from[*pos];
        *pos = *pos + 1;
        if d == 1 {
            if from.len() - *pos < 12 {
                return Err(DecodeError::UnexpectedEof);
            }
            let p = *pos;
            let tty_device = u64_from_le_bytes(slice_subrange(from, p, p + 8));
            *pos = p + 8;
            let session_pid = decode_pid(from, pos)?;
            let init_time = ProcessCreateTime::decode(from, pos)?;
            Ok(RecordScope::Tty { tty_device: DeviceId::new(tty_device), session_pid, init_time })
        } else if d == 2 {
            if from.len() - *pos < 4 {
                return Err(DecodeError::UnexpectedEof);
            }
            let group_pid = decode_pid(from, pos)?;
            let init_time = ProcessCreateTime::decode(from, pos)?;
            Ok(RecordScope::Ppid { group_pid, init_time })
        } else if d == 3 {
            if from.len() - *pos < 8 {
                return Err(DecodeError::UnexpectedEof);
            }
            let group_pid = decode_pid(from, pos)?;
            let session_pid = decode_pid(from, pos)?;
            let init_time = ProcessCreateTime::decode(from, pos)?;
            Ok(RecordScope::PpidV2 { group_pid, session_pid, init_time })
        } else {
            Err(DecodeError::InvalidInput)
        }
    }
}

/// Append the encoding of a boolean.
pub fn write_bool(b: bool, target: &mut Vec<u8>)
    ensures
        final(target)@ == old(target)@.push(bool_byte(b)),
{
    let s: u8 = if b {
        0xFF
    } else {
        0x00
    };
    target.push(s);
}

impl SessionRecord {
    pub closed spec fn spec_init(
        scope: RecordScope,
        auth_user: UserId,
        enabled: bool,
        timestamp: SystemTime,
    ) -> SessionRecord {
        SessionRecord { scope, auth_user, timestamp, enabled }
    }

    pub closed spec fn spec_scope(&self) -> RecordScope {
        self.scope
    }

    pub closed spec fn spec_auth_user(&self) -> UserId {
        self.auth_user
    }

    pub closed spec fn spec_timestamp(&self) -> SystemTime {
        self.timestamp
    }

    pub closed spec fn spec_enabled(&self) -> bool {
        self.enabled
    }

    /// The times in the record are normalised.
    pub open spec fn wf(&self) -> bool {
        &&& self.spec_timestamp().wf()
        &&& scope_time(self.spec_scope()).wf()
    }

    /// Initialize a new record with the given parameters
    pub fn init(scope: RecordScope, auth_user: UserId, enabled: bool, timestamp: SystemTime) -> (r:
        SessionRecord)
        ensures
            r == Self::spec_init(scope, auth_user, enabled, timestamp),
            r.spec_scope() == scope,
            r.spec_auth_user() == auth_user,
            r.spec_enabled() == enabled,
            r.spec_timestamp() == timestamp,
    {
        SessionRecord { scope, auth_user, timestamp, enabled }
    }

    /// Encode a record into the given stream
    pub fn encode(&self, target: &mut Vec<u8>)
        ensures
            final(target)@ == old(target)@ + record_bytes(*self),
            self.ne_facts(),
    {
        self.scope.encode(target);
        let buf = u32_to_le_bytes(self.auth_user.inner());
        write_all(target, buf.as_slice());
        self.timestamp.encode(target);
        write_bool(self.enabled, target);
        assert(final(target)@ =~= old(target)@ + record_bytes(*self));
    }

    /// Decode a record from the given stream
    pub fn decode(from: &[u8], pos: &mut usize) -> (res: Result<SessionRecord, DecodeError>)
        requires
            *old(pos) <= from@.len(),
        ensures
            *final(pos) <= from@.len(),
            match decode_record(from@, *old(pos) as int) {
                Ok((r, end)) => res == Ok::<SessionRecord, DecodeError>(r) && *final(pos) == end,
                Err(e) => res == Err::<SessionRecord, DecodeError>(e),
            },
    {
        let scope = RecordScope::decode(from, pos)?;
        let b = read4(from, pos)?;
        let auth_user = UserId::new(u32_from_le_bytes(b));
        let timestamp = SystemTime::decode(from, pos)?;
        if *pos >= from.len() {
            return Err(DecodeError::UnexpectedEof);
        }
        let e = from[*pos];
        *pos = *pos + 1;
        let enabled = if e == 0xFF {
            true
        } else if e == 0x00 {
            false
        } else {
            return Err(DecodeError::InvalidData);
        };
        Ok(SessionRecord::init(scope, auth_user, enabled, timestamp))
    }

    /// Convert the record to a vector of bytes for storage. Converting the bytes back
    /// gives the record again.
    pub fn as_bytes(&self) -> (v: Vec<u8>)
        requires
            self.wf(),
        ensures
            v@ == record_bytes(*self),
            decode_record_exact(v@) == Ok::<SessionRecord, DecodeError>(*self),
    {
        let mut v: Vec<u8> = Vec::new();
        self.encode(&mut v);
        proof {
            assert(v@ =~= record_bytes(*self));
            self.lemma_roundtrip();
        }
        v
    }

    /// Convert the given byte slice to a session record, the byte slice must
    /// be fully consumed for this conversion to be valid.
    pub fn from_bytes(data: &[u8]) -> (res: Result<SessionRecord, DecodeError>)
        ensures
            res == decode_record_exact(data@),
    {
        let mut pos: usize = 0;
        let record = SessionRecord::decode(data, &mut pos)?;
        if pos != data.len() {
            Err(DecodeError::InvalidInput)
        } else {
            Ok(record)
        }
    }

    /// The record is enabled and is for the scope and the user.
    pub fn enabled_and_matches(&self, scope: &RecordScope, auth_user: UserId) -> (b: bool)
        ensures
            b == (self.spec_enabled() && self.spec_scope() == *scope && self.spec_auth_user()
                == auth_user),
    {
        self.enabled && self.matches(scope, auth_user)
    }

    /// The record is for the scope, whatever the user.
    pub fn scope_is(&self, scope: &RecordScope) -> (b: bool)
        ensures
            b == (self.spec_scope() == *scope),
    {
        scope_eq(&self.scope, scope)
    }

    /// When the record was written.
    pub fn timestamp(&self) -> (t: SystemTime)
        ensures
            t == self.spec_timestamp(),
    {
        self.timestamp
    }

    /// The parts of a record are those it was made of.
    pub proof fn lemma_spec_init(scope: RecordScope, auth_user: UserId, enabled: bool, timestamp: SystemTime)
        ensures
            Self::spec_init(scope, auth_user, enabled, timestamp).spec_scope() == scope,
            Self::spec_init(scope, auth_user, enabled, timestamp).spec_auth_user() == auth_user,
            Self::spec_init(scope, auth_user, enabled, timestamp).spec_enabled() == enabled,
            Self::spec_init(scope, auth_user, enabled, timestamp).spec_timestamp() == timestamp,
    {
    }

    /// A record read from bytes holds a well-formed time.
    pub proof fn lemma_decoded_wf(&self, b: Seq<u8>)
        requires
            decode_record_exact(b) == Ok::<SessionRecord, DecodeError>(*self),
        ensures
            self.spec_timestamp().wf(),
    {
        match decode_scope(b, 0) {
            Ok((scope, p1)) => {
                match read_time(b, p1 + 4) {
                    Ok((secs, nsecs)) => {
                        SystemTime::lemma_spec_new_is_wf(secs, nsecs);
                    },
                    Err(_) => {},
                }
            },
            Err(_) => {},
        }
    }

    /// Returns true if this record matches the specified scope and is for the
    /// specified target auth user.
    pub fn matches(&self, scope: &RecordScope, auth_user: UserId) -> (b: bool)
        ensures
            b == (self.spec_scope() == *scope && self.spec_auth_user() == auth_user),
    {
        scope_eq(&self.scope, scope) && self.auth_user == auth_user
    }

    /// Returns true if this record was written somewhere in the time range
    /// between `early_time` (inclusive) and `later_time` (inclusive), where
    /// early timestamp may not be later than the later timestamp.
    pub fn written_between(&self, early_time: SystemTime, later_time: SystemTime) -> (b: bool)
        ensures
            b == (time_le(early_time, later_time) && time_le(early_time, self.spec_timestamp())
                && time_le(self.spec_timestamp(), later_time)),
    {
        early_time.le(&later_time) && early_time.le(&self.timestamp) && self.timestamp.le(
            &later_time,
        )
    }
}

/// `a` is not later than `b`.
pub open spec fn time_le(a: SystemTime, b: SystemTime) -> bool {
    a.spec_secs() < b.spec_secs() || (a.spec_secs() == b.spec_secs() && a.spec_nsecs()
        <= b.spec_nsecs())
}

fn time_eq(a: &ProcessCreateTime, b: &ProcessCreateTime) -> (res: bool)
    ensures
        res == (*a == *b),
{
    *a == *b
}

fn scope_eq(a: &RecordScope, b: &RecordScope) -> (res: bool)
    ensures
        res == (*a == *b),
{
    match (a, b) {
        (
            RecordScope::Tty { tty_device: d1, session_pid: s1, init_time: t1 },
            RecordScope::Tty { tty_device: d2, session_pid: s2, init_time: t2 },
        ) => *d1 == *d2 && *s1 == *s2 && time_eq(t1, t2),
        (
            RecordScope::Ppid { group_pid: g1, init_time: t1 },
            RecordScope::Ppid { group_pid: g2, init_time: t2 },
        ) => *g1 == *g2 && time_eq(t1, t2),
        (
            RecordScope::PpidV2 { group_pid: g1, session_pid: s1, init_time: t1 },
            RecordScope::PpidV2 { group_pid: g2, session_pid: s2, init_time: t2 },
        ) => *g1 == *g2 && *s1 == *s2 && time_eq(t1, t2),
        _ => false,
    }
}

impl SessionRecord {
    /// The native-endian encodings of the record's times read back as those times.
    pub open spec fn ne_facts(&self) -> bool {
        &&& ne_roundtrip(scope_time(self.spec_scope()).spec_secs())
        &&& ne_roundtrip(scope_time(self.spec_scope()).spec_nsecs())
        &&& ne_roundtrip(self.spec_timestamp().spec_secs())
        &&& ne_roundtrip(self.spec_timestamp().spec_nsecs())
    }

    /// Decoding the encoding of a record gives the record back, with every byte used.
    pub proof fn lemma_roundtrip(&self)
        requires
            self.wf(),
            self.ne_facts(),
        ensures
            decode_record_exact(record_bytes(*self)) == Ok::<SessionRecord, DecodeError>(*self),
    {
        let b = record_bytes(*self);
        let sb = scope_bytes(self.spec_scope());
        let ub = spec_u32_to_le_bytes(self.spec_auth_user().id());
        let ts = self.spec_timestamp();
        let tb = time_bytes(ts.spec_secs(), ts.spec_nsecs());
        let rest = ub + tb + seq![bool_byte(self.spec_enabled())];
        assert(b =~= sb + rest);
        lemma_scope_roundtrip(self.spec_scope(), rest);
        let l = sb.len() as int;
        lemma_auto_spec_u32_to_from_le_bytes();
        assert(b.subrange(l, l + 4) =~= ub);
        ts.lemma_spec_new_wf();
        assert(b.subrange(l + 4, l + 20) =~= tb);
        lemma_read_time(b, l + 4, ts.spec_secs(), ts.spec_nsecs());
        assert(b[l + 20] == bool_byte(self.spec_enabled()));
        UserId::lemma_spec_new_id(self.spec_auth_user());
        assert(b.len() == l + 21);
        assert(Self::spec_init(
            self.spec_scope(),
            self.spec_auth_user(),
            self.spec_enabled(),
            ts,
        ) == *self);
    }
}

/// A stored record is exactly as long as its encoding: with one byte more, or with its last
/// byte missing, it does not decode.
pub proof fn law_record_length_exact(rec: SessionRecord, extra: u8)
    requires
        rec.wf(),
        rec.ne_facts(),
    ensures
        decode_record_exact(record_bytes(rec).push(extra)) is Err,
        decode_record_exact(record_bytes(rec).drop_last()) is Err,
{
    let sb = scope_bytes(rec.spec_scope());
    let ub = spec_u32_to_le_bytes(rec.spec_auth_user().id());
    let ts = rec.spec_timestamp();
    let tb = time_bytes(ts.spec_secs(), ts.spec_nsecs());
    let l = sb.len() as int;
    lemma_auto_spec_u32_to_from_le_bytes();
    ts.lemma_spec_new_wf();
    // one byte more
    let rest = ub + tb + seq![bool_byte(rec.spec_enabled()), extra];
    let b = record_bytes(rec).push(extra);
    assert(b =~= sb + rest);
    lemma_scope_roundtrip(rec.spec_scope(), rest);
    assert(b.subrange(l + 4, l + 20) =~= tb);
    lemma_read_time(b, l + 4, ts.spec_secs(), ts.spec_nsecs());
    assert(b[l + 20] == bool_byte(rec.spec_enabled()));
    assert(b.len() == l + 22);
    // one byte less
    let rest2 = ub + tb;
    let b2 = record_bytes(rec).drop_last();
    assert(b2 =~= sb + rest2);
    lemma_scope_roundtrip(rec.spec_scope(), rest2);
    assert(b2.subrange(l + 4, l + 20) =~= tb);
    lemma_read_time(b2, l + 4, ts.spec_secs(), ts.spec_nsecs());
    assert(b2.len() == l + 20);
}

/// Reading an encoded (seconds, nanoseconds) pair gives it back.
pub proof fn lemma_read_time(b: Seq<u8>, pos: int, secs: i64, nsecs: i64)
    requires
        0 <= pos,
        pos + 16 <= b.len(),
        b.subrange(pos, pos + 16) == time_bytes(secs, nsecs),
        ne_roundtrip(secs),
        ne_roundtrip(nsecs),
        normalisable(secs as int, nsecs as int),
    ensures
        read_time(b, pos) == Ok::<(int, int), DecodeError>((secs as int, nsecs as int)),
{
    assert(b.subrange(pos, pos + 8) =~= time_bytes(secs, nsecs).subrange(0, 8));
    assert(time_bytes(secs, nsecs).subrange(0, 8) =~= i64_ne_bytes(secs));
    assert(b.subrange(pos + 8, pos + 16) =~= time_bytes(secs, nsecs).subrange(8, 16));
    assert(time_bytes(secs, nsecs).subrange(8, 16) =~= i64_ne_bytes(nsecs));
}

/// Decoding the encoding of a scope, followed by anything, gives the scope back.
pub proof fn lemma_scope_roundtrip(s: RecordScope, rest: Seq<u8>)
    requires
        scope_time(s).wf(),
        ne_roundtrip(scope_time(s).spec_secs()),
        ne_roundtrip(scope_time(s).spec_nsecs()),
    ensures
        decode_scope(scope_bytes(s) + rest, 0) == Ok::<(RecordScope, int), DecodeError>(
            (s, scope_bytes(s).len() as int),
        ),
{
    let b = scope_bytes(s) + rest;
    let t = scope_time(s);
    t.lemma_spec_new_wf();
    lemma_auto_spec_u64_to_from_le_bytes();
    let tb = time_bytes(t.spec_secs(), t.spec_nsecs());
    match s {
        RecordScope::Tty { tty_device, session_pid, init_time } => {
            lemma_pid_roundtrip(session_pid);
            DeviceId::lemma_spec_new_id(tty_device);
            assert(b.subrange(1, 9) =~= spec_u64_to_le_bytes(tty_device.id()));
            assert(b.subrange(9, 13) =~= pid_bytes(session_pid));
            assert(b.subrange(13, 29) =~= tb);
            lemma_read_time(b, 13, t.spec_secs(), t.spec_nsecs());
        },
        RecordScope::Ppid { group_pid, init_time } => {
            lemma_pid_roundtrip(group_pid);
            assert(b.subrange(1, 5) =~= pid_bytes(group_pid));
            assert(b.subrange(5, 21) =~= tb);
            lemma_read_time(b, 5, t.spec_secs(), t.spec_nsecs());
        },
        RecordScope::PpidV2 { group_pid, session_pid, init_time } => {
            lemma_pid_roundtrip(group_pid);
            lemma_pid_roundtrip(session_pid);
            assert(b.subrange(1, 5) =~= pid_bytes(group_pid));
            assert(b.subrange(5, 9) =~= pid_bytes(session_pid));
            assert(b.subrange(9, 25) =~= tb);
            lemma_read_time(b, 9, t.spec_secs(), t.spec_nsecs());
        },
    }
}

} // verus!
