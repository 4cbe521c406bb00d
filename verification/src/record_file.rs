//! The session records file of a user: a header (magic number and version), then records,
//! each preceded by its length. The file's contents are held as bytes; reading them from
//! disk and writing them back (under a lock) is left to the caller.

use vstd::prelude::*;
use crate::interface::UserId;
use crate::time::{ne_roundtrip, time_bytes, Duration, SystemTime};
use crate::timestamp::{
    decode_record_exact, record_bytes, CreateResult, RecordScope, SessionRecord, TouchResult,
};

verus! {

broadcast use vstd::seq_lib::group_seq_properties;

/// The header of a session records file: the magic number `0x50D0` and file version 1, both
/// as little-endian 16-bit numbers.
pub open spec fn header() -> Seq<u8> {
    seq![0xD0u8, 0x50u8, 0x01u8, 0x00u8]
}

/// Where the first record starts.
pub open spec fn first_record() -> int {
    4
}

/// The contents start with the header.
pub open spec fn valid_header(c: Seq<u8>) -> bool {
    c.len() >= 4 && c.take(4) == header()
}

/// What is found at a position of the file.
pub enum Step {
    /// Fewer than two bytes are left: the end of the records.
    End,
    /// A record of length zero: the file is damaged.
    Empty,
    /// A record that is cut short or cannot be read: it and what follows are dropped.
    Cut,
    /// A record, and the position after it.
    Record(SessionRecord, int),
}

/// The little-endian 16-bit number at `pos`.
pub open spec fn len_at(c: Seq<u8>, pos: int) -> int {
    c[pos] as int + 256 * (c[pos + 1] as int)
}

/// What is found at `pos`.
pub open spec fn step(c: Seq<u8>, pos: int) -> Step {
    if pos < 0 || pos + 2 > c.len() {
        Step::End
    } else {
        let n = len_at(c, pos);
        if n == 0 {
            Step::Empty
        } else if pos + 2 + n > c.len() {
            Step::Cut
        } else {
            match decode_record_exact(c.subrange(pos + 2, pos + 2 + n)) {
                Ok(r) => Step::Record(r, pos + 2 + n),
                Err(_) => Step::Cut,
            }
        }
    }
}

/// A record takes at least 22 bytes.
pub proof fn lemma_exact_len(b: Seq<u8>)
    ensures
        decode_record_exact(b) is Ok ==> b.len() >= 22,
{
}

pub proof fn lemma_step_advances(c: Seq<u8>, pos: int)
    ensures
        step(c, pos) matches Step::Record(_, end) ==> pos + 24 <= end <= c.len(),
{
    if 0 <= pos && pos + 2 <= c.len() {
        let n = len_at(c, pos);
        if n != 0 && pos + 2 + n <= c.len() {
            lemma_exact_len(c.subrange(pos + 2, pos + 2 + n));
        }
    }
}

/// The record is enabled and is for the scope and the user.
pub open spec fn enabled_match(r: SessionRecord, scope: RecordScope, user: UserId) -> bool {
    r.spec_enabled() && r.spec_scope() == scope && r.spec_auth_user() == user
}

/// The record was written no longer than `timeout` before `now`, and not after it.
pub open spec fn in_window(r: SessionRecord, now: SystemTime, timeout: Duration) -> bool {
    now.total_nanos() - timeout.spec_nanos() <= r.spec_timestamp().total_nanos()
        <= now.total_nanos()
}

/// The contents with the time of the record that ends at `end` replaced.
pub open spec fn with_time(c: Seq<u8>, end: int, t: SystemTime) -> Seq<u8> {
    c.take(end - 17) + time_bytes(t.spec_secs(), t.spec_nsecs()) + c.skip(end - 1)
}

/// The contents with the enabled flag of the record that ends at `end` set.
pub open spec fn with_flag(c: Seq<u8>, end: int, enabled: bool) -> Seq<u8> {
    c.update(end - 1, if enabled { 0xFFu8 } else { 0x00u8 })
}

/// Looking for the first enabled record of the scope and user from `pos`: refreshed to
/// `new_time` when it lies within the timeout before `now`; outdated otherwise; not found
/// when the records end first (a damaged tail is dropped). `None` for a record of length
/// zero.
pub open spec fn touch_from(
    c: Seq<u8>,
    pos: int,
    scope: RecordScope,
    user: UserId,
    now: SystemTime,
    timeout: Duration,
    new_time: SystemTime,
) -> (Option<TouchResult>, Seq<u8>)
    decreases c.len() - pos,
{
    proof {
        lemma_step_advances(c, pos);
    }
    match step(c, pos) {
        Step::End => (Some(TouchResult::NotFound), c),
        Step::Empty => (None, c),
        Step::Cut => (Some(TouchResult::NotFound), c.take(pos)),
        Step::Record(r, end) => if enabled_match(r, scope, user) {
            if in_window(r, now, timeout) {
                (
                    Some(TouchResult::Updated { old_time: r.spec_timestamp(), new_time }),
                    with_time(c, end, new_time),
                )
            } else {
                (Some(TouchResult::Outdated { time: r.spec_timestamp() }), c)
            }
        } else {
            touch_from(c, end, scope, user, now, timeout, new_time)
        },
    }
}

/// Disabling, from `pos`, every record for the scope (and user, when given); `None` for a
/// record of length zero.
pub open spec fn disable_from(c: Seq<u8>, pos: int, scope: RecordScope, user: Option<UserId>) -> Option<
    Seq<u8>,
>
    decreases c.len() - pos,
{
    proof {
        lemma_step_advances(c, pos);
    }
    match step(c, pos) {
        Step::End => Some(c),
        Step::Empty => None,
        Step::Cut => Some(c.take(pos)),
        Step::Record(r, end) => {
            let hit = match user {
                Some(u) => r.spec_scope() == scope && r.spec_auth_user() == u,
                None => r.spec_scope() == scope,
            };
            disable_from(if hit { with_flag(c, end, false) } else { c }, end, scope, user)
        },
    }
}

/// The bytes that store a new record: its length, then the record.
pub open spec fn stored(r: SessionRecord) -> Seq<u8> {
    seq![(record_bytes(r).len() % 256) as u8, (record_bytes(r).len() / 256) as u8] + record_bytes(r)
}

/// Creating, from `pos`, a record for the scope and user at `now`: the first record for them
/// (enabled or not) is refreshed and enabled; without one, a new record is added at the end
/// (after a damaged tail is dropped). `None` for a record of length zero.
pub open spec fn create_from(
    c: Seq<u8>,
    pos: int,
    scope: RecordScope,
    user: UserId,
    now: SystemTime,
) -> (Option<CreateResult>, Seq<u8>)
    decreases c.len() - pos,
{
    proof {
        lemma_step_advances(c, pos);
    }
    let fresh = SessionRecord::spec_init(scope, user, true, now);
    match step(c, pos) {
        Step::End => (Some(CreateResult::Created { time: now }), c + stored(fresh)),
        Step::Empty => (None, c),
        Step::Cut => (Some(CreateResult::Created { time: now }), c.take(pos) + stored(fresh)),
        Step::Record(r, end) => if r.spec_scope() == scope && r.spec_auth_user() == user {
            (
                Some(CreateResult::Updated { old_time: r.spec_timestamp(), new_time: now }),
                with_flag(with_time(c, end, now), end, true),
            )
        } else {
            create_from(c, end, scope, user, now)
        },
    }
}

/// Whether, from `pos`, an enabled record for the scope and user comes before the records
/// end: then its time is compared with the window that ends at the current time.
pub open spec fn finds_enabled(c: Seq<u8>, pos: int, scope: RecordScope, user: UserId) -> bool
    decreases c.len() - pos,
{
    proof {
        lemma_step_advances(c, pos);
    }
    match step(c, pos) {
        Step::Record(r, end) => enabled_match(r, scope, user) || finds_enabled(c, end, scope, user),
        _ => false,
    }
}

/// `now - timeout` does not overflow.
pub open spec fn sub_fits(now: SystemTime, d: Duration) -> bool {
    let rs = d.spec_nanos() / 1_000_000_000;
    let rn = d.spec_nanos() % 1_000_000_000;
    !(rs > i64::MAX || now.spec_secs() - rs < i64::MIN || now.spec_secs() - rs + (now.spec_nsecs()
        - rn) / 1_000_000_000 < i64::MIN)
}

/// What is found at a position, in executable form.
pub enum Found {
    End,
    Empty,
    Cut,
    Record(SessionRecord, usize),
}

fn read_step(c: &Vec<u8>, pos: usize) -> (r: Found)
    ensures
        match step(c@, pos as int) {
            Step::End => r is End,
            Step::Empty => r is Empty,
            Step::Cut => r is Cut,
            Step::Record(rec, end) => r matches Found::Record(x, e) && x == rec && e as int == end,
        },
        r matches Found::Record(_, e) ==> step(c@, pos as int) is Record,
{
    if pos > c.len() || c.len() - pos < 2 {
        return Found::End;
    }
    let n = c[pos] as usize + 256 * (c[pos + 1] as usize);
    if n == 0 {
        Found::Empty
    } else if n > c.len() - pos - 2 {
        Found::Cut
    } else {
        let bytes = vstd::slice::slice_subrange(c.as_slice(), pos + 2, pos + 2 + n);
        match SessionRecord::from_bytes(bytes) {
            Ok(r) => Found::Record(r, pos + 2 + n),
            Err(_) => Found::Cut,
        }
    }
}

/// Overwrite the time of the record that ends at `end`.
fn write_time(c: &mut Vec<u8>, end: usize, t: SystemTime)
    requires
        17 <= end <= old(c)@.len(),
    ensures
        final(c)@ == with_time(old(c)@, end as int, t),
        final(c)@.len() == old(c)@.len(),
{
    let mut buf: Vec<u8> = Vec::new();
    t.encode(&mut buf);
    proof {
        assert(buf@ =~= time_bytes(t.spec_secs(), t.spec_nsecs()));
        assert(buf@.len() == 16);
    }
    let start = end - 17;
    let ghost orig = c@;
    let mut i: usize = 0;
    while i < 16
        invariant
            i <= 16,
            start + 17 == end,
            end <= orig.len(),
            buf@.len() == 16,
            c@.len() == orig.len(),
            forall|k: int| 0 <= k < start ==> c@[k] == orig[k],
            forall|k: int| start <= k < start + i ==> c@[k] == buf@[k - start],
            forall|k: int| start + i <= k < orig.len() ==> c@[k] == orig[k],
        decreases 16 - i,
    {
        c.set(start + i, buf[i]);
        i += 1;
    }
    proof {
        assert(c@ =~= with_time(orig, end as int, t));
    }
}

/// Overwrite the enabled flag of the record that ends at `end`.
fn write_flag(c: &mut Vec<u8>, end: usize, enabled: bool)
    requires
        1 <= end <= old(c)@.len(),
    ensures
        final(c)@ == with_flag(old(c)@, end as int, enabled),
{
    c.set(end - 1, if enabled { 0xFFu8 } else { 0x00u8 });
}

/// The time in the scope is well formed.
pub open spec fn scope_time_wf(s: RecordScope) -> bool {
    crate::timestamp::scope_time(s).wf()
}

/// A record of length zero was found: the file is damaged.
#[derive(Debug, PartialEq, Eq)]
pub struct EmptyRecord;

/// The session records of one user.
pub struct SessionRecordFile {
    content: Vec<u8>,
    timeout: Duration,
    for_user: UserId,
}

impl SessionRecordFile {
    pub closed spec fn view(&self) -> Seq<u8> {
        self.content@
    }

    pub closed spec fn spec_timeout(&self) -> Duration {
        self.timeout
    }

    pub closed spec fn spec_for_user(&self) -> UserId {
        self.for_user
    }

    /// The contents start with the header.
    pub closed spec fn wf(&self) -> bool {
        valid_header(self.content@)
    }

    /// The records file with these contents: kept when they start with the right header,
    /// otherwise reset to an empty file with a header.
    pub fn new(for_user: UserId, content: Vec<u8>, timeout: Duration) -> (f: SessionRecordFile)
        ensures
            f.wf(),
            f@ == (if valid_header(content@) {
                content@
            } else {
                header()
            }),
            f.spec_timeout() == timeout,
            f.spec_for_user() == for_user,
    {
        let ok = content.len() >= 4 && content[0] == 0xD0u8 && content[1] == 0x50u8 && content[2]
            == 0x01u8 && content[3] == 0x00u8;
        proof {
            if content@.len() >= 4 {
                assert(ok == (content@.take(4) =~= header()));
            }
        }
        if ok {
            SessionRecordFile { content, timeout, for_user }
        } else {
            let mut f = SessionRecordFile { content: Vec::new(), timeout, for_user };
            f.reset();
            f
        }
    }

    /// The contents, to be written back.
    pub fn content(&self) -> (c: &Vec<u8>)
        ensures
            c@ == self@,
    {
        &self.content
    }

    /// Refresh the first enabled record for the scope and user from `now`'s window: see
    /// `touch_from`. `new_time` is the time to store.
    pub fn touch(&mut self, scope: RecordScope, auth_user: UserId, now: SystemTime, new_time: SystemTime) -> (r: Result<TouchResult, EmptyRecord>)
        requires
            old(self).wf(),
            now.wf(),
            finds_enabled(old(self)@, first_record(), scope, auth_user) ==> sub_fits(now, old(self).spec_timeout()),
        ensures
            final(self).wf(),
            final(self).spec_timeout() == old(self).spec_timeout(),
            final(self).spec_for_user() == old(self).spec_for_user(),
            match touch_from(old(self)@, first_record(), scope, auth_user, now, old(self).spec_timeout(), new_time) {
                (Some(t), c) => r == Ok::<TouchResult, EmptyRecord>(t) && final(self)@ == c,
                (None, c) => r == Err::<TouchResult, EmptyRecord>(EmptyRecord) && final(self)@ == c,
            },
    {
        let ghost c0 = self.content@;
        let ghost goal = touch_from(c0, first_record(), scope, auth_user, now, self.timeout, new_time);
        let mut pos: usize = 4;
        proof {
            assert(old(self)@.len() >= 4);
        }
        loop
            invariant
                self.content@ == c0,
                c0 == old(self)@,
                4 <= pos <= c0.len(),
                self.timeout == old(self).spec_timeout(),
                self.for_user == old(self).spec_for_user(),
                now.wf(),
                goal == touch_from(c0, first_record(), scope, auth_user, now, self.timeout, new_time),
                touch_from(c0, pos as int, scope, auth_user, now, self.timeout, new_time) == goal,
                valid_header(c0),
                finds_enabled(c0, pos as int, scope, auth_user) ==> sub_fits(now, self.timeout),
            decreases self.content@.len() - pos,
        {
            proof {
                lemma_step_advances(c0, pos as int);
            }
            match read_step(&self.content, pos) {
                Found::End => {
                    return Ok(TouchResult::NotFound);
                },
                Found::Empty => {
                    return Err(EmptyRecord);
                },
                Found::Cut => {
                    self.content.truncate(pos);
                    proof {
                        assert(self.content@ =~= c0.take(pos as int));
                        assert(self.content@.take(4) =~= c0.take(4));
                    }
                    return Ok(TouchResult::NotFound);
                },
                Found::Record(record, end) => {
                    if record.enabled_and_matches(&scope, auth_user) {
                        let start = match now.checked_sub(self.timeout) {
                            Some(t) => t,
                            None => {
                                proof {
                                    assert(false);
                                }
                                return Ok(TouchResult::NotFound);
                            },
                        };
                        let inside = record.written_between(start, now);
                        proof {
                            record.lemma_decoded_wf(c0.subrange(pos + 2, end as int));
                            SystemTime::lemma_le_total(start, now);
                            SystemTime::lemma_le_total(start, record.spec_timestamp());
                            SystemTime::lemma_le_total(record.spec_timestamp(), now);
                            assert(inside == in_window(record, now, self.timeout));
                        }
                        if inside {
                            write_time(&mut self.content, end, new_time);
                            proof {
                                assert(self.content@.take(4) =~= c0.take(4));
                            }
                            return Ok(TouchResult::Updated { old_time: record.timestamp(), new_time });
                        } else {
                            return Ok(TouchResult::Outdated { time: record.timestamp() });
                        }
                    }
                    pos = end;
                },
            }
        }
    }

    /// Disable every record for the scope (and user, when given): see `disable_from`.
    pub fn disable(&mut self, scope: RecordScope, auth_user: Option<UserId>) -> (r: Result<(), EmptyRecord>)
        requires
            old(self).wf(),
        ensures
            final(self).wf(),
            final(self).spec_timeout() == old(self).spec_timeout(),
            final(self).spec_for_user() == old(self).spec_for_user(),
            match disable_from(old(self)@, first_record(), scope, auth_user) {
                Some(c) => r is Ok && final(self)@ == c,
                None => r is Err,
            },
    {
        let ghost goal = disable_from(self.content@, first_record(), scope, auth_user);
        let mut pos: usize = 4;
        proof {
            assert(old(self)@.len() >= 4);
        }
        loop
            invariant
                self.timeout == old(self).spec_timeout(),
                self.for_user == old(self).spec_for_user(),
                goal == disable_from(old(self)@, first_record(), scope, auth_user),
                disable_from(self.content@, pos as int, scope, auth_user) == goal,
                valid_header(self.content@),
                4 <= pos <= self.content@.len(),
                self.content@.len() == old(self)@.len(),
            decreases self.content@.len() - pos,
        {
            let ghost c = self.content@;
            proof {
                lemma_step_advances(c, pos as int);
            }
            match read_step(&self.content, pos) {
                Found::End => {
                    return Ok(());
                },
                Found::Empty => {
                    return Err(EmptyRecord);
                },
                Found::Cut => {
                    self.content.truncate(pos);
                    proof {
                        assert(self.content@ =~= c.take(pos as int));
                        assert(self.content@.take(4) =~= c.take(4));
                    }
                    return Ok(());
                },
                Found::Record(record, end) => {
                    let hit = match auth_user {
                        Some(u) => record.matches(&scope, u),
                        None => record.scope_is(&scope),
                    };
                    if hit {
                        write_flag(&mut self.content, end, false);
                        proof {
                            assert(self.content@.take(4) =~= c.take(4));
                        }
                    }
                    pos = end;
                },
            }
        }
    }

    /// Create or refresh the record for the scope and user at `now`: see `create_from`.
    pub fn create(&mut self, scope: RecordScope, auth_user: UserId, now: SystemTime) -> (r: Result<CreateResult, EmptyRecord>)
        requires
            old(self).wf(),
            now.wf(),
            scope_time_wf(scope),
        ensures
            final(self).wf(),
            final(self).spec_timeout() == old(self).spec_timeout(),
            final(self).spec_for_user() == old(self).spec_for_user(),
            match create_from(old(self)@, first_record(), scope, auth_user, now) {
                (Some(t), c) => r == Ok::<CreateResult, EmptyRecord>(t) && final(self)@ == c,
                (None, c) => r == Err::<CreateResult, EmptyRecord>(EmptyRecord) && final(self)@ == c,
            },
    {
        let ghost c0 = self.content@;
        let ghost goal = create_from(c0, first_record(), scope, auth_user, now);
        let mut pos: usize = 4;
        proof {
            assert(old(self)@.len() >= 4);
        }
        loop
            invariant
                self.content@ == c0,
                c0 == old(self)@,
                4 <= pos <= c0.len(),
                self.timeout == old(self).spec_timeout(),
                self.for_user == old(self).spec_for_user(),
                goal == create_from(c0, first_record(), scope, auth_user, now),
                now.wf(),
                scope_time_wf(scope),
                create_from(c0, pos as int, scope, auth_user, now) == goal,
                valid_header(c0),
            decreases self.content@.len() - pos,
        {
            proof {
                lemma_step_advances(c0, pos as int);
            }
            match read_step(&self.content, pos) {
                Found::End => {
                    self.append_new(scope, auth_user, now);
                    proof {
                        assert(self@.take(4) =~= c0.take(4));
                    }
                    return Ok(CreateResult::Created { time: now });
                },
                Found::Empty => {
                    return Err(EmptyRecord);
                },
                Found::Cut => {
                    self.content.truncate(pos);
                    proof {
                        assert(self.content@ =~= c0.take(pos as int));
                    }
                    self.append_new(scope, auth_user, now);
                    proof {
                        assert(self@.take(4) =~= c0.take(4));
                    }
                    return Ok(CreateResult::Created { time: now });
                },
                Found::Record(record, end) => {
                    if record.matches(&scope, auth_user) {
                        write_time(&mut self.content, end, now);
                        write_flag(&mut self.content, end, true);
                        proof {
                            assert(self.content@.take(4) =~= c0.take(4));
                        }
                        return Ok(CreateResult::Updated { old_time: record.timestamp(), new_time: now });
                    }
                    pos = end;
                },
            }
        }
    }

    /// Append a new enabled record at the end.
    fn append_new(&mut self, scope: RecordScope, auth_user: UserId, now: SystemTime)
        requires
            now.wf(),
            scope_time_wf(scope),
        ensures
            final(self)@ == old(self)@ + stored(SessionRecord::spec_init(scope, auth_user, true, now)),
            final(self).spec_timeout() == old(self).spec_timeout(),
            final(self).spec_for_user() == old(self).spec_for_user(),
    {
        let record = SessionRecord::init(scope, auth_user, true, now);
        let bytes = record.as_bytes();
        let n = bytes.len();
        self.content.push((n % 256) as u8);
        self.content.push((n / 256) as u8);
        let ghost before = self.content@;
        crate::time::write_all(&mut self.content, bytes.as_slice());
        proof {
            assert(self.content@ =~= old(self)@ + stored(record));
        }
    }

    /// Forget all records: the contents become the header alone.
    pub fn reset(&mut self)
        ensures
            final(self).wf(),
            final(self)@ == header(),
            final(self).spec_timeout() == old(self).spec_timeout(),
            final(self).spec_for_user() == old(self).spec_for_user(),
    {
        let mut c: Vec<u8> = Vec::new();
        c.push(0xD0u8);
        c.push(0x50u8);
        c.push(0x01u8);
        c.push(0x00u8);
        proof {
            assert(c@ =~= header());
        }
        self.content = c;
    }
}

// ---------------------------------------------------------------------------------------------
// Whether to authenticate
// ---------------------------------------------------------------------------------------------

/// Whether the user must authenticate, and the records file to update once they have.
pub struct AuthStatus {
    pub must_authenticate: bool,
    pub record_file: Option<SessionRecordFile>,
}

/// The session records are consulted only when the policy asks for authentication, records
/// are in use, and the process has a scope to record.
pub fn uses_record_file(must_policy_authenticate: bool, use_session_records: bool, record_for: &Option<RecordScope>) -> (b: bool)
    ensures
        b == (must_policy_authenticate && use_session_records && record_for is Some),
{
    must_policy_authenticate && use_session_records && record_for.is_some()
}

/// Whether authentication is needed: not when the policy does not ask for it; otherwise not
/// when the records file (`opened`: the user's file, when it could be opened) holds an
/// enabled record of the scope and user written within the timeout before `now`, which is
/// then refreshed to `new_time`. The file is kept for the update after authenticating,
/// unless it turned out to be damaged.
pub fn determine_auth_status(
    must_policy_authenticate: bool,
    use_session_records: bool,
    record_for: Option<RecordScope>,
    opened: Option<SessionRecordFile>,
    auth_user: UserId,
    now: SystemTime,
    new_time: SystemTime,
) -> (r: AuthStatus)
    requires
        now.wf(),
        opened matches Some(f) ==> f.wf() && (record_for matches Some(scope) ==> (finds_enabled(
            f@,
            first_record(),
            scope,
            auth_user,
        ) ==> sub_fits(now, f.spec_timeout()))),
    ensures
        !must_policy_authenticate ==> !r.must_authenticate && r.record_file is None,
        must_policy_authenticate && !(use_session_records && record_for is Some) ==> r.must_authenticate
            && r.record_file is None,
        must_policy_authenticate && use_session_records && opened is None ==> r.must_authenticate
            && r.record_file is None,
        must_policy_authenticate && use_session_records ==> match (record_for, opened) {
            (Some(scope), Some(f)) => match touch_from(f@, first_record(), scope, auth_user, now, f.spec_timeout(), new_time) {
                (Some(TouchResult::Updated { .. }), c) => !r.must_authenticate && (r.record_file matches Some(g)
                    && g@ == c && g.wf() && g.spec_timeout() == f.spec_timeout() && g.spec_for_user()
                    == f.spec_for_user()),
                (Some(_), c) => r.must_authenticate && (r.record_file matches Some(g) && g@ == c && g.wf()
                    && g.spec_timeout() == f.spec_timeout() && g.spec_for_user() == f.spec_for_user()),
                (None, _) => r.must_authenticate && r.record_file is None,
            },
            _ => true,
        },
{
    if !must_policy_authenticate {
        return AuthStatus { must_authenticate: false, record_file: None };
    }
    if !use_session_records {
        return AuthStatus { must_authenticate: true, record_file: None };
    }
    match (record_for, opened) {
        (Some(scope), Some(mut f)) => {
            match f.touch(scope, auth_user, now, new_time) {
                Ok(TouchResult::Updated { .. }) => AuthStatus { must_authenticate: false, record_file: Some(f) },
                Ok(_) => AuthStatus { must_authenticate: true, record_file: Some(f) },
                Err(_) => AuthStatus { must_authenticate: true, record_file: None },
            }
        },
        _ => AuthStatus { must_authenticate: true, record_file: None },
    }
}

// ---------------------------------------------------------------------------------------------
// Laws
// ---------------------------------------------------------------------------------------------

proof fn lemma_same_sub(b: Seq<u8>, b2: Seq<u8>, k: int, x: int, y: int)
    requires
        0 <= x <= y <= k,
        k <= b.len(),
        k <= b2.len(),
        forall|i: int| 0 <= i < k ==> b[i] == b2[i],
    ensures
        b.subrange(x, y) == b2.subrange(x, y),
{
    assert(b.subrange(x, y) =~= b2.subrange(x, y));
}

proof fn lemma_read_time_same(b: Seq<u8>, b2: Seq<u8>, k: int, x: int)
    requires
        0 <= x,
        x + 16 <= k,
        k <= b.len(),
        k <= b2.len(),
        forall|i: int| 0 <= i < k ==> b[i] == b2[i],
    ensures
        crate::time::read_time(b, x) == crate::time::read_time(b2, x),
{
    lemma_same_sub(b, b2, k, x, x + 8);
    lemma_same_sub(b, b2, k, x + 8, x + 16);
}

/// Reading a scope looks only at the bytes of the scope.
proof fn lemma_scope_prefix(b: Seq<u8>, b2: Seq<u8>, k: int)
    requires
        k <= b.len(),
        k <= b2.len(),
        forall|i: int| 0 <= i < k ==> b[i] == b2[i],
        crate::timestamp::decode_scope(b, 0) matches Ok((_, p1)) && p1 <= k,
    ensures
        crate::timestamp::decode_scope(b2, 0) == crate::timestamp::decode_scope(b, 0),
{
    if b[0] == 1 {
        lemma_read_time_same(b, b2, k, 13);
        lemma_same_sub(b, b2, k, 1, 9);
        lemma_same_sub(b, b2, k, 9, 13);
    } else if b[0] == 2 {
        lemma_read_time_same(b, b2, k, 5);
        lemma_same_sub(b, b2, k, 1, 5);
    } else if b[0] == 3 {
        lemma_read_time_same(b, b2, k, 9);
        lemma_same_sub(b, b2, k, 1, 5);
        lemma_same_sub(b, b2, k, 5, 9);
    }
}

/// Clearing the flag byte of a stored record disables it and changes nothing else.
proof fn lemma_clear_flag(b: Seq<u8>)
    requires
        decode_record_exact(b) is Ok,
    ensures
        b.len() >= 1,
        decode_record_exact(b.update(b.len() - 1, 0x00u8)) matches Ok(r2) && ({
            let r = decode_record_exact(b)->Ok_0;
            &&& r2.spec_scope() == r.spec_scope()
            &&& r2.spec_auth_user() == r.spec_auth_user()
            &&& !r2.spec_enabled()
        }),
{
    let b2 = b.update(b.len() - 1, 0x00u8);
    let k = b.len() - 1;
    if let Ok((scope, p1)) = crate::timestamp::decode_scope(b, 0) {
        assert(p1 + 21 == b.len());
        lemma_scope_prefix(b, b2, k);
        lemma_read_time_same(b, b2, k, p1 + 4);
        lemma_same_sub(b, b2, k, p1, p1 + 4);
        assert(b2[p1 + 20] == 0x00u8);
        assert(b2.len() == b.len());
        if let Ok((secs, nsecs)) = crate::time::read_time(b, p1 + 4) {
            let uid = UserId::spec_new(vstd::bytes::spec_u32_from_le_bytes(b.subrange(p1, p1 + 4)));
            let t = SystemTime::spec_new(secs, nsecs);
            SessionRecord::lemma_spec_init(scope, uid, b[p1 + 20] == 0xFF, t);
            SessionRecord::lemma_spec_init(scope, uid, false, t);
        }
    }
}

/// Reading a record at `pos` looks only at its own bytes.
proof fn lemma_step_stable(c: Seq<u8>, d: Seq<u8>, pos: int)
    requires
        step(c, pos) matches Step::Record(_, end) && end <= d.len() && forall|i: int|
            pos <= i < end ==> c[i] == d[i],
    ensures
        step(d, pos) == step(c, pos),
{
    lemma_step_advances(c, pos);
    if let Step::Record(r, end) = step(c, pos) {
        assert(c.subrange(pos + 2, end) =~= d.subrange(pos + 2, end));
    }
}

/// Disabling from `pos` changes no byte before `pos`, and keeps at least `pos` bytes.
proof fn lemma_disable_prefix(c: Seq<u8>, pos: int, scope: RecordScope, user: Option<UserId>)
    requires
        0 <= pos <= c.len(),
        disable_from(c, pos, scope, user) is Some,
    ensures
        ({
            let c2 = disable_from(c, pos, scope, user)->Some_0;
            &&& c2.len() >= pos
            &&& forall|i: int| 0 <= i < pos ==> c2[i] == c[i]
        }),
    decreases c.len() - pos,
{
    lemma_step_advances(c, pos);
    if let Step::Record(r, end) = step(c, pos) {
        let hit = match user {
            Some(u) => r.spec_scope() == scope && r.spec_auth_user() == u,
            None => r.spec_scope() == scope,
        };
        let c1 = if hit { with_flag(c, end, false) } else { c };
        lemma_disable_prefix(c1, end, scope, user);
    }
}

/// After disabling the records of a scope and user, none of them is found enabled again:
/// looking for one finds nothing, and changes nothing.
pub proof fn law_disabled_not_found(
    c: Seq<u8>,
    pos: int,
    scope: RecordScope,
    user: UserId,
    now: SystemTime,
    timeout: Duration,
    new_time: SystemTime,
)
    requires
        0 <= pos <= c.len(),
        disable_from(c, pos, scope, Some(user)) is Some,
    ensures
        ({
            let c2 = disable_from(c, pos, scope, Some(user))->Some_0;
            touch_from(c2, pos, scope, user, now, timeout, new_time) == (
                Some(TouchResult::NotFound),
                c2,
            )
        }),
    decreases c.len() - pos,
{
    lemma_step_advances(c, pos);
    let c2 = disable_from(c, pos, scope, Some(user))->Some_0;
    match step(c, pos) {
        Step::End => {},
        Step::Empty => {},
        Step::Cut => {
            assert(step(c2, pos) is End);
        },
        Step::Record(r, end) => {
            let hit = r.spec_scope() == scope && r.spec_auth_user() == user;
            let c1 = if hit { with_flag(c, end, false) } else { c };
            lemma_disable_prefix(c1, end, scope, Some(user));
            law_disabled_not_found(c1, end, scope, user, now, timeout, new_time);
            let n = end - pos - 2;
            if hit {
                let b = c.subrange(pos + 2, end);
                lemma_clear_flag(b);
                assert(c1.subrange(pos + 2, end) =~= b.update(b.len() - 1, 0x00u8));
            } else {
                assert(c1 == c);
            }
            lemma_step_stable(c1, c2, pos);
            assert(step(c1, pos) is Record);
        },
    }
}

/// The records from `pos` run exactly to the end of the contents (no stray byte follows the
/// last one), unless a damaged record cuts them short.
pub open spec fn records_to_end(c: Seq<u8>, pos: int) -> bool
    decreases c.len() - pos,
{
    proof {
        lemma_step_advances(c, pos);
    }
    match step(c, pos) {
        Step::End => pos == c.len(),
        Step::Record(_, end) => records_to_end(c, end),
        _ => true,
    }
}

proof fn lemma_stored_len(r: SessionRecord)
    requires
        r.ne_facts(),
    ensures
        record_bytes(r).len() <= 50,
{
    vstd::bytes::lemma_auto_spec_u32_to_from_le_bytes();
    vstd::bytes::lemma_auto_spec_u64_to_from_le_bytes();
}

/// A record stored after the first `pos` bytes is read back there.
proof fn lemma_stored_step(c: Seq<u8>, pos: int, fresh: SessionRecord)
    requires
        0 <= pos <= c.len(),
        fresh.wf(),
        fresh.ne_facts(),
    ensures
        step(c.take(pos) + stored(fresh), pos) == Step::Record(fresh, pos + 2 + record_bytes(fresh).len()),
{
    let b = record_bytes(fresh);
    let n = b.len() as int;
    lemma_stored_len(fresh);
    fresh.lemma_roundtrip();
    lemma_exact_len(b);
    let d = c.take(pos) + stored(fresh);
    assert(d[pos] == (n % 256) as u8);
    assert(d[pos + 1] == (n / 256) as u8);
    assert(len_at(d, pos) == n);
    assert(d.subrange(pos + 2, pos + 2 + n) =~= b);
}

/// Storing a time and setting the flag of a stored record makes it an enabled record of the
/// same scope and user, written at that time.
proof fn lemma_refresh(b: Seq<u8>, t: SystemTime)
    requires
        decode_record_exact(b) is Ok,
        t.wf(),
        ne_roundtrip(t.spec_secs()),
        ne_roundtrip(t.spec_nsecs()),
    ensures
        b.len() >= 21,
        decode_record_exact(b.take(b.len() - 17) + time_bytes(t.spec_secs(), t.spec_nsecs()) + seq![0xFFu8])
            matches Ok(r2) && ({
            let r = decode_record_exact(b)->Ok_0;
            &&& r2.spec_scope() == r.spec_scope()
            &&& r2.spec_auth_user() == r.spec_auth_user()
            &&& r2.spec_enabled()
            &&& r2.spec_timestamp() == t
        }),
{
    let tb = time_bytes(t.spec_secs(), t.spec_nsecs());
    let b2 = b.take(b.len() - 17) + tb + seq![0xFFu8];
    if let Ok((scope, p1)) = crate::timestamp::decode_scope(b, 0) {
        assert(p1 + 21 == b.len());
        let k = b.len() - 17;
        assert(b2.len() == b.len());
        assert forall|i: int| 0 <= i < k implies b[i] == b2[i] by {}
        lemma_scope_prefix(b, b2, k);
        lemma_same_sub(b, b2, k, p1, p1 + 4);
        assert(b2.subrange(p1 + 4, p1 + 20) =~= tb);
        t.lemma_spec_new_wf();
        crate::timestamp::lemma_read_time(b2, p1 + 4, t.spec_secs(), t.spec_nsecs());
        assert(b2[p1 + 20] == 0xFFu8);
        let uid = UserId::spec_new(vstd::bytes::spec_u32_from_le_bytes(b.subrange(p1, p1 + 4)));
        if let Ok((secs, nsecs)) = crate::time::read_time(b, p1 + 4) {
            SessionRecord::lemma_spec_init(
                scope,
                uid,
                b[p1 + 20] == 0xFF,
                SystemTime::spec_new(secs, nsecs),
            );
        }
        SessionRecord::lemma_spec_init(scope, uid, true, t);
    }
}

/// Creating from `pos` changes no byte before `pos`, and keeps at least `pos` bytes.
proof fn lemma_create_prefix(c: Seq<u8>, pos: int, scope: RecordScope, user: UserId, now: SystemTime)
    requires
        0 <= pos <= c.len(),
        create_from(c, pos, scope, user, now).0 is Some,
        ne_roundtrip(now.spec_secs()),
        ne_roundtrip(now.spec_nsecs()),
    ensures
        ({
            let c2 = create_from(c, pos, scope, user, now).1;
            &&& c2.len() >= pos
            &&& forall|i: int| 0 <= i < pos ==> c2[i] == c[i]
        }),
    decreases c.len() - pos,
{
    lemma_step_advances(c, pos);
    if let Step::Record(r, end) = step(c, pos) {
        if !(r.spec_scope() == scope && r.spec_auth_user() == user) {
            lemma_create_prefix(c, end, scope, user, now);
        }
    }
}

/// What is created is what is found: after a record is created (or refreshed) for a scope
/// and user at time `now`, looking for an enabled record of them at a time `later` whose
/// window of `timeout` holds `now` finds that record and refreshes it.
pub proof fn law_created_is_found(
    c: Seq<u8>,
    pos: int,
    scope: RecordScope,
    user: UserId,
    now: SystemTime,
    later: SystemTime,
    timeout: Duration,
    new_time: SystemTime,
)
    requires
        0 <= pos <= c.len(),
        records_to_end(c, pos),
        create_from(c, pos, scope, user, now).0 is Some,
        now.wf(),
        scope_time_wf(scope),
        SessionRecord::spec_init(scope, user, true, now).ne_facts(),
        later.total_nanos() - timeout.spec_nanos() <= now.total_nanos() <= later.total_nanos(),
    ensures
        touch_from(create_from(c, pos, scope, user, now).1, pos, scope, user, later, timeout, new_time).0
            == Some(TouchResult::Updated { old_time: now, new_time }),
    decreases c.len() - pos,
{
    lemma_step_advances(c, pos);
    let fresh = SessionRecord::spec_init(scope, user, true, now);
    SessionRecord::lemma_spec_init(scope, user, true, now);
    let c2 = create_from(c, pos, scope, user, now).1;
    match step(c, pos) {
        Step::End => {
            assert(c.take(pos) =~= c);
            lemma_stored_step(c, pos, fresh);
        },
        Step::Empty => {},
        Step::Cut => {
            lemma_stored_step(c, pos, fresh);
        },
        Step::Record(r, end) => {
            if r.spec_scope() == scope && r.spec_auth_user() == user {
                let b = c.subrange(pos + 2, end);
                lemma_refresh(b, now);
                let tb = time_bytes(now.spec_secs(), now.spec_nsecs());
                assert(c2.subrange(pos + 2, end) =~= b.take(b.len() - 17) + tb + seq![0xFFu8]);
                assert(c2[pos] == c[pos] && c2[pos + 1] == c[pos + 1]);
                assert(c2.len() == c.len());
                let r2 = decode_record_exact(c2.subrange(pos + 2, end))->Ok_0;
                assert(step(c2, pos) == Step::Record(r2, end));
            } else {
                lemma_create_prefix(c, end, scope, user, now);
                lemma_step_stable(c, c2, pos);
                law_created_is_found(c, end, scope, user, now, later, timeout, new_time);
            }
        },
    }
}

} // verus!
