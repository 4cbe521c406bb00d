//! When a file or directory is secure enough to trust: who owns it and who may write it.

use vstd::prelude::*;
use crate::text::concat;

verus! {

/// An access right.
#[derive(Clone, Copy, Debug, PartialEq, Eq, Structural)]
pub enum Op {
    Read,
    Write,
    Exec,
}

/// Whom an access right is given to.
#[derive(Clone, Copy, Debug, PartialEq, Eq, Structural)]
pub enum Category {
    Owner,
    Group,
    World,
}

pub open spec fn op_bit(what: Op) -> u32 {
    match what {
        Op::Read => 4,
        Op::Write => 2,
        Op::Exec => 1,
    }
}

pub open spec fn category_shift(who: Category) -> u32 {
    match who {
        Category::Owner => 6,
        Category::Group => 3,
        Category::World => 0,
    }
}

/// The permission bit that gives `who` the right `what`: the rights `rwx` of the owner, of
/// the group and of the world are the octal digits of a mode, from the highest down.
pub open spec fn mode_bit(who: Category, what: Op) -> u32 {
    match (who, what) {
        (Category::Owner, Op::Read) => 0o400,
        (Category::Owner, Op::Write) => 0o200,
        (Category::Owner, Op::Exec) => 0o100,
        (Category::Group, Op::Read) => 0o40,
        (Category::Group, Op::Write) => 0o20,
        (Category::Group, Op::Exec) => 0o10,
        (Category::World, Op::Read) => 0o4,
        (Category::World, Op::Write) => 0o2,
        (Category::World, Op::Exec) => 0o1,
    }
}

/// The permission bit that gives `who` the right `what`.
pub fn mode(who: Category, what: Op) -> (m: u32)
    ensures
        m == mode_bit(who, what),
{
    let bit: u32 = match what {
        Op::Read => 4,
        Op::Write => 2,
        Op::Exec => 1,
    };
    let shift: u32 = match who {
        Category::Owner => 6,
        Category::Group => 3,
        Category::World => 0,
    };
    proof {
        assert(bit == op_bit(what) && shift == category_shift(who));
        assert(4u32 << 6u32 == 0o400u32) by (bit_vector);
        assert(2u32 << 6u32 == 0o200u32) by (bit_vector);
        assert(1u32 << 6u32 == 0o100u32) by (bit_vector);
        assert(4u32 << 3u32 == 0o40u32) by (bit_vector);
        assert(2u32 << 3u32 == 0o20u32) by (bit_vector);
        assert(1u32 << 3u32 == 0o10u32) by (bit_vector);
        assert(4u32 << 0u32 == 4u32) by (bit_vector);
        assert(2u32 << 0u32 == 2u32) by (bit_vector);
        assert(1u32 << 0u32 == 1u32) by (bit_vector);
    }
    bit << shift
}

/// What the security checks read of a file's metadata.
#[derive(Clone, Copy, Debug, PartialEq, Eq, Structural)]
pub struct Metadata {
    pub uid: u32,
    pub gid: u32,
    pub mode: u32,
}

/// Why a file is not secure, or `None` when it is: it must be owned by root, and may not be
/// writable by its group (unless that is root's group) nor by the world.
pub open spec fn insecurity(meta: Metadata) -> Option<Seq<char>> {
    if meta.uid != 0 {
        Some(" must be owned by root"@)
    } else if meta.gid != 0 && (meta.mode & 0o20u32) != 0 {
        Some(" cannot be group-writable"@)
    } else if (meta.mode & 0o2u32) != 0 {
        Some(" cannot be world-writable"@)
    } else {
        None
    }
}

/// Check that a file is secure: `Err` with the message that names the path and the problem.
pub fn checks(path: &str, meta: &Metadata) -> (r: Result<(), String>)
    ensures
        match insecurity(*meta) {
            None => r is Ok,
            Some(why) => r matches Err(msg) && msg@ == path@ + why,
        },
{
    let path_mode = meta.mode;
    if meta.uid != 0 {
        Err(concat(path, " must be owned by root"))
    } else if meta.gid != 0 && (path_mode & mode(Category::Group, Op::Write) != 0) {
        Err(concat(path, " cannot be group-writable"))
    } else if path_mode & mode(Category::World, Op::Write) != 0 {
        Err(concat(path, " cannot be world-writable"))
    } else {
        Ok(())
    }
}

/// The places where the time zone files may be, in the order they are tried.
pub open spec fn zoneinfo_candidate(i: int) -> Seq<char> {
    if i == 0 {
        "/usr/share/zoneinfo"@
    } else if i == 1 {
        "/usr/share/lib/zoneinfo"@
    } else {
        "/usr/lib/zoneinfo"@
    }
}

/// The places where the time zone files may be, in the order they are tried.
pub fn zoneinfo_candidates() -> (v: Vec<&'static str>)
    ensures
        v@.len() == 3,
        forall|i: int| 0 <= i < 3 ==> #[trigger] v@[i]@ == zoneinfo_candidate(i),
{
    let mut v: Vec<&'static str> = Vec::new();
    v.push("/usr/share/zoneinfo");
    v.push("/usr/share/lib/zoneinfo");
    v.push("/usr/lib/zoneinfo");
    v
}

/// The metadata of candidate `i` was read and shows it secure.
pub open spec fn secure_candidate(metadata: Seq<Option<Metadata>>, i: int) -> bool {
    &&& i < metadata.len()
    &&& metadata[i] matches Some(m)
    &&& insecurity(m) is None
}

/// The system zoneinfo path: the first candidate whose metadata (`metadata[i]` for candidate
/// `i`, `None` where it could not be read) shows it secure.
pub fn zoneinfo_path(metadata: &Vec<Option<Metadata>>) -> (r: Option<&'static str>)
    ensures
        match r {
            Some(p) => exists|i: int|
                0 <= i < 3 && secure_candidate(metadata@, i) && p@ == zoneinfo_candidate(i) && forall|
                    j: int,
                | 0 <= j < i ==> !#[trigger] secure_candidate(metadata@, j),
            None => forall|i: int| 0 <= i < 3 ==> !#[trigger] secure_candidate(metadata@, i),
        },
{
    let paths = zoneinfo_candidates();
    let mut i: usize = 0;
    while i < 3
        invariant
            i <= 3,
            paths@.len() == 3,
            forall|k: int| 0 <= k < 3 ==> #[trigger] paths@[k]@ == zoneinfo_candidate(k),
            forall|j: int| 0 <= j < i ==> !#[trigger] secure_candidate(metadata@, j),
        decreases 3 - i,
    {
        if i < metadata.len() {
            if let Some(meta) = &metadata[i] {
                if checks(paths[i], meta).is_ok() {
                    proof {
                        assert(secure_candidate(metadata@, i as int));
                        assert(paths@[i as int]@ == zoneinfo_candidate(i as int));
                        let k = i as int;
                        assert(0 <= k < 3 && secure_candidate(metadata@, k) && paths@[k]@
                            == zoneinfo_candidate(k) && forall|j: int| 0 <= j < k ==> !#[trigger] secure_candidate(metadata@, j));
                    }
                    return Some(paths[i]);
                }
            }
        }
        i += 1;
    }
    None
}

} // verus!
