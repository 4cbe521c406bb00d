//! Users and groups as the system's databases describe them, for the policy to ask about.

use vstd::prelude::*;
use crate::interface::{GroupId, UserId};
use crate::sudoers::matching::{UnixGroup, UnixUser};
use crate::text::{chars_eq, chars_of, copy_string};

verus! {

/// A group: its id and, when the group database has it, its name.
#[derive(Clone, Debug)]
pub struct GroupRecord {
    pub gid: u32,
    pub name: Option<String>,
}

/// A user: ids, name, home directory, shell, and the groups it belongs to besides its
/// primary group.
#[derive(Clone, Debug)]
pub struct UserRecord {
    pub uid: u32,
    pub gid: u32,
    pub name: String,
    pub home: String,
    pub shell: String,
    pub groups: Vec<GroupRecord>,
}

pub open spec fn opt_chars(o: Option<String>) -> Option<Seq<char>> {
    match o {
        Some(s) => Some(s@),
        None => None,
    }
}

fn same_text(a: &str, b: &str) -> (r: bool)
    ensures
        r == (a@ == b@),
{
    let x = chars_of(a);
    let y = chars_of(b);
    chars_eq(x.as_slice(), y.as_slice())
}

impl UnixUser for UserRecord {
    open spec fn named(&self, name: Seq<char>) -> bool {
        self.name@ == name
    }

    open spec fn with_uid(&self, uid: u32) -> bool {
        self.uid == uid
    }

    open spec fn root(&self) -> bool {
        self.uid == 0
    }

    open spec fn member_named(&self, name: Seq<char>) -> bool {
        exists|i: int| 0 <= i < self.groups@.len() && opt_chars(#[trigger] self.groups@[i].name) == Some(name)
    }

    open spec fn member_gid(&self, gid: u32) -> bool {
        self.gid == gid || exists|i: int| 0 <= i < self.groups@.len() && #[trigger] self.groups@[i].gid == gid
    }

    open spec fn same(&self, other: &Self) -> bool {
        self.uid == other.uid
    }

    fn has_name(&self, name: &str) -> (b: bool) {
        same_text(self.name.as_str(), name)
    }

    fn has_uid(&self, uid: UserId) -> (b: bool) {
        self.uid == uid.inner()
    }

    fn is_root(&self) -> (b: bool) {
        self.uid == 0
    }

    fn in_group_by_name(&self, name: &str) -> (b: bool) {
        let mut i: usize = 0;
        while i < self.groups.len()
            invariant
                i <= self.groups@.len(),
                forall|j: int| 0 <= j < i ==> opt_chars(#[trigger] self.groups@[j].name) != Some(name@),
            decreases self.groups@.len() - i,
        {
            if let Some(n) = &self.groups[i].name {
                if same_text(n.as_str(), name) {
                    proof {
                        assert(opt_chars(self.groups@[i as int].name) == Some(name@));
                    }
                    return true;
                }
            }
            i += 1;
        }
        false
    }

    fn in_group_by_gid(&self, gid: GroupId) -> (b: bool) {
        let g = gid.inner();
        if self.gid == g {
            return true;
        }
        let mut i: usize = 0;
        while i < self.groups.len()
            invariant
                i <= self.groups@.len(),
                self.gid != g,
                g == gid.id(),
                forall|j: int| 0 <= j < i ==> #[trigger] self.groups@[j].gid != g,
            decreases self.groups@.len() - i,
        {
            if self.groups[i].gid == g {
                proof {
                    assert(self.groups@[i as int].gid == g);
                }
                return true;
            }
            i += 1;
        }
        false
    }

    fn is_same(&self, other: &Self) -> (b: bool) {
        self.uid == other.uid
    }
}

impl UnixGroup for GroupRecord {
    open spec fn gid(&self) -> u32 {
        self.gid
    }

    open spec fn name(&self) -> Option<Seq<char>> {
        opt_chars(self.name)
    }

    fn as_gid(&self) -> (g: GroupId) {
        GroupId::new(self.gid)
    }

    fn try_as_name(&self) -> (n: Option<String>) {
        match &self.name {
            Some(s) => Some(copy_string(s)),
            None => None,
        }
    }
}

} // verus!
