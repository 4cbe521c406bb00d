//! Identifiers of users, groups, processes and devices.

use vstd::prelude::*;

verus! {

#[derive(Debug, Clone, Copy, PartialEq, Eq, Structural)]
pub struct GroupId(u32);

#[derive(Debug, Clone, Copy, PartialEq, Eq, Structural)]
pub struct UserId(u32);

#[derive(Debug, Clone, Copy, PartialEq, Eq, Structural)]
pub struct ProcessId(i32);

#[derive(Debug, Clone, Copy, PartialEq, Eq, Structural)]
pub struct DeviceId(u64);

impl GroupId {
    pub closed spec fn id(&self) -> u32 {
        self.0
    }

    pub closed spec fn spec_new(id: u32) -> Self {
        GroupId(id)
    }

    pub proof fn lemma_spec_new_id(x: Self)
        ensures
            Self::spec_new(x.id()) == x,
            Self::spec_new(x.id()).id() == x.id(),
    {
    }

    pub fn new(id: u32) -> (g: Self)
        ensures
            g.id() == id,
            g == Self::spec_new(id),
    {
        GroupId(id)
    }

    pub fn inner(&self) -> (id: u32)
        ensures
            id == self.id(),
    {
        self.0
    }
}

impl UserId {
    pub closed spec fn id(&self) -> u32 {
        self.0
    }

    pub closed spec fn spec_new(id: u32) -> Self {
        UserId(id)
    }

    pub proof fn lemma_spec_new_id(x: Self)
        ensures
            Self::spec_new(x.id()) == x,
            Self::spec_new(x.id()).id() == x.id(),
    {
    }

    pub fn new(id: u32) -> (u: Self)
        ensures
            u.id() == id,
            u == Self::spec_new(id),
    {
        UserId(id)
    }

    pub fn inner(&self) -> (id: u32)
        ensures
            id == self.id(),
    {
        self.0
    }

    pub fn is_root(&self) -> (b: bool)
        ensures
            b == (self.id() == 0),
    {
        self.0 == 0
    }
}

impl ProcessId {
    pub closed spec fn id(&self) -> i32 {
        self.0
    }

    pub closed spec fn spec_new(id: i32) -> Self {
        ProcessId(id)
    }

    pub proof fn lemma_spec_new_id(x: Self)
        ensures
            Self::spec_new(x.id()) == x,
            Self::spec_new(x.id()).id() == x.id(),
    {
    }

    pub fn new(id: i32) -> (p: Self)
        ensures
            p.id() == id,
            p == Self::spec_new(id),
    {
        ProcessId(id)
    }

    pub fn inner(&self) -> (id: i32)
        ensures
            id == self.id(),
    {
        self.0
    }

    pub fn is_valid(&self) -> (b: bool)
        ensures
            b == (self.id() != 0),
    {
        self.0 != 0
    }
}

impl DeviceId {
    pub closed spec fn id(&self) -> u64 {
        self.0
    }

    pub closed spec fn spec_new(id: u64) -> Self {
        DeviceId(id)
    }

    pub proof fn lemma_spec_new_id(x: Self)
        ensures
            Self::spec_new(x.id()) == x,
            Self::spec_new(x.id()).id() == x.id(),
    {
    }

    pub fn new(id: u64) -> (d: Self)
        ensures
            d.id() == id,
            d == Self::spec_new(id),
    {
        DeviceId(id)
    }

    pub fn inner(&self) -> (id: u64)
        ensures
            id == self.id(),
    {
        self.0
    }
}

} // verus!
