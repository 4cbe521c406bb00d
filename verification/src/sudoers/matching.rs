//! Deciding which items of a list apply: the last item that matches decides, `ALL` matches
//! everything, an alias stands for what it was found to include or exclude, and `!`
//! reverses the decision.

use vstd::prelude::*;
use super::ast::{
    applied, Authenticate, CommandSpec, Def, EnvironmentControl, Identifier, Qualified, RunAs,
    Spec, SpecList, Tag, UserSpecifier,
};
use super::tokens::{ChDir, Command, Hostname, Meta, SimpleCommand};
use crate::interface::{GroupId, UserId};
use crate::text::{chars_eq, chars_of, copy_string};

verus! {

broadcast use vstd::string::group_string_axioms;

/// A user, as the policy asks about it. The spec functions say what the user is; the
/// methods report it.
pub trait UnixUser {
    /// The user has this name.
    spec fn named(&self, name: Seq<char>) -> bool;

    /// The user has this user id.
    spec fn with_uid(&self, uid: u32) -> bool;

    /// The user is root.
    spec fn root(&self) -> bool;

    /// The user is a member of the group with this name.
    spec fn member_named(&self, name: Seq<char>) -> bool;

    /// The user is a member of the group with this id.
    spec fn member_gid(&self, gid: u32) -> bool;

    /// The same user as `other`.
    spec fn same(&self, other: &Self) -> bool;

    fn has_name(&self, name: &str) -> (b: bool)
        ensures
            b == self.named(name@),
    ;

    fn has_uid(&self, uid: UserId) -> (b: bool)
        ensures
            b == self.with_uid(uid.id()),
    ;

    fn is_root(&self) -> (b: bool)
        ensures
            b == self.root(),
    ;

    fn in_group_by_name(&self, name: &str) -> (b: bool)
        ensures
            b == self.member_named(name@),
    ;

    fn in_group_by_gid(&self, gid: GroupId) -> (b: bool)
        ensures
            b == self.member_gid(gid.id()),
    ;

    /// The same user as `other`.
    fn is_same(&self, other: &Self) -> (b: bool)
        ensures
            b == self.same(other),
    ;
}

/// A group, as the policy asks about it. The spec functions say what the group is; the
/// methods report it.
pub trait UnixGroup {
    /// The group's id.
    spec fn gid(&self) -> u32;

    /// The group's name, when it has one.
    spec fn name(&self) -> Option<Seq<char>>;

    fn as_gid(&self) -> (g: GroupId)
        ensures
            g.id() == self.gid(),
    ;

    fn try_as_name(&self) -> (n: Option<String>)
        ensures
            match n {
                Some(s) => self.name() == Some(s@),
                None => self.name() is None,
            },
    ;
}

/// What the aliases were found to do for the item at hand: include it (`true`) or exclude it
/// (`false`); an alias that is not listed does neither.
pub type FoundAliases = Vec<(String, bool)>;

pub open spec fn found_view(f: Seq<(String, bool)>) -> Seq<(Seq<char>, bool)> {
    f.map_values(|p: (String, bool)| (p.0@, p.1))
}

/// What the alias `id` was found to do (the latest entry counts).
pub open spec fn alias_lookup(found: Seq<(Seq<char>, bool)>, id: Seq<char>) -> Option<bool>
    decreases found.len(),
{
    if found.len() == 0 {
        None
    } else if found.last().0 == id {
        Some(found.last().1)
    } else {
        alias_lookup(found.drop_last(), id)
    }
}

/// The outcome of going through a list: nothing decided yes, the starting `ALL` decided, or
/// an item did.
#[derive(Clone, Copy, PartialEq, Eq, Structural)]
pub enum Found {
    Nothing,
    Start,
    Item(usize),
}

pub open spec fn found_int(f: Found) -> Option<int> {
    match f {
        Found::Nothing => None,
        Found::Start => Some(-1),
        Found::Item(i) => Some(i as int),
    }
}

/// The decision after the first `n` items: `start` (`Some(-1)` for an `ALL` in front, or
/// `None`), then each item that applies replaces the decision: yes (its position) when it is
/// allowed, no when it is negated; an alias applies reversed when it was found to exclude.
pub open spec fn decide<T>(
    items: Seq<Spec<T>>,
    matched: Seq<bool>,
    found: Seq<(Seq<char>, bool)>,
    start: Option<int>,
    n: int,
) -> Option<int>
    decreases n,
{
    if n <= 0 {
        start
    } else {
        let prev = decide(items, matched, found, start, n - 1);
        let (allow, who) = match items[n - 1] {
            Qualified::Allow(m) => (true, m),
            Qualified::Forbid(m) => (false, m),
        };
        match who {
            Meta::All => if allow {
                Some(n - 1)
            } else {
                None
            },
            Meta::Only(_) => if matched[n - 1] {
                if allow {
                    Some(n - 1)
                } else {
                    None
                }
            } else {
                prev
            },
            Meta::Alias(id) => match alias_lookup(found, id@) {
                Some(b) => if b == allow {
                    Some(n - 1)
                } else {
                    None
                },
                None => prev,
            },
        }
    }
}

pub fn lookup(found: &FoundAliases, id: &String) -> (r: Option<bool>)
    ensures
        r == alias_lookup(found_view(found@), id@),
{
    let idc = chars_of(id.as_str());
    let mut k = found.len();
    proof {
        assert(found_view(found@).take(k as int) =~= found_view(found@));
    }
    while k > 0
        invariant
            k <= found@.len(),
            idc@ == id@,
            alias_lookup(found_view(found@), id@) == alias_lookup(
                found_view(found@).take(k as int),
                id@,
            ),
        decreases k,
    {
        let name = chars_of(found[k - 1].0.as_str());
        proof {
            let t = found_view(found@).take(k as int);
            assert(t.last() == found_view(found@)[k - 1]);
            assert(t.drop_last() =~= found_view(found@).take(k - 1));
        }
        if chars_eq(name.as_slice(), idc.as_slice()) {
            return Some(found[k - 1].1);
        }
        k -= 1;
    }
    None
}

/// Go through the list: the item that decided yes, `Start` when the `ALL` in front (with
/// `start`) did, or nothing.
pub fn find_item<T>(items: &SpecList<T>, matched: &Vec<bool>, found: &FoundAliases, start: bool) -> (r:
    Found)
    requires
        matched@.len() == items@.len(),
    ensures
        found_int(r) == decide(
            items@,
            matched@,
            found_view(found@),
            if start {
                Some(-1)
            } else {
                None
            },
            items@.len() as int,
        ),
{
    let mut result = if start {
        Found::Start
    } else {
        Found::Nothing
    };
    let mut i: usize = 0;
    while i < items.len()
        invariant
            i <= items@.len(),
            matched@.len() == items@.len(),
            found_int(result) == decide(
                items@,
                matched@,
                found_view(found@),
                if start {
                    Some(-1)
                } else {
                    None
                },
                i as int,
            ),
        decreases items.len() - i,
    {
        let (allow, who) = match &items[i] {
            Qualified::Allow(m) => (true, m),
            Qualified::Forbid(m) => (false, m),
        };
        match who {
            Meta::All => {
                result = if allow {
                    Found::Item(i)
                } else {
                    Found::Nothing
                };
            },
            Meta::Only(_) => {
                if matched[i] {
                    result = if allow {
                        Found::Item(i)
                    } else {
                        Found::Nothing
                    };
                }
            },
            Meta::Alias(id) => {
                match lookup(found, id) {
                    Some(b) => {
                        result = if b == allow {
                            Found::Item(i)
                        } else {
                            Found::Nothing
                        };
                    },
                    None => {},
                }
            },
        }
        i += 1;
    }
    result
}

/// The aliases after the definitions at the first `k` positions of `order`: an alias whose
/// list decides yes includes the item; one whose list decides no even after an `ALL` in
/// front excludes it.
pub open spec fn aliases_found<T>(
    defs: Seq<Def<T>>,
    order: Seq<usize>,
    flags: Seq<Seq<bool>>,
    k: int,
) -> Seq<(Seq<char>, bool)>
    decreases k,
{
    if k <= 0 {
        Seq::empty()
    } else {
        let prev = aliases_found(defs, order, flags, k - 1);
        let i = order[k - 1] as int;
        if i >= defs.len() {
            prev
        } else {
            let list = defs[i].1@;
            let m = flags[i];
            if decide(list, m, prev, None, list.len() as int) is Some {
                prev.push((defs[i].0@, true))
            } else if decide(list, m, prev, Some(-1), list.len() as int) is None {
                prev.push((defs[i].0@, false))
            } else {
                prev
            }
        }
    }
}

pub open spec fn flag_views(flags: Seq<Vec<bool>>) -> Seq<Seq<bool>> {
    flags.map_values(|v: Vec<bool>| v@)
}

/// What each alias does for the item at hand, taking the definitions in `order`; `flags[i]`
/// says which items of definition `i` match.
pub fn get_aliases<T>(defs: &Vec<Def<T>>, order: &Vec<usize>, flags: &Vec<Vec<bool>>) -> (r:
    FoundAliases)
    requires
        flags@.len() == defs@.len(),
        forall|i: int| 0 <= i < defs@.len() ==> #[trigger] flags@[i]@.len() == defs@[i].1@.len(),
    ensures
        found_view(r@) == aliases_found(defs@, order@, flag_views(flags@), order@.len() as int),
{
    let mut set: FoundAliases = Vec::new();
    let mut k: usize = 0;
    proof {
        assert(found_view(set@) =~= Seq::<(Seq<char>, bool)>::empty());
    }
    while k < order.len()
        invariant
            k <= order@.len(),
            flags@.len() == defs@.len(),
            forall|i: int| 0 <= i < defs@.len() ==> #[trigger] flags@[i]@.len() == defs@[i].1@.len(),
            found_view(set@) == aliases_found(defs@, order@, flag_views(flags@), k as int),
        decreases order.len() - k,
    {
        let i = order[k];
        if i < defs.len() {
            let list = &defs[i].1;
            let m = &flags[i];
            assert(m@.len() == list@.len());
            assert(flag_views(flags@)[i as int] == m@);
            let ghost before = set@;
            if find_item(list, m, &set, false) != Found::Nothing {
                set.push((copy_string(&defs[i].0), true));
                proof {
                    assert(found_view(set@) =~= found_view(before).push((defs@[i as int].0@, true)));
                }
            } else if find_item(list, m, &set, true) == Found::Nothing {
                set.push((copy_string(&defs[i].0), false));
                proof {
                    assert(found_view(set@) =~= found_view(before).push((defs@[i as int].0@, false)));
                }
            }
        }
        k += 1;
    }
    set
}

// ---------------------------------------------------------------------------------------------
// Which items match
// ---------------------------------------------------------------------------------------------

/// The user matches the user specification (non-Unix groups never match).
pub open spec fn user_spec_matches<U: UnixUser>(user: U, spec: UserSpecifier) -> bool {
    match spec {
        UserSpecifier::User(Identifier::Name(name)) => user.named(name@),
        UserSpecifier::User(Identifier::ID(num)) => user.with_uid(num),
        UserSpecifier::Group(Identifier::Name(name)) => user.member_named(name@),
        UserSpecifier::Group(Identifier::ID(num)) => user.member_gid(num),
        UserSpecifier::NonunixGroup(_) => false,
    }
}

/// The group has the id or the name.
pub open spec fn group_id_matches<G: UnixGroup>(group: G, id: Identifier) -> bool {
    match id {
        Identifier::ID(num) => group.gid() == num,
        Identifier::Name(name) => group.name() == Some(name@),
    }
}

/// In a runas alias, only plain names and ids name a group.
pub open spec fn group_alias_matches<G: UnixGroup>(group: G, spec: UserSpecifier) -> bool {
    match spec {
        UserSpecifier::User(id) => group_id_matches(group, id),
        _ => false,
    }
}

/// The user matches the user specification (non-Unix groups never match).
pub fn match_user<U: UnixUser>(user: &U, spec: &UserSpecifier) -> (b: bool)
    ensures
        b == user_spec_matches(*user, *spec),
{
    match spec {
        UserSpecifier::User(Identifier::Name(name)) => user.has_name(name.as_str()),
        UserSpecifier::User(Identifier::ID(num)) => user.has_uid(UserId::new(*num)),
        UserSpecifier::Group(Identifier::Name(name)) => user.in_group_by_name(name.as_str()),
        UserSpecifier::Group(Identifier::ID(num)) => user.in_group_by_gid(GroupId::new(*num)),
        UserSpecifier::NonunixGroup(_) => false,
    }
}

/// The group matches the group identifier.
pub fn match_group<G: UnixGroup>(group: &G, id: &Identifier) -> (b: bool)
    ensures
        b == group_id_matches(*group, *id),
{
    match id {
        Identifier::ID(num) => {
            let g = group.as_gid();
            g.inner() == *num
        },
        Identifier::Name(name) => match group.try_as_name() {
            Some(n) => {
                let a = chars_of(n.as_str());
                let b = chars_of(name.as_str());
                chars_eq(a.as_slice(), b.as_slice())
            },
            None => false,
        },
    }
}

/// In a runas alias, only plain names and ids name a group.
pub fn match_group_alias<G: UnixGroup>(group: &G, spec: &UserSpecifier) -> (b: bool)
    ensures
        b == group_alias_matches(*group, *spec),
{
    match spec {
        UserSpecifier::User(id) => match_group(group, id),
        _ => false,
    }
}

/// The user is a member of the group.
pub fn in_group<U: UnixUser, G: UnixGroup>(user: &U, group: &G) -> (b: bool)
    ensures
        b == user.member_gid(group.gid()),
{
    user.in_group_by_gid(group.as_gid())
}

/// Whether an item of a list names something that `matches`; `ALL` and aliases are left to
/// the decision.
pub open spec fn item_flag<T>(item: Spec<T>, matches: spec_fn(T) -> bool) -> bool {
    match item {
        Qualified::Allow(Meta::Only(x)) => matches(x),
        Qualified::Forbid(Meta::Only(x)) => matches(x),
        _ => false,
    }
}

/// Which items of a list of user specifications match the user.
pub open spec fn user_flag_seq<U: UnixUser>(items: Seq<Spec<UserSpecifier>>, user: U) -> Seq<bool> {
    Seq::new(items.len(), |i: int| item_flag(items[i], |x: UserSpecifier| user_spec_matches(user, x)))
}

/// Which items of a list of group identifiers match the group.
pub open spec fn group_flag_seq<G: UnixGroup>(items: Seq<Spec<Identifier>>, group: G) -> Seq<bool> {
    Seq::new(items.len(), |i: int| item_flag(items[i], |x: Identifier| group_id_matches(group, x)))
}

/// Which items of a runas alias match the group.
pub open spec fn group_alias_flag_seq<G: UnixGroup>(items: Seq<Spec<UserSpecifier>>, group: G) -> Seq<
    bool,
> {
    Seq::new(
        items.len(),
        |i: int| item_flag(items[i], |x: UserSpecifier| group_alias_matches(group, x)),
    )
}

/// Which items of the list match the user.
pub fn user_flags<U: UnixUser>(items: &SpecList<UserSpecifier>, user: &U) -> (r: Vec<bool>)
    ensures
        r@ == user_flag_seq(items@, *user),
{
    let mut r: Vec<bool> = Vec::new();
    let mut i: usize = 0;
    while i < items.len()
        invariant
            i <= items@.len(),
            r@ == user_flag_seq(items@, *user).take(i as int),
        decreases items.len() - i,
    {
        let b = match &items[i] {
            Qualified::Allow(Meta::Only(x)) | Qualified::Forbid(Meta::Only(x)) => match_user(user, x),
            _ => false,
        };
        r.push(b);
        proof {
            assert(r@ =~= user_flag_seq(items@, *user).take(i + 1));
        }
        i += 1;
    }
    proof {
        assert(user_flag_seq(items@, *user).take(items@.len() as int) =~= user_flag_seq(items@, *user));
    }
    r
}

/// Which items of the list match the group.
pub fn group_flags<G: UnixGroup>(items: &SpecList<Identifier>, group: &G) -> (r: Vec<bool>)
    ensures
        r@ == group_flag_seq(items@, *group),
{
    let mut r: Vec<bool> = Vec::new();
    let mut i: usize = 0;
    while i < items.len()
        invariant
            i <= items@.len(),
            r@ == group_flag_seq(items@, *group).take(i as int),
        decreases items.len() - i,
    {
        let b = match &items[i] {
            Qualified::Allow(Meta::Only(x)) | Qualified::Forbid(Meta::Only(x)) => match_group(
                group,
                x,
            ),
            _ => false,
        };
        r.push(b);
        proof {
            assert(r@ =~= group_flag_seq(items@, *group).take(i + 1));
        }
        i += 1;
    }
    proof {
        assert(group_flag_seq(items@, *group).take(items@.len() as int) =~= group_flag_seq(items@, *group));
    }
    r
}

/// Which items of the list (a runas alias) match the group.
pub fn group_alias_flags<G: UnixGroup>(items: &SpecList<UserSpecifier>, group: &G) -> (r: Vec<
    bool,
>)
    ensures
        r@ == group_alias_flag_seq(items@, *group),
{
    let mut r: Vec<bool> = Vec::new();
    let mut i: usize = 0;
    while i < items.len()
        invariant
            i <= items@.len(),
            r@ == group_alias_flag_seq(items@, *group).take(i as int),
        decreases items.len() - i,
    {
        let b = match &items[i] {
            Qualified::Allow(Meta::Only(x)) | Qualified::Forbid(Meta::Only(x)) => match_group_alias(
                group,
                x,
            ),
            _ => false,
        };
        r.push(b);
        proof {
            assert(r@ =~= group_alias_flag_seq(items@, *group).take(i + 1));
        }
        i += 1;
    }
    proof {
        assert(group_alias_flag_seq(items@, *group).take(items@.len() as int) =~= group_alias_flag_seq(items@, *group));
    }
    r
}

/// The host name is exactly the host of the item.
pub open spec fn host_matches(item: Spec<Hostname>, host: Seq<char>) -> bool {
    match item {
        Qualified::Allow(Meta::Only(h)) => h.0@ == host,
        Qualified::Forbid(Meta::Only(h)) => h.0@ == host,
        _ => false,
    }
}

/// Which items of the list are the host.
pub fn host_flags(items: &SpecList<Hostname>, host: &str) -> (r: Vec<bool>)
    ensures
        r@.len() == items@.len(),
        forall|i: int| 0 <= i < items@.len() ==> r@[i] == host_matches(#[trigger] items@[i], host@),
{
    let hc = chars_of(host);
    let mut r: Vec<bool> = Vec::new();
    let mut i: usize = 0;
    while i < items.len()
        invariant
            i <= items@.len(),
            hc@ == host@,
            r@.len() == i,
            forall|j: int| 0 <= j < i ==> r@[j] == host_matches(#[trigger] items@[j], host@),
        decreases items.len() - i,
    {
        let b = match &items[i] {
            Qualified::Allow(Meta::Only(h)) | Qualified::Forbid(Meta::Only(h)) => {
                let c = chars_of(h.0.as_str());
                chars_eq(c.as_slice(), hc.as_slice())
            },
            _ => false,
        };
        r.push(b);
        i += 1;
    }
    r
}

/// What `glob::Pattern::matches_path_with` (with `/` only matched literally) gives for the
/// pattern compiled from `source` and the path.
pub uninterp spec fn glob_matches(source: Seq<char>, path: Seq<char>) -> bool;

/// Calls `glob::Pattern::matches_path_with` with `require_literal_separator` set, which tells
/// whether the path matches the shell pattern; its contract ties the answer to the pattern's
/// source text and the path through the name `glob_matches`.
#[verifier::external_body]
fn pattern_matches(cmd: &SimpleCommand, path: &str) -> (b: bool)
    ensures
        b == glob_matches(cmd.source(), path@),
{
    let options = glob::MatchOptions { require_literal_separator: true, ..glob::MatchOptions::new() };
    cmd.pattern().matches_path_with(std::path::Path::new(path), options)
}

/// The command matches: its path matches the pattern, and the arguments are the required ones
/// (any, when none are required).
pub open spec fn command_matches(c: Command, path: Seq<char>, args: Seq<Seq<char>>) -> bool {
    glob_matches(c.0.source(), path) && match c.1 {
        None => true,
        Some(v) => v@.map_values(|x: String| x@) == args,
    }
}

fn strings_eq(a: &Vec<String>, b: &Vec<String>) -> (r: bool)
    ensures
        r == (a@.map_values(|x: String| x@) == b@.map_values(|x: String| x@)),
{
    if a.len() != b.len() {
        proof {
            assert(a@.map_values(|x: String| x@).len() != b@.map_values(|x: String| x@).len());
        }
        return false;
    }
    let mut i: usize = 0;
    while i < a.len()
        invariant
            i <= a@.len(),
            a@.len() == b@.len(),
            forall|j: int| 0 <= j < i ==> a@[j]@ == b@[j]@,
        decreases a.len() - i,
    {
        let x = chars_of(a[i].as_str());
        let y = chars_of(b[i].as_str());
        if !chars_eq(x.as_slice(), y.as_slice()) {
            proof {
                assert(a@.map_values(|x: String| x@)[i as int] != b@.map_values(|x: String| x@)[
                    i as int]);
            }
            return false;
        }
        i += 1;
    }
    proof {
        assert(a@.map_values(|x: String| x@) =~= b@.map_values(|x: String| x@));
    }
    true
}

pub fn match_command(c: &Command, path: &str, args: &Vec<String>) -> (b: bool)
    ensures
        b == command_matches(*c, path@, args@.map_values(|x: String| x@)),
{
    pattern_matches(&c.0, path) && match &c.1 {
        None => true,
        Some(v) => strings_eq(v, args),
    }
}

/// Which items of the list match the command.
pub fn command_flags(items: &SpecList<Command>, path: &str, args: &Vec<String>) -> (r: Vec<bool>)
    ensures
        r@.len() == items@.len(),
        forall|i: int|
            0 <= i < items@.len() ==> match #[trigger] items@[i] {
                Qualified::Allow(Meta::Only(c)) => r@[i] == command_matches(
                    c,
                    path@,
                    args@.map_values(|x: String| x@),
                ),
                Qualified::Forbid(Meta::Only(c)) => r@[i] == command_matches(
                    c,
                    path@,
                    args@.map_values(|x: String| x@),
                ),
                _ => !r@[i],
            },
{
    let mut r: Vec<bool> = Vec::new();
    let mut i: usize = 0;
    while i < items.len()
        invariant
            i <= items@.len(),
            r@.len() == i,
            forall|j: int|
                0 <= j < i ==> match #[trigger] items@[j] {
                    Qualified::Allow(Meta::Only(c)) => r@[j] == command_matches(
                        c,
                        path@,
                        args@.map_values(|x: String| x@),
                    ),
                    Qualified::Forbid(Meta::Only(c)) => r@[j] == command_matches(
                        c,
                        path@,
                        args@.map_values(|x: String| x@),
                    ),
                    _ => !r@[j],
                },
        decreases items.len() - i,
    {
        let b = match &items[i] {
            Qualified::Allow(Meta::Only(c)) | Qualified::Forbid(Meta::Only(c)) => match_command(
                c,
                path,
                args,
            ),
            _ => false,
        };
        r.push(b);
        i += 1;
    }
    r
}

/// Which items of the list (commands without arguments) match the command path.
pub fn simple_command_flags(items: &SpecList<SimpleCommand>, path: &str) -> (r: Vec<bool>)
    ensures
        r@.len() == items@.len(),
        forall|i: int|
            0 <= i < items@.len() ==> match #[trigger] items@[i] {
                Qualified::Allow(Meta::Only(c)) => r@[i] == glob_matches(c.source(), path@),
                Qualified::Forbid(Meta::Only(c)) => r@[i] == glob_matches(c.source(), path@),
                _ => !r@[i],
            },
{
    let mut r: Vec<bool> = Vec::new();
    let mut i: usize = 0;
    while i < items.len()
        invariant
            i <= items@.len(),
            r@.len() == i,
            forall|j: int|
                0 <= j < i ==> match #[trigger] items@[j] {
                    Qualified::Allow(Meta::Only(c)) => r@[j] == glob_matches(c.source(), path@),
                    Qualified::Forbid(Meta::Only(c)) => r@[j] == glob_matches(c.source(), path@),
                    _ => !r@[j],
                },
        decreases items.len() - i,
    {
        let b = match &items[i] {
            Qualified::Allow(Meta::Only(c)) | Qualified::Forbid(Meta::Only(c)) => pattern_matches(
                c,
                path,
            ),
            _ => false,
        };
        r.push(b);
        i += 1;
    }
    r
}

} // verus!
