//! Putting alias definitions in an order where every alias is defined before it is used,
//! and finding undefined, recursive and repeated aliases.

use vstd::prelude::*;
use super::ast::{Def, Qualified, Spec};
use super::tokens::Meta;
use super::Error;
use crate::text::{chars_eq, chars_of, copy_string, owned};

verus! {

broadcast use vstd::string::group_string_axioms;

/// The alias that an item of a definition refers to, if it is an alias (negated or not).
pub open spec fn alias_ref<T>(item: Spec<T>) -> Option<Seq<char>> {
    match item {
        Qualified::Allow(Meta::Alias(n)) => Some(n@),
        Qualified::Forbid(Meta::Alias(n)) => Some(n@),
        _ => None,
    }
}

/// The name of a definition.
pub open spec fn def_name<T>(d: Def<T>) -> Seq<char> {
    d.0@
}

/// The definition `table[order[p]]` refers only to aliases defined at earlier positions of
/// `order`.
pub open spec fn refs_defined_before<T>(table: Seq<Def<T>>, order: Seq<usize>, p: int) -> bool {
    forall|i: int|
        0 <= i < table[order[p] as int].1@.len() ==> match alias_ref(
            #[trigger] table[order[p] as int].1@[i],
        ) {
            Some(n) => exists|q: int| 0 <= q < p && def_name(table[order[q] as int]) == n,
            None => true,
        }
}

/// No definition in `order` refers to an alias that is defined later, or not at all.
pub open spec fn no_forward_refs<T>(table: Seq<Def<T>>, order: Seq<usize>) -> bool {
    &&& forall|p: int| 0 <= p < order.len() ==> order[p] < table.len()
    &&& forall|p: int| 0 <= p < order.len() ==> #[trigger] refs_defined_before(table, order, p)
}

/// `order` holds every position of the table exactly once.
pub open spec fn is_permutation(order: Seq<usize>, n: nat) -> bool {
    &&& forall|p: int| 0 <= p < order.len() ==> order[p] < n
    &&& forall|p: int, q: int| 0 <= p < q < order.len() ==> order[p] != order[q]
    &&& forall|i: int| 0 <= i < n ==> #[trigger] in_order(order, i)
}

/// The position `i` is in `order`.
pub open spec fn in_order(order: Seq<usize>, i: int) -> bool {
    exists|p: int| 0 <= p < order.len() && order[p] == i
}

/// Two definitions of the table have the same name.
pub open spec fn has_duplicate<T>(table: Seq<Def<T>>) -> bool {
    exists|i: int, j: int|
        0 <= i < j < table.len() && #[trigger] def_name(table[i]) == #[trigger] def_name(table[j])
}

/// Some definition refers to an alias that no definition of the table defines.
pub open spec fn has_undefined<T>(table: Seq<Def<T>>) -> bool {
    exists|i: int, k: int|
        0 <= i < table.len() && 0 <= k < table[i].1@.len() && undefined_ref(
            table,
            #[trigger] table[i].1@[k],
        )
}

/// The item refers to an alias that no definition of the table defines.
pub open spec fn undefined_ref<T>(table: Seq<Def<T>>, item: Spec<T>) -> bool {
    alias_ref(item) matches Some(n) && forall|j: int| 0 <= j < table.len() ==> def_name(table[j]) != n
}

/// The definitions can be put in an order where each refers only to aliases defined before
/// it: the references between the aliases form no cycle (and lead nowhere undefined).
pub open spec fn sortable<T>(table: Seq<Def<T>>) -> bool {
    exists|order: Seq<usize>| #[trigger] is_permutation(order, table.len()) && no_forward_refs(table, order)
}

/// The table has a fault: a name defined twice, an undefined alias, or a cycle.
pub open spec fn alias_fault<T>(table: Seq<Def<T>>) -> bool {
    has_duplicate(table) || has_undefined(table) || !sortable(table)
}

/// The text of a complaint about the alias `name`.
pub open spec fn alias_complaint(message: Seq<char>, name: Seq<char>) -> bool {
    ||| message == "multiple occurrences of '"@ + name + "'"@
    ||| message == "undefined alias: '"@ + name + "'"@
    ||| message == "recursive alias: '"@ + name + "'"@
}

/// A diagnostic about the alias table: no file, no place, and a complaint about an alias.
pub open spec fn alias_diagnostic(e: Error) -> bool {
    &&& e.source is None
    &&& e.location is None
    &&& exists|name: Seq<char>| #[trigger] alias_complaint(e.message@, name)
}

/// The position of the first definition called `name`.
pub open spec fn first_def<T>(table: Seq<Def<T>>, name: Seq<char>) -> Option<int> {
    if exists|i: int| 0 <= i < table.len() && def_name(table[i]) == name {
        Some(
            choose|i: int|
                0 <= i < table.len() && def_name(table[i]) == name && forall|j: int|
                    0 <= j < i ==> def_name(table[j]) != name,
        )
    } else {
        None
    }
}

/// The number of positions not seen yet.
pub open spec fn unseen(seen: Seq<bool>) -> nat
    decreases seen.len(),
{
    if seen.len() == 0 {
        0
    } else {
        unseen(seen.drop_last()) + if seen.last() {
            0nat
        } else {
            1nat
        }
    }
}

proof fn lemma_unseen_set(seen: Seq<bool>, k: int)
    requires
        0 <= k < seen.len(),
        !seen[k],
    ensures
        unseen(seen.update(k, true)) + 1 == unseen(seen),
    decreases seen.len(),
{
    if k == seen.len() - 1 {
        assert(seen.update(k, true).drop_last() =~= seen.drop_last());
    } else {
        lemma_unseen_set(seen.drop_last(), k);
        assert(seen.update(k, true).drop_last() =~= seen.drop_last().update(k, true));
    }
}

proof fn lemma_unseen_bound(seen: Seq<bool>)
    ensures
        unseen(seen) <= seen.len(),
    decreases seen.len(),
{
    if seen.len() > 0 {
        lemma_unseen_bound(seen.drop_last());
    }
}

/// `new` is `old` followed by diagnostics about aliases.
pub open spec fn grows_by_alias_diagnostics(old: Seq<Error>, new: Seq<Error>) -> bool {
    &&& new.len() >= old.len()
    &&& new.subrange(0, old.len() as int) == old
    &&& forall|k: int| old.len() <= k < new.len() ==> alias_diagnostic(#[trigger] new[k])
}

pub(crate) proof fn lemma_grows_trans(a: Seq<Error>, b: Seq<Error>, c: Seq<Error>)
    requires
        grows_by_alias_diagnostics(a, b),
        grows_by_alias_diagnostics(b, c),
    ensures
        grows_by_alias_diagnostics(a, c),
{
    assert forall|k: int| 0 <= k < a.len() implies c.subrange(0, a.len() as int)[k] == a[k] by {
        assert(c.subrange(0, b.len() as int)[k] == b[k]);
        assert(b.subrange(0, a.len() as int)[k] == a[k]);
    }
    assert(c.subrange(0, a.len() as int) =~= a);
    assert forall|k: int| a.len() <= k < c.len() implies alias_diagnostic(#[trigger] c[k]) by {
        if k < b.len() {
            assert(c.subrange(0, b.len() as int)[k] == b[k]);
        }
    }
}

proof fn lemma_grows_refl(a: Seq<Error>)
    ensures
        grows_by_alias_diagnostics(a, a),
{
    assert(a.subrange(0, a.len() as int) =~= a);
}

/// `topo` puts the table, whose names are all different, in an order where each definition
/// refers only to aliases defined before it.
pub open spec fn sorted_by<T>(table: Seq<Def<T>>, topo: Seq<usize>) -> bool {
    &&& is_permutation(topo, table.len())
    &&& no_forward_refs(table, topo)
    &&& !has_duplicate(table)
}

/// The place of the position `k` in `order`.
pub open spec fn rank(order: Seq<usize>, k: int) -> int {
    choose|p: int| 0 <= p < order.len() && order[p] == k
}

proof fn lemma_rank(order: Seq<usize>, n: nat, k: int, p: int)
    requires
        is_permutation(order, n),
        0 <= p < order.len(),
        order[p] == k,
    ensures
        rank(order, k) == p,
{
    let r = rank(order, k);
    assert(0 <= r < order.len() && order[r] == k);
    if r != p {
        if r < p {
            assert(order[r] != order[p]);
        } else {
            assert(order[p] != order[r]);
        }
    }
}

/// In a sorted table, the alias that a definition refers to comes before it.
proof fn lemma_ref_rank<T>(table: Seq<Def<T>>, topo: Seq<usize>, pos: int, i: int, dep: int)
    requires
        sorted_by(table, topo),
        0 <= pos < table.len(),
        0 <= i < table[pos].1@.len(),
        alias_ref(table[pos].1@[i]) matches Some(n) && 0 <= dep < table.len() && def_name(
            table[dep],
        ) == n,
    ensures
        rank(topo, dep) < rank(topo, pos),
        0 <= rank(topo, pos) < topo.len(),
        topo[rank(topo, pos)] == pos,
{
    assert(in_order(topo, pos));
    let p = choose|p: int| 0 <= p < topo.len() && topo[p] == pos;
    lemma_rank(topo, table.len(), pos, p);
    assert(refs_defined_before(table, topo, p));
    let n = alias_ref(table[pos].1@[i])->Some_0;
    assert(table[topo[p] as int].1@[i] == table[pos].1@[i]);
    let q = choose|q: int| 0 <= q < p && def_name(table[topo[q] as int]) == n;
    if topo[q] as int != dep {
        if (topo[q] as int) < dep {
            assert(def_name(table[topo[q] as int]) == def_name(table[dep]));
        } else {
            assert(def_name(table[dep]) == def_name(table[topo[q] as int]));
        }
    }
    lemma_rank(topo, table.len(), dep, q);
}

/// In a sorted table, every alias that is referred to is defined.
proof fn lemma_sorted_defined<T>(table: Seq<Def<T>>, order: Seq<usize>)
    requires
        is_permutation(order, table.len()),
        no_forward_refs(table, order),
    ensures
        !has_undefined(table),
{
    assert forall|i: int, k: int|
        0 <= i < table.len() && 0 <= k < table[i].1@.len() implies !undefined_ref(
        table,
        #[trigger] table[i].1@[k],
    ) by {
        assert(in_order(order, i));
        let p = choose|p: int| 0 <= p < order.len() && order[p] == i;
        assert(refs_defined_before(table, order, p));
        assert(table[order[p] as int].1@[k] == table[i].1@[k]);
        if let Some(n) = alias_ref(table[i].1@[k]) {
            let q = choose|q: int| 0 <= q < p && def_name(table[order[q] as int]) == n;
            assert(def_name(table[order[q] as int]) == n);
        }
    }
}

/// The state of the depth-first walk over the definitions.
struct Visitor {
    seen: Vec<bool>,
    order: Vec<usize>,
    /// No problem has been found.
    clean: bool,
}

impl Visitor {
    /// What the walk keeps: the positions in `order` are seen, distinct, and (while nothing
    /// went wrong) refer only to aliases defined earlier in `order`.
    spec fn inv<T>(&self, table: Seq<Def<T>>) -> bool {
        &&& self.seen@.len() == table.len()
        &&& forall|p: int| 0 <= p < self.order@.len() ==> self.order@[p] < table.len()
        &&& forall|p: int|
            0 <= p < self.order@.len() ==> #[trigger] self.seen@[self.order@[p] as int]
        &&& forall|p: int, q: int|
            0 <= p < q < self.order@.len() ==> self.order@[p] != self.order@[q]
        &&& self.clean ==> no_forward_refs(table, self.order@)
    }

    /// The walk has entered the definition at `k` and not left it yet.
    spec fn on_stack(&self, k: int) -> bool {
        self.seen@[k] && !in_order(self.order@, k)
    }
}

fn complain(diagnostics: &mut Vec<Error>, message: String, name: Ghost<Seq<char>>)
    requires
        alias_complaint(message@, name@),
    ensures
        final(diagnostics)@ == old(diagnostics)@.push(Error { source: None, location: None, message }),
        alias_diagnostic(final(diagnostics)@.last()),
{
    diagnostics.push(Error { source: None, location: None, message });
    assert(alias_complaint(final(diagnostics)@.last().message@, name@));
}

/// The position of the first definition with the given name.
fn position_of_def<T>(table: &Vec<Def<T>>, name: &[char]) -> (r: Option<usize>)
    ensures
        match r {
            Some(i) => i < table@.len() && def_name(table@[i as int]) == name@ && forall|j: int|
                0 <= j < i ==> def_name(#[trigger] table@[j]) != name@,
            None => forall|j: int| 0 <= j < table@.len() ==> def_name(#[trigger] table@[j]) != name@,
        },
{
    let mut i: usize = 0;
    while i < table.len()
        invariant
            i <= table@.len(),
            forall|j: int| 0 <= j < i ==> def_name(#[trigger] table@[j]) != name@,
        decreases table.len() - i,
    {
        let n = chars_of(table[i].0.as_str());
        if chars_eq(n.as_slice(), name) {
            return Some(i);
        }
        i += 1;
    }
    None
}

fn contains_pos(order: &Vec<usize>, pos: usize) -> (b: bool)
    ensures
        b == exists|p: int| 0 <= p < order@.len() && order@[p] == pos,
{
    let mut i: usize = 0;
    while i < order.len()
        invariant
            i <= order@.len(),
            forall|p: int| 0 <= p < i ==> order@[p] != pos,
        decreases order.len() - i,
    {
        if order[i] == pos {
            return true;
        }
        i += 1;
    }
    false
}

fn alias_name_of<T>(item: &Spec<T>) -> (r: Option<&String>)
    ensures
        match alias_ref(*item) {
            Some(n) => r matches Some(s) && s@ == n,
            None => r is None,
        },
{
    match item {
        Qualified::Allow(Meta::Alias(n)) => Some(n),
        Qualified::Forbid(Meta::Alias(n)) => Some(n),
        _ => None,
    }
}

impl Visitor {
    /// Visit the definition at `pos`: first the definitions it refers to, then itself.
    fn visit<T>(
        &mut self,
        table: &Vec<Def<T>>,
        pos: usize,
        diagnostics: &mut Vec<Error>,
        Ghost(topo): Ghost<Seq<usize>>,
    )
        requires
            pos < table@.len(),
            old(self).inv(table@),
            sorted_by(table@, topo) ==> forall|k: int|
                0 <= k < table@.len() && #[trigger] old(self).on_stack(k) ==> rank(topo, k) > rank(
                    topo,
                    pos as int,
                ),
        ensures
            grows_by_alias_diagnostics(old(diagnostics)@, final(diagnostics)@),
            forall|k: int|
                0 <= k < table@.len() ==> (#[trigger] final(self).on_stack(k) <==> old(self).on_stack(k)),
            forall|k: int|
                0 <= k < table@.len() && #[trigger] final(self).seen@[k] && !old(self).seen@[k]
                    ==> in_order(final(self).order@, k),
            sorted_by(table@, topo) ==> final(diagnostics)@ == old(diagnostics)@ && final(self).clean
                == old(self).clean,
            final(self).inv(table@),
            final(self).seen@[pos as int],
            final(self).clean ==> old(self).clean,
            final(self).clean ==> exists|p: int|
                0 <= p < final(self).order@.len() && final(self).order@[p] == pos,
            final(self).order@.len() >= old(self).order@.len(),
            final(self).order@.subrange(0, old(self).order@.len() as int) == old(self).order@,
            forall|k: int| 0 <= k < table@.len() && old(self).seen@[k] ==> final(self).seen@[k],
            forall|q: int|
                old(self).order@.len() <= q < final(self).order@.len() ==> !old(
                    self,
                ).seen@[#[trigger] final(self).order@[q] as int],
            unseen(final(self).seen@) <= unseen(old(self).seen@),
            final(diagnostics)@.len() >= old(diagnostics)@.len(),
            old(self).clean ==> (final(self).clean <==> final(diagnostics)@.len() == old(
                diagnostics,
            )@.len()),
        decreases unseen(old(self).seen@), 1int,
    {
        if !self.seen[pos] {
            let ghost seen0 = self.seen@;
            self.seen.set(pos, true);
            proof {
                lemma_unseen_set(seen0, pos as int);
            }
            let ghost order0 = self.order@;
            let ghost clean0 = self.clean;
            let ghost diag0 = diagnostics@.len();
            let ghost diag_seq0 = diagnostics@;
            proof {
                lemma_grows_refl(diag_seq0);
                if in_order(order0, pos as int) {
                    let p = choose|p: int| 0 <= p < order0.len() && order0[p] == pos;
                    assert(seen0[order0[p] as int]);
                }
                assert forall|k: int| 0 <= k < table@.len() implies (#[trigger] self.on_stack(k) <==> (
                old(self).on_stack(k) || k == pos)) by {
                    if k != pos {
                        assert(self.seen@[k] == seen0[k]);
                    }
                }
            }
            let members = &table[pos].1;
            let mut i: usize = 0;
            while i < members.len()
                invariant
                    pos < table@.len(),
                    members == &table@[pos as int].1,
                    i <= members@.len(),
                    self.inv(table@),
                    self.seen@[pos as int],
                    self.clean ==> clean0,
                    self.order@.len() >= order0.len(),
                    self.order@.subrange(0, order0.len() as int) == order0,
                    seen0.len() == table@.len(),
                    seen0 == old(self).seen@,
                    !seen0[pos as int],
                    forall|k: int| 0 <= k < table@.len() && seen0[k] ==> self.seen@[k],
                    unseen(self.seen@) < unseen(old(self).seen@),
                    forall|q: int|
                        order0.len() <= q < self.order@.len() ==> !seen0.update(pos as int, true)[
                            #[trigger] self.order@[q] as int],
                    order0 == old(self).order@,
                    clean0 == old(self).clean,
                    diag0 == old(diagnostics)@.len(),
                    diag_seq0 == old(diagnostics)@,
                    grows_by_alias_diagnostics(diag_seq0, diagnostics@),
                    forall|k: int|
                        0 <= k < table@.len() ==> (#[trigger] self.on_stack(k) <==> (old(self).on_stack(k)
                            || k == pos)),
                    forall|k: int|
                        0 <= k < table@.len() && #[trigger] self.seen@[k] && !seen0.update(pos as int, true)[k]
                            ==> in_order(self.order@, k),
                    sorted_by(table@, topo) ==> forall|k: int|
                        0 <= k < table@.len() && #[trigger] old(self).on_stack(k) ==> rank(topo, k) > rank(
                            topo,
                            pos as int,
                        ),
                    sorted_by(table@, topo) ==> diagnostics@ == diag_seq0 && self.clean == clean0,
                    diagnostics@.len() >= diag0,
                    clean0 ==> (self.clean <==> diagnostics@.len() == diag0),
                    self.clean ==> forall|j: int|
                        0 <= j < i ==> match alias_ref(#[trigger] members@[j]) {
                            Some(n) => exists|q: int|
                                0 <= q < self.order@.len() && def_name(table@[self.order@[q] as int])
                                    == n,
                            None => true,
                        },
                decreases members@.len() - i,
            {
                let ghost self_start = *self;
                match alias_name_of(&members[i]) {
                    Some(name) => {
                        let nc = chars_of(name.as_str());
                        match position_of_def(table, nc.as_slice()) {
                            Some(dep) => {
                                let ghost before = self.order@;
                                let ghost seen_before = self.seen@;
                                let ghost diag_before = diagnostics@;
                                let ghost self_before = *self;
                                proof {
                                    if sorted_by(table@, topo) {
                                        assert(nc@ == name@);
                                        lemma_ref_rank(table@, topo, pos as int, i as int, dep as int);
                                        assert forall|k: int|
                                            0 <= k < table@.len() && #[trigger] self.on_stack(k) implies rank(
                                            topo,
                                            k,
                                        ) > rank(topo, dep as int) by {
                                            if k != pos {
                                                assert(old(self).on_stack(k));
                                            }
                                        }
                                    }
                                }
                                self.visit(table, dep, diagnostics, Ghost(topo));
                                proof {
                                    lemma_grows_trans(diag_seq0, diag_before, diagnostics@);
                                    assert forall|k: int|
                                        0 <= k < table@.len() && #[trigger] self.seen@[k] && !seen0.update(
                                            pos as int,
                                            true,
                                        )[k] implies in_order(self.order@, k) by {
                                        if seen_before[k] {
                                            assert(in_order(before, k));
                                            let p = choose|p: int| 0 <= p < before.len() && before[p] == k;
                                            assert(self.order@.subrange(0, before.len() as int)[p]
                                                == self.order@[p]);
                                        }
                                    }
                                    assert forall|k: int|
                                        0 <= k < table@.len() implies (#[trigger] self.on_stack(k) <==> (old(
                                            self,
                                        ).on_stack(k) || k == pos)) by {
                                        assert(self.on_stack(k) == self_before.on_stack(k));
                                    }
                                    assert forall|q: int|
                                        order0.len() <= q < self.order@.len() implies !seen0.update(
                                        pos as int,
                                        true,
                                    )[#[trigger] self.order@[q] as int] by {
                                        if q < before.len() {
                                            assert(self.order@.subrange(0, before.len() as int)[q]
                                                == self.order@[q]);
                                        } else {
                                            let k = self.order@[q] as int;
                                            if seen0.update(pos as int, true)[k] {
                                                if k == pos {
                                                    assert(seen_before[pos as int]);
                                                } else {
                                                    assert(seen0[k]);
                                                    assert(seen_before[k]);
                                                }
                                            }
                                        }
                                    }
                                    // what was in `order` is still there, at the same place
                                    assert forall|q: int| 0 <= q < before.len() implies self.order@[q]
                                        == before[q] by {
                                        assert(self.order@.subrange(0, before.len() as int)[q]
                                            == self.order@[q]);
                                    }
                                    assert(self.order@.subrange(0, order0.len() as int) =~= order0);
                                }
                            },
                            None => {
                                proof {
                                    if sorted_by(table@, topo) {
                                        lemma_sorted_defined(table@, topo);
                                        assert(nc@ == name@);
                                        assert(undefined_ref(table@, table@[pos as int].1@[i as int]));
                                    }
                                }
                                let mut msg = owned("undefined alias: '");
                                msg.append(name.as_str());
                                msg.append("'");
                                let ghost diag_before = diagnostics@;
                                complain(diagnostics, msg, Ghost(name@));
                                proof {
                                    lemma_grows_refl(diag_before);
                                    assert(diagnostics@.subrange(0, diag_before.len() as int) =~= diag_before);
                                    lemma_grows_trans(diag_seq0, diag_before, diagnostics@);
                                }
                                self.clean = false;
                            },
                        }
                    },
                    None => {},
                }
                proof {
                    assert forall|k: int|
                        0 <= k < table@.len() implies (#[trigger] self.on_stack(k) <==> (old(self).on_stack(k)
                        || k == pos)) by {
                        if self.seen@ == self_start.seen@ && self.order@ == self_start.order@ {
                            assert(self.on_stack(k) == self_start.on_stack(k));
                        }
                    }
                }
                i += 1;
            }
            let ghost before_push = self.order@;
            let ghost self_pre = *self;
            self.order.push(pos);
            proof {
                let order = self.order@;
                assert forall|k: int| in_order(before_push, k) implies in_order(order, k) by {
                    let p = choose|p: int| 0 <= p < before_push.len() && before_push[p] == k;
                    assert(order[p] == before_push[p]);
                }
                assert(in_order(order, pos as int)) by {
                    assert(order[order.len() - 1] == pos);
                }
                assert forall|k: int| in_order(order, k) && k != pos implies in_order(before_push, k) by {
                    let p = choose|p: int| 0 <= p < order.len() && order[p] == k;
                    assert(p < before_push.len());
                    assert(order[p] == before_push[p]);
                }
                assert forall|k: int|
                    0 <= k < table@.len() implies (#[trigger] self.on_stack(k) <==> old(self).on_stack(k)) by {
                    assert(self_pre.on_stack(k) <==> (old(self).on_stack(k) || k == pos));
                    if k == pos {
                        assert(!old(self).seen@[k]);
                    }
                }
                assert(order.subrange(0, order0.len() as int) =~= order0) by {
                    assert(before_push.subrange(0, order0.len() as int) == order0);
                }
                if self.clean {
                    assert forall|p: int| 0 <= p < order.len() implies #[trigger] refs_defined_before(
                        table@,
                        order,
                        p,
                    ) by {
                        if p < order.len() - 1 {
                            assert(refs_defined_before(table@, before_push, p));
                            assert forall|i: int|
                                0 <= i < table@[order[p] as int].1@.len() implies match alias_ref(
                                #[trigger] table@[order[p] as int].1@[i],
                            ) {
                                Some(n) => exists|q: int|
                                    0 <= q < p && def_name(table@[order[q] as int]) == n,
                                None => true,
                            } by {
                                if let Some(n) = alias_ref(table@[before_push[p] as int].1@[i]) {
                                    let q = choose|q: int|
                                        0 <= q < p && def_name(table@[before_push[q] as int]) == n;
                                    assert(order[q] == before_push[q]);
                                }
                            }
                        } else {
                            assert forall|i: int|
                                0 <= i < table@[order[p] as int].1@.len() implies match alias_ref(
                                #[trigger] table@[order[p] as int].1@[i],
                            ) {
                                Some(n) => exists|q: int|
                                    0 <= q < p && def_name(table@[order[q] as int]) == n,
                                None => true,
                            } by {
                                if let Some(n) = alias_ref(table@[pos as int].1@[i]) {
                                    let q = choose|q: int|
                                        0 <= q < before_push.len() && def_name(
                                            table@[before_push[q] as int],
                                        ) == n;
                                    assert(order[q] == before_push[q]);
                                }
                            }
                        }
                    }
                }
                assert forall|p: int, q: int| 0 <= p < q < order.len() implies order[p]
                    != order[q] by {
                    if q == order.len() - 1 {
                        assert(order[p] == before_push[p]);
                        if p < order0.len() {
                            assert(before_push.subrange(0, order0.len() as int)[p] == before_push[p]);
                            assert(order0[p] == before_push[p]);
                            assert(seen0[order0[p] as int]);
                        } else {
                            assert(!seen0.update(pos as int, true)[before_push[p] as int]);
                        }
                    }
                }
                assert(order[order.len() - 1] == pos);
                assert forall|q: int| order0.len() <= q < order.len() implies !seen0[
                    #[trigger] order[q] as int] by {
                    if q < order.len() - 1 {
                        assert(order[q] == before_push[q]);
                        if order[q] as int != pos as int {
                            assert(seen0.update(pos as int, true)[order[q] as int] == seen0[
                                order[q] as int]);
                        }
                    }
                }
            }
        } else if !contains_pos(&self.order, pos) {
            proof {
                if sorted_by(table@, topo) {
                    assert(self.on_stack(pos as int));
                }
            }
            let mut msg = owned("recursive alias: '");
            msg.append(table[pos].0.as_str());
            msg.append("'");
            let ghost diag_before = diagnostics@;
            complain(diagnostics, msg, Ghost(table@[pos as int].0@));
            proof {
                assert(diagnostics@.subrange(0, diag_before.len() as int) =~= diag_before);
            }
            self.clean = false;
            proof {
                assert(self.order@.subrange(0, self.order@.len() as int) =~= self.order@);
            }
        } else {
            proof {
                lemma_grows_refl(diagnostics@);
                assert(self.order@.subrange(0, self.order@.len() as int) =~= self.order@);
            }
        }
    }
}


/// The order in which the alias definitions of `table` are to be taken so that each alias is
/// defined before it is used. A name defined twice, an undefined alias and a recursive alias
/// are reported in `diagnostics`, after what was there: something is reported exactly when
/// the table has such a fault, and when nothing is, the order holds every definition once.
pub fn sanitize_alias_table<T>(table: &Vec<Def<T>>, diagnostics: &mut Vec<Error>) -> (order: Vec<
    usize,
>)
    ensures
        grows_by_alias_diagnostics(old(diagnostics)@, final(diagnostics)@),
        final(diagnostics)@.len() > old(diagnostics)@.len() <==> alias_fault(table@),
        forall|p: int| 0 <= p < order@.len() ==> order@[p] < table@.len(),
        forall|p: int, q: int| 0 <= p < q < order@.len() ==> order@[p] != order@[q],
        final(diagnostics)@.len() == old(diagnostics)@.len() ==> no_forward_refs(table@, order@)
            && is_permutation(order@, table@.len()),
{
    let n = table.len();
    let mut seen: Vec<bool> = Vec::new();
    while seen.len() < n
        invariant
            seen@.len() <= n,
            n == table@.len(),
            forall|k: int| 0 <= k < seen@.len() ==> !seen@[k],
        decreases n - seen@.len(),
    {
        seen.push(false);
    }
    let mut visitor = Visitor { seen, order: Vec::new(), clean: true };
    let ghost diag0 = diagnostics@.len();
    let ghost diag_seq0 = diagnostics@;
    let ghost topo = choose|o: Seq<usize>| sorted_by(table@, o);
    proof {
        lemma_grows_refl(diag_seq0);
    }
    let mut i: usize = 0;
    while i < n
        invariant
            n == table@.len(),
            i <= n,
            visitor.inv(table@),
            diagnostics@.len() >= diag0,
            diag0 == old(diagnostics)@.len(),
            diag_seq0 == old(diagnostics)@,
            grows_by_alias_diagnostics(diag_seq0, diagnostics@),
            visitor.clean <==> diagnostics@.len() == diag0,
            visitor.clean ==> forall|k: int| 0 <= k < i ==> #[trigger] in_order(visitor.order@, k),
            visitor.clean ==> forall|j: int, k: int|
                0 <= j < k < i ==> def_name(#[trigger] table@[j]) != def_name(#[trigger] table@[k]),
            forall|k: int| 0 <= k < n ==> !#[trigger] visitor.on_stack(k),
            sorted_by(table@, topo) ==> diagnostics@ == diag_seq0,
        decreases n - i,
    {
        let name = chars_of(table[i].0.as_str());
        let first = position_of_def(table, name.as_slice());
        let ghost before = visitor.order@;
        let ghost clean_before = visitor.clean;
        let ghost diag_before = diagnostics@;
        let ghost visitor_start = visitor;
        if first != Some(i) {
            proof {
                if sorted_by(table@, topo) {
                    let j = first->Some_0 as int;
                    assert(j < i);
                    assert(def_name(table@[j]) == def_name(table@[i as int]));
                }
            }
            let mut msg = owned("multiple occurrences of '");
            msg.append(table[i].0.as_str());
            msg.append("'");
            complain(diagnostics, msg, Ghost(table@[i as int].0@));
            proof {
                assert(diagnostics@.subrange(0, diag_before.len() as int) =~= diag_before);
                lemma_grows_trans(diag_seq0, diag_before, diagnostics@);
            }
            visitor.clean = false;
            proof {
                assert forall|k: int| 0 <= k < n implies !#[trigger] visitor.on_stack(k) by {
                    assert(visitor.on_stack(k) == visitor_start.on_stack(k));
                }
            }
        } else {
            visitor.visit(table, i, diagnostics, Ghost(topo));
            proof {
                lemma_grows_trans(diag_seq0, diag_before, diagnostics@);
                assert forall|k: int| 0 <= k < n implies !#[trigger] visitor.on_stack(k) by {
                    assert(!visitor_start.on_stack(k));
                }
                if visitor.clean {
                    assert forall|k: int| 0 <= k < i + 1 implies #[trigger] in_order(
                        visitor.order@,
                        k,
                    ) by {
                        assert(clean_before);
                        if k < i {
                            assert(in_order(before, k));
                            let p = choose|p: int| 0 <= p < before.len() && before[p] == k;
                            assert(visitor.order@.subrange(0, before.len() as int)[p]
                                == visitor.order@[p]);
                        }
                    }
                    assert forall|j: int, k: int|
                        0 <= j < k < i + 1 implies def_name(#[trigger] table@[j]) != def_name(
                        #[trigger] table@[k],
                    ) by {
                        if k == i {
                            assert(def_name(table@[j]) != name@);
                        }
                    }
                }
            }
        }
        i += 1;
    }
    proof {
        if !alias_fault(table@) {
            let o = choose|o: Seq<usize>| #[trigger] is_permutation(o, table@.len()) && no_forward_refs(table@, o);
            assert(sorted_by(table@, o));
            assert(sorted_by(table@, topo));
        }
        if diagnostics@.len() == diag0 {
            lemma_sorted_defined(table@, visitor.order@);
            assert(is_permutation(visitor.order@, table@.len()));
            assert(sortable(table@));
            if has_duplicate(table@) {
                let (j, k) = choose|j: int, k: int|
                    0 <= j < k < table@.len() && #[trigger] def_name(table@[j]) == #[trigger] def_name(
                        table@[k],
                    );
                assert(def_name(table@[j]) != def_name(table@[k]));
            }
        }
    }
    visitor.order
}

} // verus!
