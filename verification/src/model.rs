//! The constraint model as mathematics: which elements a clause speaks of,
//! what a list of clauses and groups builds, and what the two operators do
//! to a candidate.

use crate::config::{id_of, AtomicConstraintView, ConfigView, GroupMemberView};
use crate::names::{compound_name, parse_name, ElementNameView};
use vstd::prelude::*;

verus! {

/// The index by which a clause asks for the second part of an element. A
/// plain name has no second part, so such a clause passes it over.
pub const SECOND_PART: usize = 1;

/// Whether `clause` lets through an element whose name reads as `name`.
///
/// A compound name is let through unless the clause asks for another index
/// or another element; a plain name unless the clause asks for a second part
/// or for another name.
pub open spec fn clause_admits(clause: AtomicConstraintView, name: ElementNameView) -> bool {
    if name.compound {
        &&& clause.index matches Some(index) ==> name.index == Some(index)
        &&& clause.element matches Some(element) ==> element == name.base
    } else {
        &&& clause.index != Some(SECOND_PART)
        &&& clause.element matches Some(element) ==> element == name.base
    }
}

/// Whether `clause` speaks of the element called `name`.
pub open spec fn clause_applies(clause: AtomicConstraintView, name: Seq<char>) -> bool {
    clause_admits(clause, parse_name(name))
}

/// Whether `clause` fixes the element called `name`.
pub open spec fn fixes(clause: AtomicConstraintView, name: Seq<char>) -> bool {
    clause.keys is None && clause_applies(clause, name)
}

/// Whether `clause` narrows the element called `name`.
pub open spec fn narrows(clause: AtomicConstraintView, name: Seq<char>) -> bool {
    clause.keys is Some && clause_applies(clause, name)
}

/// Whether some clause fixes the element called `name`.
pub open spec fn is_fixed_by(clauses: Seq<AtomicConstraintView>, name: Seq<char>) -> bool {
    exists|k: int| 0 <= k < clauses.len() && fixes(#[trigger] clauses[k], name)
}

/// The place of the last clause that narrows the element called `name`, or
/// -1 where none does.
pub open spec fn last_narrowing(clauses: Seq<AtomicConstraintView>, name: Seq<char>) -> int
    decreases clauses.len(),
{
    if clauses.len() == 0 {
        -1
    } else if narrows(clauses.last(), name) {
        clauses.len() - 1
    } else {
        last_narrowing(clauses.drop_last(), name)
    }
}

/// The name by which a group calls its member.
pub open spec fn member_name(member: GroupMemberView) -> Seq<char> {
    compound_name(member.element, member.index as nat)
}

/// The id of a group's member, where the cache knows it.
pub open spec fn member_id(names: Seq<Seq<char>>, member: GroupMemberView) -> Option<usize> {
    id_of(names, member_name(member))
}

/// Whether the cache knows every member of `group`.
pub open spec fn group_resolves(names: Seq<Seq<char>>, group: Seq<GroupMemberView>) -> bool {
    forall|j: int| 0 <= j < group.len() ==> member_id(names, #[trigger] group[j]) is Some
}

/// The ids of the members of `group`, in the order of the group.
pub open spec fn group_ids(names: Seq<Seq<char>>, group: Seq<GroupMemberView>) -> Seq<usize> {
    Seq::new(group.len(), |j: int| member_id(names, group[j]).unwrap())
}

/// Whether the cache knows every member of every group.
pub open spec fn all_groups_resolve(
    names: Seq<Seq<char>>,
    groups: Seq<Seq<GroupMemberView>>,
) -> bool {
    forall|g: int| 0 <= g < groups.len() ==> group_resolves(names, #[trigger] groups[g])
}

/// Whether member `j` of group `g` is the first one, in the order of the
/// groups and of their members, that the cache does not know.
pub open spec fn is_first_unknown(
    names: Seq<Seq<char>>,
    groups: Seq<Seq<GroupMemberView>>,
    g: int,
    j: int,
) -> bool {
    &&& 0 <= g < groups.len()
    &&& 0 <= j < groups[g].len()
    &&& member_id(names, groups[g][j]) is None
    &&& forall|h: int| 0 <= h < g ==> group_resolves(names, #[trigger] groups[h])
    &&& forall|i: int| 0 <= i < j ==> member_id(names, #[trigger] groups[g][i]) is Some
}

/// The place of the last group that holds `id`, or -1 where none does.
pub open spec fn last_group_of(
    names: Seq<Seq<char>>,
    groups: Seq<Seq<GroupMemberView>>,
    id: usize,
) -> int
    decreases groups.len(),
{
    if groups.len() == 0 {
        -1
    } else if group_ids(names, groups.last()).contains(id) {
        groups.len() - 1
    } else {
        last_group_of(names, groups.drop_last(), id)
    }
}

/// The last group that holds an id is one of the groups, holds the id, and
/// no later group does.
pub proof fn lemma_last_group_of(
    names: Seq<Seq<char>>,
    groups: Seq<Seq<GroupMemberView>>,
    id: usize,
)
    ensures
        -1 <= last_group_of(names, groups, id) < groups.len(),
        last_group_of(names, groups, id) >= 0 ==> group_ids(
            names,
            groups[last_group_of(names, groups, id)],
        ).contains(id),
        forall|later: int|
            last_group_of(names, groups, id) < later < groups.len() ==> !group_ids(
                names,
                #[trigger] groups[later],
            ).contains(id),
    decreases groups.len(),
{
    if groups.len() > 0 && !group_ids(names, groups.last()).contains(id) {
        lemma_last_group_of(names, groups.drop_last(), id);
        assert forall|later: int|
            last_group_of(names, groups, id) < later < groups.len() implies !group_ids(
            names,
            #[trigger] groups[later],
        ).contains(id) by {
            if later < groups.len() - 1 {
                assert(groups.drop_last()[later] == groups[later]);
            }
        }
    }
}

/// The last clause that narrows a name is one of the clauses, narrows the
/// name, and no later clause does.
pub proof fn lemma_last_narrowing(clauses: Seq<AtomicConstraintView>, name: Seq<char>)
    ensures
        -1 <= last_narrowing(clauses, name) < clauses.len(),
        last_narrowing(clauses, name) >= 0 ==> narrows(
            clauses[last_narrowing(clauses, name)],
            name,
        ),
        forall|later: int|
            last_narrowing(clauses, name) < later < clauses.len() ==> !narrows(
                #[trigger] clauses[later],
                name,
            ),
    decreases clauses.len(),
{
    if clauses.len() > 0 && !narrows(clauses.last(), name) {
        lemma_last_narrowing(clauses.drop_last(), name);
        assert forall|later: int|
            last_narrowing(clauses, name) < later < clauses.len() implies !narrows(
            #[trigger] clauses[later],
            name,
        ) by {
            if later < clauses.len() - 1 {
                assert(clauses.drop_last()[later] == clauses[later]);
            }
        }
    }
}

/// A constraint model: what may change in a candidate, and how.
pub struct ConstraintsView {
    /// The key symbols.
    pub alphabet: Seq<char>,
    /// The number of elements; their ids are the numbers below it.
    pub elements: nat,
    /// The elements that never change.
    pub fixed: Set<usize>,
    /// The symbols to which an element is restricted, where it is.
    pub narrowed: Map<usize, Seq<char>>,
    /// The group of an element, where it has one.
    pub grouped: Map<usize, Seq<usize>>,
}

/// The elements that `clauses` fix.
pub open spec fn built_fixed(
    clauses: Seq<AtomicConstraintView>,
    names: Seq<Seq<char>>,
) -> Set<usize> {
    Set::new(|id: usize| id < names.len() && is_fixed_by(clauses, names[id as int]))
}

/// The elements that `clauses` narrow, each with the symbols of the last
/// clause that narrows it.
pub open spec fn built_narrowed(
    clauses: Seq<AtomicConstraintView>,
    names: Seq<Seq<char>>,
) -> Map<usize, Seq<char>> {
    Map::new(
        |id: usize| id < names.len() && last_narrowing(clauses, names[id as int]) >= 0,
        |id: usize| clauses[last_narrowing(clauses, names[id as int])].keys.unwrap(),
    )
}

/// The members of `groups`, each with the ids of the last group that holds
/// it.
pub open spec fn built_grouped(
    names: Seq<Seq<char>>,
    groups: Seq<Seq<GroupMemberView>>,
) -> Map<usize, Seq<usize>> {
    Map::new(
        |id: usize| last_group_of(names, groups, id) >= 0,
        |id: usize| group_ids(names, groups[last_group_of(names, groups, id)]),
    )
}

/// The model that `config` declares over the elements that `names` lists.
pub open spec fn built_model(config: ConfigView, names: Seq<Seq<char>>) -> ConstraintsView {
    ConstraintsView {
        alphabet: config.alphabet,
        elements: names.len(),
        fixed: built_fixed(config.clauses, names),
        narrowed: built_narrowed(config.clauses, names),
        grouped: built_grouped(names, config.groups),
    }
}

impl ConstraintsView {
    /// Whether a move may draw `id`.
    pub open spec fn is_movable(self, id: usize) -> bool {
        id < self.elements && !self.fixed.contains(id)
    }

    /// Whether a swap may draw `id`.
    pub open spec fn is_swappable(self, id: usize) -> bool {
        &&& id < self.elements
        &&& !self.fixed.contains(id)
        &&& !self.narrowed.contains_key(id)
        &&& !self.grouped.contains_key(id)
    }

    /// The symbols that a move may give to `id`.
    pub open spec fn domain(self, id: usize) -> Seq<char> {
        if self.narrowed.contains_key(id) {
            self.narrowed[id]
        } else {
            self.alphabet
        }
    }

    /// Whether a move of `id` writes to place `at` of a candidate.
    pub open spec fn moves_with(self, id: usize, at: int) -> bool {
        if self.grouped.contains_key(id) {
            exists|j: int| 0 <= j < self.grouped[id].len() && #[trigger] self.grouped[id][j] == at
        } else {
            id == at
        }
    }

    /// The candidate after `id` has moved to `symbol`.
    pub open spec fn moved(self, candidate: Seq<char>, id: usize, symbol: char) -> Seq<char> {
        Seq::new(
            candidate.len(),
            |at: int|
                if self.moves_with(id, at) {
                    symbol
                } else {
                    candidate[at]
                },
        )
    }

    /// Whether `next` is what some legal move makes of `candidate`.
    pub open spec fn is_move_of(self, candidate: Seq<char>, next: Seq<char>) -> bool {
        exists|id: usize, symbol: char|
            self.is_movable(id) && self.domain(id).contains(symbol) && next == #[trigger] self.moved(
                candidate,
                id,
                symbol,
            )
    }

    /// Whether `next` is what some legal swap makes of `candidate`.
    pub open spec fn is_swap_of(self, candidate: Seq<char>, next: Seq<char>) -> bool {
        exists|first: usize, second: usize|
            self.is_swappable(first) && self.is_swappable(second) && next == #[trigger] swapped(
                candidate,
                first,
                second,
            )
    }

    /// Whether every group member is an element.
    pub open spec fn groups_in_range(self) -> bool {
        forall|id: usize, j: int|
            self.grouped.contains_key(id) && 0 <= j < self.grouped[id].len()
                ==> #[trigger] self.grouped[id][j] < self.elements
    }

    /// Whether `list` holds, in rising order and once each, exactly the
    /// elements that a move may draw.
    pub open spec fn lists_movable(self, list: Seq<usize>) -> bool {
        &&& forall|i: int| 0 <= i < list.len() ==> self.is_movable(#[trigger] list[i])
        &&& forall|i: int, j: int| 0 <= i < j < list.len() ==> list[i] < list[j]
        &&& forall|id: usize| #[trigger] self.is_movable(id) ==> list.contains(id)
    }

    /// Whether `list` holds, in rising order and once each, exactly the
    /// elements that a swap may draw.
    pub open spec fn lists_swappable(self, list: Seq<usize>) -> bool {
        &&& forall|i: int| 0 <= i < list.len() ==> self.is_swappable(#[trigger] list[i])
        &&& forall|i: int, j: int| 0 <= i < j < list.len() ==> list[i] < list[j]
        &&& forall|id: usize| #[trigger] self.is_swappable(id) ==> list.contains(id)
    }

    /// Whether every element that a move may draw has a symbol to move to.
    pub open spec fn has_usable_domains(self) -> bool {
        forall|id: usize| #[trigger] self.is_movable(id) ==> self.domain(id).len() > 0
    }
}

/// The candidate after the symbols at `first` and `second` have changed
/// places.
pub open spec fn swapped(candidate: Seq<char>, first: usize, second: usize) -> Seq<char> {
    candidate.update(first as int, candidate[second as int]).update(
        second as int,
        candidate[first as int],
    )
}

} // verus!
