//! What holds of every model and of every outcome of its operators.

use crate::config::{is_id_of, ConfigView, GroupMemberView};
use crate::model::{
    all_groups_resolve, built_grouped, built_model, group_ids, last_group_of,
    lemma_last_group_of, member_id, member_name, swapped, ConstraintsView,
};
use vstd::prelude::*;

verus! {

/// Whether any two groups that share a member have the same ids in the same
/// order.
pub open spec fn groups_agree(names: Seq<Seq<char>>, groups: Seq<Seq<GroupMemberView>>) -> bool {
    forall|g: int, h: int, id: usize|
        #![trigger group_ids(names, groups[g]).contains(id), group_ids(names, groups[h]).contains(id)]
        0 <= g < groups.len() && 0 <= h < groups.len() && group_ids(names, groups[g]).contains(id)
            && group_ids(names, groups[h]).contains(id) ==> group_ids(names, groups[g])
            == group_ids(names, groups[h])
}

/// Whether no group is split: a group that is the last to hold one of its
/// members is, up to a group of the same ids, the last to hold each of them.
pub open spec fn groups_are_whole(names: Seq<Seq<char>>, groups: Seq<Seq<GroupMemberView>>) -> bool {
    forall|id: usize, other: usize|
        last_group_of(names, groups, id) >= 0 && #[trigger] group_ids(
            names,
            groups[last_group_of(names, groups, id)],
        ).contains(other) ==> group_ids(names, groups[last_group_of(names, groups, other)])
            == group_ids(names, groups[last_group_of(names, groups, id)])
}

/// Whether each member of an element's group has that same group.
pub open spec fn is_symmetric(grouped: Map<usize, Seq<usize>>) -> bool {
    forall|id: usize, other: usize|
        grouped.contains_key(id) && #[trigger] grouped[id].contains(other)
            ==> grouped.contains_key(other) && grouped[other] == grouped[id]
}

/// Every grouped element is a member of its own group.
pub proof fn lemma_group_holds_its_key(
    names: Seq<Seq<char>>,
    groups: Seq<Seq<GroupMemberView>>,
    id: usize,
)
    requires
        built_grouped(names, groups).contains_key(id),
    ensures
        built_grouped(names, groups)[id].contains(id),
{
    lemma_last_group_of(names, groups, id);
}

/// The groups of a built model are symmetric: every member of an element's
/// group is grouped, with the very same sequence of ids.
///
/// This holds where no group is split, and only there. Where two groups of
/// different ids share a member, the later one takes that member over, and
/// a member that stays with the earlier one no longer finds it in a group
/// like its own.
pub proof fn lemma_groups_are_symmetric(names: Seq<Seq<char>>, groups: Seq<Seq<GroupMemberView>>)
    requires
        groups_are_whole(names, groups),
    ensures
        is_symmetric(built_grouped(names, groups)),
{
    let grouped = built_grouped(names, groups);
    assert forall|id: usize, other: usize|
        grouped.contains_key(id) && #[trigger] grouped[id].contains(
            other,
        ) implies grouped.contains_key(other) && grouped[other] == grouped[id] by {
        lemma_last_group_of(names, groups, id);
        lemma_last_group_of(names, groups, other);
        let g = last_group_of(names, groups, id);
        let h = last_group_of(names, groups, other);
        assert(group_ids(names, groups[g]).contains(other));
        if h < g {
            assert(!group_ids(names, groups[g]).contains(other));
        }
    }
}

/// Symmetric groups are whole: the groups of a built model are symmetric
/// nowhere else.
pub proof fn lemma_symmetric_groups_are_whole(
    names: Seq<Seq<char>>,
    groups: Seq<Seq<GroupMemberView>>,
)
    requires
        is_symmetric(built_grouped(names, groups)),
    ensures
        groups_are_whole(names, groups),
{
    let grouped = built_grouped(names, groups);
    assert forall|id: usize, other: usize|
        last_group_of(names, groups, id) >= 0 && #[trigger] group_ids(
            names,
            groups[last_group_of(names, groups, id)],
        ).contains(other) implies group_ids(names, groups[last_group_of(names, groups, other)])
        == group_ids(names, groups[last_group_of(names, groups, id)]) by {
        assert(grouped.contains_key(id));
        assert(grouped[id].contains(other));
    }
}

/// Groups that agree wherever they share a member are whole: no group of
/// theirs is split, so the groups that they build are symmetric.
pub proof fn lemma_agreeing_groups_are_whole(
    names: Seq<Seq<char>>,
    groups: Seq<Seq<GroupMemberView>>,
)
    requires
        groups_agree(names, groups),
    ensures
        groups_are_whole(names, groups),
{
    assert forall|id: usize, other: usize|
        last_group_of(names, groups, id) >= 0 && #[trigger] group_ids(
            names,
            groups[last_group_of(names, groups, id)],
        ).contains(other) implies group_ids(names, groups[last_group_of(names, groups, other)])
        == group_ids(names, groups[last_group_of(names, groups, id)]) by {
        lemma_last_group_of(names, groups, id);
        lemma_last_group_of(names, groups, other);
        let g = last_group_of(names, groups, id);
        let h = last_group_of(names, groups, other);
        if h < g {
            assert(!group_ids(names, groups[g]).contains(other));
        }
        assert(group_ids(names, groups[h]).contains(other));
    }
}

/// Every member of every group of a built model is an element, and only
/// elements are fixed or narrowed.
pub proof fn lemma_built_model_is_in_range(config: ConfigView, names: Seq<Seq<char>>)
    requires
        all_groups_resolve(names, config.groups),
    ensures
        built_model(config, names).groups_in_range(),
        forall|id: usize| #[trigger]
            built_model(config, names).fixed.contains(id) ==> id < built_model(
                config,
                names,
            ).elements,
        forall|id: usize| #[trigger]
            built_model(config, names).narrowed.contains_key(id) ==> id < built_model(
                config,
                names,
            ).elements,
{
    let model = built_model(config, names);
    assert forall|id: usize, j: int|
        model.grouped.contains_key(id) && 0 <= j < model.grouped[id].len()
            implies #[trigger] model.grouped[id][j] < model.elements by {
        lemma_last_group_of(names, config.groups, id);
        let group = config.groups[last_group_of(names, config.groups, id)];
        assert(member_id(names, group[j]) is Some);
        let found = choose|found: int| is_id_of(names, member_name(group[j]), found);
        assert(model.grouped[id][j] == found as usize);
    }
}

impl ConstraintsView {
    /// Whether no element that a move can move has a fixed element in its
    /// group.
    pub open spec fn spares_fixed(self) -> bool {
        forall|id: usize, j: int|
            self.is_movable(id) && self.domain(id).len() > 0 && self.grouped.contains_key(id) && 0
                <= j < self.grouped[id].len() && self.grouped[id][j] < self.elements
                ==> !self.fixed.contains(#[trigger] self.grouped[id][j])
    }

    /// Whether `next` is what one operator makes of `candidate`.
    pub open spec fn is_neighbour(self, candidate: Seq<char>, next: Seq<char>) -> bool {
        self.is_move_of(candidate, next) || self.is_swap_of(candidate, next)
    }

    /// Whether each candidate of `walk` but the first is what one operator
    /// makes of the one before it.
    pub open spec fn is_walk(self, walk: Seq<Seq<char>>) -> bool {
        forall|step: int|
            0 <= step < walk.len() - 1 ==> self.is_neighbour(#[trigger] walk[step], walk[step + 1])
    }
}

/// A move leaves every fixed element as it is, provided that no group of a
/// movable element holds a fixed one: such a group would carry the fixed
/// element along.
pub proof fn lemma_move_keeps_fixed(
    model: ConstraintsView,
    candidate: Seq<char>,
    next: Seq<char>,
    id: usize,
)
    requires
        model.spares_fixed(),
        candidate.len() == model.elements,
        model.is_move_of(candidate, next),
        model.fixed.contains(id),
        id < candidate.len(),
    ensures
        next[id as int] == candidate[id as int],
{
    let (drawn, symbol) = choose|drawn: usize, symbol: char|
        model.is_movable(drawn) && model.domain(drawn).contains(symbol) && next
            == #[trigger] model.moved(candidate, drawn, symbol);
    assert(!model.moves_with(drawn, id as int));
}

/// Where a move can move an element whose group holds a fixed element, some
/// move of some candidate changes that fixed element: the law above asks no
/// more than it must.
pub proof fn lemma_move_may_change_fixed(model: ConstraintsView) -> (found: (
    Seq<char>,
    Seq<char>,
    usize,
))
    requires
        !model.spares_fixed(),
    ensures
        found.0.len() == model.elements,
        model.is_move_of(found.0, found.1),
        model.fixed.contains(found.2),
        found.2 < model.elements,
        found.1[found.2 as int] != found.0[found.2 as int],
{
    let (drawn, j) = choose|drawn: usize, j: int|
        model.is_movable(drawn) && model.domain(drawn).len() > 0 && model.grouped.contains_key(drawn)
            && 0 <= j < model.grouped[drawn].len() && model.grouped[drawn][j] < model.elements
            && model.fixed.contains(#[trigger] model.grouped[drawn][j]);
    let symbol = model.domain(drawn)[0];
    let other = if symbol == 'a' {
        'b'
    } else {
        'a'
    };
    let candidate = Seq::new(model.elements, |at: int| other);
    let next = model.moved(candidate, drawn, symbol);
    let id = model.grouped[drawn][j];
    assert(model.domain(drawn).contains(symbol));
    assert(model.moves_with(drawn, id as int));
    (candidate, next, id)
}

/// A swap leaves every fixed element as it is.
pub proof fn lemma_swap_keeps_fixed(
    model: ConstraintsView,
    candidate: Seq<char>,
    next: Seq<char>,
    id: usize,
)
    requires
        candidate.len() == model.elements,
        model.is_swap_of(candidate, next),
        model.fixed.contains(id),
        id < candidate.len(),
    ensures
        next[id as int] == candidate[id as int],
{
}

/// Both operators keep the length of a candidate.
pub proof fn lemma_neighbour_keeps_length(
    model: ConstraintsView,
    candidate: Seq<char>,
    next: Seq<char>,
)
    requires
        candidate.len() == model.elements,
        model.is_neighbour(candidate, next),
    ensures
        next.len() == candidate.len(),
{
}

impl ConstraintsView {
    /// Whether every narrowed list is made of symbols of the alphabet.
    pub open spec fn narrows_within_alphabet(self) -> bool {
        forall|id: usize, k: int|
            self.narrowed.contains_key(id) && 0 <= k < self.narrowed[id].len()
                ==> self.alphabet.contains(#[trigger] self.narrowed[id][k])
    }

    /// Whether every symbol of `candidate` is a symbol of the alphabet.
    pub open spec fn spells(self, candidate: Seq<char>) -> bool {
        forall|at: int| 0 <= at < candidate.len() ==> self.alphabet.contains(#[trigger] candidate[at])
    }
}

/// Both operators keep a candidate within the alphabet, provided that the
/// narrowed lists are within it.
pub proof fn lemma_neighbour_keeps_alphabet(
    model: ConstraintsView,
    candidate: Seq<char>,
    next: Seq<char>,
)
    requires
        model.narrows_within_alphabet(),
        candidate.len() == model.elements,
        model.spells(candidate),
        model.is_neighbour(candidate, next),
    ensures
        model.spells(next),
{
    if model.is_move_of(candidate, next) {
        let (id, symbol) = choose|id: usize, symbol: char|
            model.is_movable(id) && model.domain(id).contains(symbol) && next
                == #[trigger] model.moved(candidate, id, symbol);
        if model.narrowed.contains_key(id) {
            let k = choose|k: int| 0 <= k < model.narrowed[id].len() && model.narrowed[id][k] == symbol;
            assert(model.alphabet.contains(model.narrowed[id][k]));
        }
        assert(model.alphabet.contains(symbol));
        assert forall|at: int| 0 <= at < next.len() implies model.alphabet.contains(
            #[trigger] next[at],
        ) by {
            if !model.moves_with(id, at) {
                assert(model.alphabet.contains(candidate[at]));
            }
        }
    } else {
        let (first, second) = choose|first: usize, second: usize|
            model.is_swappable(first) && model.is_swappable(second) && next == #[trigger] swapped(
                candidate,
                first,
                second,
            );
        assert forall|at: int| 0 <= at < next.len() implies model.alphabet.contains(
            #[trigger] next[at],
        ) by {
            assert(model.alphabet.contains(candidate[at]));
            assert(model.alphabet.contains(candidate[first as int]));
            assert(model.alphabet.contains(candidate[second as int]));
        }
    }
}

/// However many moves and swaps follow each other, every fixed element
/// holds at each step what it held at the start, provided that no group of
/// a movable element holds a fixed one.
pub proof fn lemma_walk_keeps_fixed(
    model: ConstraintsView,
    walk: Seq<Seq<char>>,
    step: int,
    id: usize,
)
    requires
        model.spares_fixed(),
        model.is_walk(walk),
        0 <= step < walk.len(),
        walk[0].len() == model.elements,
        model.fixed.contains(id),
        id < model.elements,
    ensures
        walk[step].len() == model.elements,
        walk[step][id as int] == walk[0][id as int],
    decreases step,
{
    if step > 0 {
        lemma_walk_keeps_fixed(model, walk, step - 1, id);
        assert(model.is_neighbour(walk[step - 1], walk[step - 1 + 1]));
        lemma_neighbour_keeps_length(model, walk[step - 1], walk[step]);
        if model.is_move_of(walk[step - 1], walk[step]) {
            lemma_move_keeps_fixed(model, walk[step - 1], walk[step], id);
        } else {
            lemma_swap_keeps_fixed(model, walk[step - 1], walk[step], id);
        }
    }
}

/// A move is local: every place that does not move with the drawn element
/// keeps its symbol, and every place that does holds the new symbol. So an
/// element without a group changes alone, and the members of a group end
/// with one symbol between them.
pub proof fn lemma_move_is_local(
    model: ConstraintsView,
    candidate: Seq<char>,
    id: usize,
    symbol: char,
)
    ensures
        model.moved(candidate, id, symbol).len() == candidate.len(),
        forall|at: int|
            0 <= at < candidate.len() && !model.moves_with(id, at) ==> #[trigger] model.moved(
                candidate,
                id,
                symbol,
            )[at] == candidate[at],
        forall|at: int|
            0 <= at < candidate.len() && model.moves_with(id, at) ==> #[trigger] model.moved(
                candidate,
                id,
                symbol,
            )[at] == symbol,
        !model.grouped.contains_key(id) ==> forall|at: int|
            0 <= at < candidate.len() && at != id ==> #[trigger] model.moved(candidate, id, symbol)[at]
                == candidate[at],
        model.grouped.contains_key(id) ==> forall|j: int, k: int|
            #![trigger model.grouped[id][j], model.grouped[id][k]]
            0 <= j < model.grouped[id].len() && 0 <= k < model.grouped[id].len()
                && model.grouped[id][j] < candidate.len() && model.grouped[id][k] < candidate.len()
                ==> model.moved(candidate, id, symbol)[model.grouped[id][j] as int] == model.moved(
                candidate,
                id,
                symbol,
            )[model.grouped[id][k] as int],
{
    if model.grouped.contains_key(id) {
        assert forall|j: int, k: int|
            #![trigger model.grouped[id][j], model.grouped[id][k]]
            0 <= j < model.grouped[id].len() && 0 <= k < model.grouped[id].len()
                && model.grouped[id][j] < candidate.len() && model.grouped[id][k]
                < candidate.len() implies model.moved(
            candidate,
            id,
            symbol,
        )[model.grouped[id][j] as int] == model.moved(
            candidate,
            id,
            symbol,
        )[model.grouped[id][k] as int] by {
            assert(model.moves_with(id, model.grouped[id][j] as int));
            assert(model.moves_with(id, model.grouped[id][k] as int));
        }
    }
}

/// What a move writes is a symbol of the drawn element's domain: of its
/// narrowed list where it has one, else of the alphabet.
pub proof fn lemma_move_stays_in_domain(
    model: ConstraintsView,
    candidate: Seq<char>,
    next: Seq<char>,
)
    requires
        model.is_move_of(candidate, next),
    ensures
        exists|id: usize, symbol: char|
            #![trigger model.moved(candidate, id, symbol)]
            model.is_movable(id) && next == model.moved(candidate, id, symbol) && (
            model.narrowed.contains_key(id) ==> model.narrowed[id].contains(symbol)) && (
            !model.narrowed.contains_key(id) ==> model.alphabet.contains(symbol)),
{
    let (id, symbol) = choose|id: usize, symbol: char|
        model.is_movable(id) && model.domain(id).contains(symbol) && next
            == #[trigger] model.moved(candidate, id, symbol);
    assert(next == model.moved(candidate, id, symbol));
}

/// The elements that a swap exchanges are neither fixed nor narrowed nor
/// grouped.
pub proof fn lemma_swap_draws_free_elements(
    model: ConstraintsView,
    candidate: Seq<char>,
    next: Seq<char>,
)
    requires
        model.is_swap_of(candidate, next),
    ensures
        exists|first: usize, second: usize|
            #![trigger swapped(candidate, first, second)]
            next == swapped(candidate, first, second) && !model.fixed.contains(first)
                && !model.fixed.contains(second) && !model.narrowed.contains_key(first)
                && !model.narrowed.contains_key(second) && !model.grouped.contains_key(first)
                && !model.grouped.contains_key(second),
{
    let (first, second) = choose|first: usize, second: usize|
        model.is_swappable(first) && model.is_swappable(second) && next == #[trigger] swapped(
            candidate,
            first,
            second,
        );
    assert(next == swapped(candidate, first, second));
}

/// Exchanging two symbols keeps every symbol as often as it was there.
pub proof fn lemma_swapped_is_permutation(candidate: Seq<char>, first: usize, second: usize)
    requires
        first < candidate.len(),
        second < candidate.len(),
    ensures
        swapped(candidate, first, second).to_multiset() == candidate.to_multiset(),
{
    broadcast use vstd::seq_lib::to_multiset_update;
    broadcast use vstd::multiset::group_multiset_axioms;

    candidate.to_multiset_ensures();
    assert(candidate.contains(candidate[first as int]));
    assert(candidate.to_multiset().count(candidate[first as int]) > 0);
    let half = candidate.update(first as int, candidate[second as int]);
    assert(half.to_multiset() == candidate.to_multiset().insert(candidate[second as int]).remove(
        candidate[first as int],
    ));
    assert(swapped(candidate, first, second).to_multiset() == half.to_multiset().insert(
        candidate[first as int],
    ).remove(half[second as int]));
    assert(swapped(candidate, first, second).to_multiset() =~= candidate.to_multiset());
}

/// A swap is a permutation: its outcome holds every symbol as often as the
/// candidate did.
pub proof fn lemma_swap_is_permutation(
    model: ConstraintsView,
    candidate: Seq<char>,
    next: Seq<char>,
)
    requires
        candidate.len() == model.elements,
        model.is_swap_of(candidate, next),
    ensures
        next.to_multiset() == candidate.to_multiset(),
{
    let (first, second) = choose|first: usize, second: usize|
        model.is_swappable(first) && model.is_swappable(second) && next == #[trigger] swapped(
            candidate,
            first,
            second,
        );
    lemma_swapped_is_permutation(candidate, first, second);
}

/// Exchanging the same two symbols twice gives the candidate back.
pub proof fn lemma_swapped_twice(candidate: Seq<char>, first: usize, second: usize)
    requires
        first < candidate.len(),
        second < candidate.len(),
    ensures
        swapped(swapped(candidate, first, second), first, second) == candidate,
{
    assert(swapped(swapped(candidate, first, second), first, second) =~= candidate);
}

} // verus!
