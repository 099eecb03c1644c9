//! The constraint model and its two neighbour operators.

use crate::builder::{apply_clauses, build_groups, lemma_nothing_built, parse_names};
use crate::config::{clause_views, AtomicConstraintView, Cache, Config, KeyMap};
use crate::model::{
    all_groups_resolve, built_model, is_first_unknown, member_name, swapped, ConstraintsView,
};
use crate::random::{random_index, random_symbol};
use rand::rngs::StdRng;
use std::collections::HashMap;
use std::collections::HashSet;
use vstd::prelude::*;

verus! {

/// Which draw found no element.
#[derive(Clone, Copy, Debug, PartialEq, Eq)]
pub enum Eligibility {
    /// The draw of an element to move.
    Movable,
    /// The draw of an element to swap.
    Swappable,
}

/// What building or using a model can fail with.
#[derive(Clone, Debug, PartialEq, Eq)]
pub enum ConstraintError {
    /// A group names a member that the naming cache does not know.
    NameNotFound {
        /// The compound name that was looked up.
        name: String,
    },
    /// Every element is excluded from a draw.
    NoEligibleElement {
        /// The draw that failed.
        predicate: Eligibility,
        /// The number of elements.
        elements: usize,
        /// The number of fixed elements.
        fixed: usize,
        /// The number of narrowed elements.
        narrowed: usize,
        /// The number of grouped elements.
        grouped: usize,
    },
}

/// The symbol lists of a map, as sequences.
pub open spec fn symbol_lists(narrowed: Map<usize, Vec<char>>) -> Map<usize, Seq<char>> {
    narrowed.map_values(|keys: Vec<char>| keys@)
}

/// The id lists of a map, as sequences.
pub open spec fn id_lists(grouped: Map<usize, Vec<usize>>) -> Map<usize, Seq<usize>> {
    grouped.map_values(|ids: Vec<usize>| ids@)
}

/// A constraint model. It is built once and read from then on: the
/// operators hand out new candidates and change neither the model nor the
/// candidate they are given.
pub struct Constraints {
    /// The key symbols.
    alphabet: Vec<char>,
    /// The number of elements.
    elements: usize,
    /// The elements that never change.
    fixed: HashSet<usize>,
    /// The symbols to which an element is restricted, where it is.
    narrowed: HashMap<usize, Vec<char>>,
    /// The group of an element, where it has one.
    grouped: HashMap<usize, Vec<usize>>,
    /// The elements that a move may draw, in rising order.
    movable: Vec<usize>,
    /// The elements that a swap may draw, in rising order.
    swappable: Vec<usize>,
}

impl View for Constraints {
    type V = ConstraintsView;

    closed spec fn view(&self) -> ConstraintsView {
        ConstraintsView {
            alphabet: self.alphabet@,
            elements: self.elements as nat,
            fixed: self.fixed@,
            narrowed: symbol_lists(self.narrowed@),
            grouped: id_lists(self.grouped@),
        }
    }
}

/// Lists the elements that a move may draw and those that a swap may draw.
fn list_eligible(
    elements: usize,
    fixed: &HashSet<usize>,
    narrowed: &HashMap<usize, Vec<char>>,
    grouped: &HashMap<usize, Vec<usize>>,
    Ghost(view): Ghost<ConstraintsView>,
) -> (lists: (Vec<usize>, Vec<usize>))
    requires
        view.elements == elements,
        view.fixed == fixed@,
        view.narrowed == symbol_lists(narrowed@),
        view.grouped == id_lists(grouped@),
    ensures
        view.lists_movable(lists.0@),
        view.lists_swappable(lists.1@),
{
    broadcast use vstd::std_specs::hash::group_hash_axioms;

    let mut movable: Vec<usize> = Vec::new();
    let mut swappable: Vec<usize> = Vec::new();
    let mut id: usize = 0;
    while id < elements
        invariant
            id <= elements,
            view.elements == elements,
            view.fixed == fixed@,
            view.narrowed == symbol_lists(narrowed@),
            view.grouped == id_lists(grouped@),
            forall|i: int|
                0 <= i < movable@.len() ==> view.is_movable(#[trigger] movable@[i]) && movable@[i]
                    < id,
            forall|i: int, j: int| 0 <= i < j < movable@.len() ==> movable@[i] < movable@[j],
            forall|e: usize| e < id && #[trigger] view.is_movable(e) ==> movable@.contains(e),
            forall|i: int|
                0 <= i < swappable@.len() ==> view.is_swappable(#[trigger] swappable@[i])
                    && swappable@[i] < id,
            forall|i: int, j: int| 0 <= i < j < swappable@.len() ==> swappable@[i] < swappable@[j],
            forall|e: usize| e < id && #[trigger] view.is_swappable(e) ==> swappable@.contains(e),
        decreases elements - id,
    {
        if !fixed.contains(&id) {
            let ghost listed = movable@;
            movable.push(id);
            assert(movable@[listed.len() as int] == id);
            assert forall|e: usize| e < id + 1 && #[trigger] view.is_movable(e) implies movable@.contains(
                e,
            ) by {
                if e < id {
                    let i = choose|i: int| 0 <= i < listed.len() && listed[i] == e;
                    assert(movable@[i] == e);
                }
            }
            if !narrowed.contains_key(&id) && !grouped.contains_key(&id) {
                let ghost listed = swappable@;
                swappable.push(id);
                assert(swappable@[listed.len() as int] == id);
                assert forall|e: usize| e < id + 1 && #[trigger] view.is_swappable(
                    e,
                ) implies swappable@.contains(e) by {
                    if e < id {
                        let i = choose|i: int| 0 <= i < listed.len() && listed[i] == e;
                        assert(swappable@[i] == e);
                    }
                }
            }
        }
        id += 1;
    }
    (movable, swappable)
}

impl Constraints {
    /// Group members are elements, and the two lists of eligible elements
    /// are exact.
    #[verifier::type_invariant]
    spec fn wf(&self) -> bool {
        &&& self@.groups_in_range()
        &&& self@.lists_movable(self.movable@)
        &&& self@.lists_swappable(self.swappable@)
    }

    /// Builds the model that `config` declares over the elements of `cache`.
    ///
    /// Groups are resolved first, through the cache; the first member that
    /// the cache does not know ends the construction. Then every atomic
    /// clause narrows or fixes the elements it speaks of, a later narrowing
    /// replacing an earlier one.
    pub fn new(config: &Config, cache: &Cache) -> (built: Result<Constraints, ConstraintError>)
        ensures
            built is Ok <==> all_groups_resolve(cache@, config@.groups),
            built matches Ok(model) ==> model@ == built_model(config@, cache@),
            built matches Err(error) ==> error matches ConstraintError::NameNotFound { name }
                && exists|g: int, j: int|
                #![trigger config@.groups[g][j]]
                is_first_unknown(cache@, config@.groups, g, j) && name@ == member_name(
                    config@.groups[g][j],
                ),
    {
        broadcast use vstd::std_specs::hash::group_hash_axioms;

        let grouped = match build_groups(config, cache) {
            Ok(grouped) => grouped,
            Err(error) => {
                return Err(error);
            },
        };
        let parsed = parse_names(cache);
        let mut fixed: HashSet<usize> = HashSet::new();
        let mut narrowed: HashMap<usize, Vec<char>> = HashMap::new();
        let ghost none = Seq::<AtomicConstraintView>::empty();
        let ghost first = clause_views(config.elements@);
        let ghost second = first + clause_views(config.indices@);
        proof {
            lemma_nothing_built(cache@);
            assert(symbol_lists(narrowed@) =~= Map::<usize, Seq<char>>::empty());
            assert(none + first =~= first);
        }
        let names = Ghost(cache@);
        apply_clauses(&config.elements, &parsed, &mut fixed, &mut narrowed, names, Ghost(none));
        apply_clauses(&config.indices, &parsed, &mut fixed, &mut narrowed, names, Ghost(first));
        apply_clauses(
            &config.element_indices,
            &parsed,
            &mut fixed,
            &mut narrowed,
            names,
            Ghost(second),
        );
        let alphabet = config.alphabet.clone();
        let elements = cache.elements();
        let ghost view = ConstraintsView {
            alphabet: alphabet@,
            elements: elements as nat,
            fixed: fixed@,
            narrowed: symbol_lists(narrowed@),
            grouped: id_lists(grouped@),
        };
        let (movable, swappable) = list_eligible(elements, &fixed, &narrowed, &grouped, Ghost(view));
        assert(view.groups_in_range());
        Ok(Constraints { alphabet, elements, fixed, narrowed, grouped, movable, swappable })
    }

    /// The error of a draw that found every element excluded.
    pub open spec fn no_eligible(&self, predicate: Eligibility) -> ConstraintError {
        ConstraintError::NoEligibleElement {
            predicate,
            elements: self@.elements as usize,
            fixed: self@.fixed.len() as usize,
            narrowed: self@.narrowed.dom().len() as usize,
            grouped: self@.grouped.dom().len() as usize,
        }
    }

    /// Reports that `predicate` holds of no element.
    fn none_eligible(&self, predicate: Eligibility) -> (error: ConstraintError)
        ensures
            error == self.no_eligible(predicate),
    {
        broadcast use vstd::std_specs::hash::group_hash_axioms;

        assert(self@.narrowed.dom() =~= self.narrowed@.dom());
        assert(self@.grouped.dom() =~= self.grouped@.dom());
        ConstraintError::NoEligibleElement {
            predicate,
            elements: self.elements,
            fixed: self.fixed.len(),
            narrowed: self.narrowed.len(),
            grouped: self.grouped.len(),
        }
    }

    /// Draws an element that is not fixed.
    ///
    /// The draw is one index into the list of such elements, so it ends; it
    /// fails exactly where every element is fixed.
    pub fn get_movable_element(&self, rng: &mut StdRng) -> (drawn: Result<usize, ConstraintError>)
        ensures
            drawn is Ok <==> exists|id: usize| self@.is_movable(id),
            drawn matches Ok(id) ==> self@.is_movable(id),
            drawn matches Err(error) ==> error == self.no_eligible(Eligibility::Movable),
    {
        proof {
            use_type_invariant(self);
        }
        if self.movable.len() == 0 {
            assert forall|id: usize| !self@.is_movable(id) by {
                if self@.is_movable(id) {
                    assert(self.movable@.contains(id));
                }
            }
            return Err(self.none_eligible(Eligibility::Movable));
        }
        let at = random_index(rng, self.movable.len());
        Ok(self.movable[at])
    }

    /// Draws an element that is neither fixed nor narrowed nor grouped.
    ///
    /// The draw is one index into the list of such elements, so it ends; it
    /// fails exactly where every element is excluded.
    pub fn get_swappable_element(&self, rng: &mut StdRng) -> (drawn: Result<
        usize,
        ConstraintError,
    >)
        ensures
            drawn is Ok <==> exists|id: usize| self@.is_swappable(id),
            drawn matches Ok(id) ==> self@.is_swappable(id),
            drawn matches Err(error) ==> error == self.no_eligible(Eligibility::Swappable),
    {
        proof {
            use_type_invariant(self);
        }
        if self.swappable.len() == 0 {
            assert forall|id: usize| !self@.is_swappable(id) by {
                if self@.is_swappable(id) {
                    assert(self.swappable@.contains(id));
                }
            }
            return Err(self.none_eligible(Eligibility::Swappable));
        }
        let at = random_index(rng, self.swappable.len());
        Ok(self.swappable[at])
    }

    /// Whether every element that a move may draw has a symbol to move to.
    pub fn has_usable_domains(&self) -> (usable: bool)
        ensures
            usable == self@.has_usable_domains(),
    {
        broadcast use vstd::std_specs::hash::group_hash_axioms;

        proof {
            use_type_invariant(self);
        }
        let mut at: usize = 0;
        while at < self.movable.len()
            invariant
                at <= self.movable.len(),
                self@.lists_movable(self.movable@),
                forall|i: int| 0 <= i < at ==> self@.domain(#[trigger] self.movable@[i]).len() > 0,
            decreases self.movable.len() - at,
        {
            let id = self.movable[at];
            let symbols = match self.narrowed.get(&id) {
                Some(keys) => keys.len(),
                None => self.alphabet.len(),
            };
            assert(symbols == self@.domain(id).len());
            if symbols == 0 {
                assert(self@.is_movable(id));
                return false;
            }
            at += 1;
        }
        assert forall|id: usize| #[trigger] self@.is_movable(id) implies self@.domain(id).len()
            > 0 by {
            let i = choose|i: int| 0 <= i < self.movable@.len() && self.movable@[i] == id;
            assert(self@.domain(self.movable@[i]).len() > 0);
        }
        true
    }

    /// The candidate in which `id`, or every member of its group, holds
    /// `symbol`, and every other element what it holds in `map`.
    pub fn move_element(&self, map: &KeyMap, id: usize, symbol: char) -> (next: KeyMap)
        requires
            map@.len() == self@.elements,
            id < self@.elements,
        ensures
            next@ == self@.moved(map@, id, symbol),
    {
        broadcast use vstd::std_specs::hash::group_hash_axioms;

        proof {
            use_type_invariant(self);
        }
        let mut next = map.clone();
        match self.grouped.get(&id) {
            Some(group) => {
                assert(self@.grouped.contains_key(id) && self@.grouped[id] == group@);
                let mut j: usize = 0;
                while j < group.len()
                    invariant
                        j <= group.len(),
                        next@.len() == map@.len(),
                        forall|i: int| 0 <= i < group@.len() ==> #[trigger] group@[i] < map@.len(),
                        forall|at: int|
                            0 <= at < next@.len() ==> #[trigger] next@[at] == if exists|i: int|
                                0 <= i < j && #[trigger] group@[i] == at {
                                symbol
                            } else {
                                map@[at]
                            },
                    decreases group.len() - j,
                {
                    next.set(group[j], symbol);
                    assert forall|at: int| 0 <= at < next@.len() implies #[trigger] next@[at]
                        == if exists|i: int| 0 <= i < j + 1 && #[trigger] group@[i] == at {
                        symbol
                    } else {
                        map@[at]
                    } by {
                        if at == group@[j as int] {
                        } else if exists|i: int| 0 <= i < j + 1 && #[trigger] group@[i] == at {
                            let i = choose|i: int| 0 <= i < j + 1 && #[trigger] group@[i] == at;
                            assert(0 <= i < j);
                        }
                    }
                    j += 1;
                }
                assert(next@ =~= self@.moved(map@, id, symbol));
            },
            None => {
                next.set(id, symbol);
                assert(next@ =~= self@.moved(map@, id, symbol));
            },
        }
        next
    }

    /// A constrained random move: draws an element that is not fixed and a
    /// symbol of its domain, and moves the element, with its group where it
    /// has one, to that symbol.
    ///
    /// The domain is the element's own narrowed list or, without one, the
    /// alphabet; the domains of other members of its group are not looked
    /// at. `map` is left as it is.
    pub fn constrained_random_move(&self, map: &KeyMap, rng: &mut StdRng) -> (moved: Result<
        KeyMap,
        ConstraintError,
    >)
        requires
            self@.has_usable_domains(),
            map@.len() == self@.elements,
        ensures
            moved is Ok <==> exists|id: usize| self@.is_movable(id),
            moved matches Ok(next) ==> self@.is_move_of(map@, next@),
            moved matches Err(error) ==> error == self.no_eligible(Eligibility::Movable),
    {
        broadcast use vstd::std_specs::hash::group_hash_axioms;

        let id = match self.get_movable_element(rng) {
            Ok(id) => id,
            Err(error) => {
                return Err(error);
            },
        };
        let domain = match self.narrowed.get(&id) {
            Some(keys) => keys,
            None => &self.alphabet,
        };
        assert(domain@ == self@.domain(id));
        let symbol = match random_symbol(rng, domain) {
            Some(symbol) => symbol,
            None => vstd::pervasive::unreached(),
        };
        let next = self.move_element(map, id, symbol);
        Ok(next)
    }

    /// A constrained random swap: draws two elements that are neither fixed
    /// nor narrowed nor grouped, and exchanges their symbols. The two draws
    /// may fall on one element, and the candidate then stays as it is. `map`
    /// is left as it is.
    pub fn constrained_random_swap(&self, map: &KeyMap, rng: &mut StdRng) -> (exchanged: Result<
        KeyMap,
        ConstraintError,
    >)
        requires
            map@.len() == self@.elements,
        ensures
            exchanged is Ok <==> exists|id: usize| self@.is_swappable(id),
            exchanged matches Ok(next) ==> self@.is_swap_of(map@, next@),
            exchanged matches Err(error) ==> error == self.no_eligible(Eligibility::Swappable),
    {
        let first = match self.get_swappable_element(rng) {
            Ok(id) => id,
            Err(error) => {
                return Err(error);
            },
        };
        let second = match self.get_swappable_element(rng) {
            Ok(id) => id,
            Err(error) => {
                return Err(error);
            },
        };
        let next = swap_elements(map, first, second);
        Ok(next)
    }

    /// The key symbols.
    pub fn alphabet(&self) -> (alphabet: &Vec<char>)
        ensures
            alphabet@ == self@.alphabet,
    {
        &self.alphabet
    }

    /// The number of elements.
    pub fn elements(&self) -> (elements: usize)
        ensures
            elements == self@.elements,
    {
        self.elements
    }

    /// Whether `id` is fixed.
    pub fn is_fixed(&self, id: usize) -> (fixed: bool)
        ensures
            fixed == self@.fixed.contains(id),
    {
        broadcast use vstd::std_specs::hash::group_hash_axioms;

        self.fixed.contains(&id)
    }

    /// The symbols to which `id` is narrowed, where it is.
    pub fn narrowed_to(&self, id: usize) -> (keys: Option<&Vec<char>>)
        ensures
            keys is Some <==> self@.narrowed.contains_key(id),
            keys matches Some(keys) ==> keys@ == self@.narrowed[id],
    {
        broadcast use vstd::std_specs::hash::group_hash_axioms;

        self.narrowed.get(&id)
    }

    /// The group of `id`, where it has one.
    pub fn group_of(&self, id: usize) -> (group: Option<&Vec<usize>>)
        ensures
            group is Some <==> self@.grouped.contains_key(id),
            group matches Some(ids) ==> ids@ == self@.grouped[id],
    {
        broadcast use vstd::std_specs::hash::group_hash_axioms;

        self.grouped.get(&id)
    }

    /// The elements that a move may draw, in rising order.
    pub fn movable(&self) -> (list: &Vec<usize>)
        ensures
            self@.lists_movable(list@),
    {
        proof {
            use_type_invariant(self);
        }
        &self.movable
    }

    /// The elements that a swap may draw, in rising order.
    pub fn swappable(&self) -> (list: &Vec<usize>)
        ensures
            self@.lists_swappable(list@),
    {
        proof {
            use_type_invariant(self);
        }
        &self.swappable
    }
}

/// The candidate in which the symbols at `first` and `second` have changed
/// places.
pub fn swap_elements(map: &KeyMap, first: usize, second: usize) -> (next: KeyMap)
    requires
        first < map@.len(),
        second < map@.len(),
    ensures
        next@ == swapped(map@, first, second),
{
    let mut next = map.clone();
    next.set(first, map[second]);
    next.set(second, map[first]);
    next
}

} // verus!
