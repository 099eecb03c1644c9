//! The steps by which a model is built, each with the part of the model that
//! it accounts for.

use crate::config::{
    clause_views, member_views, AtomicConstraint, AtomicConstraintView, Cache, Config,
    GroupMember, GroupMemberView,
};
use crate::constraints::{id_lists, symbol_lists, ConstraintError};
use crate::model::{
    all_groups_resolve, built_fixed, built_grouped, built_narrowed, clause_admits,
    clause_applies, fixes,
    group_ids, group_resolves, is_first_unknown, is_fixed_by, last_group_of, last_narrowing,
    lemma_last_group_of, lemma_last_narrowing, member_id, member_name, narrows, SECOND_PART,
};
use crate::names::{
    parse_element_name, parse_name, same_chars, to_chars, write_compound_name, ElementName,
};
use std::collections::HashMap;
use std::collections::HashSet;
use vstd::map::*;
use vstd::prelude::*;

verus! {

/// `grouped` after `ids` has replaced the entry of each of `members`.
pub(crate) open spec fn with_members(
    grouped: Map<usize, Seq<usize>>,
    members: Seq<usize>,
    ids: Seq<usize>,
) -> Map<usize, Seq<usize>> {
    Map::new(
        |id: usize| members.contains(id) || grouped.contains_key(id),
        |id: usize|
            if members.contains(id) {
                ids
            } else {
                grouped[id]
            },
    )
}

/// `fixed` and the elements below `bound` that `clause` fixes.
pub(crate) open spec fn with_fixing(
    fixed: Set<usize>,
    clause: AtomicConstraintView,
    names: Seq<Seq<char>>,
    bound: int,
) -> Set<usize> {
    Set::new(
        |id: usize|
            fixed.contains(id) || (id < bound && id < names.len() && fixes(
                clause,
                names[id as int],
            )),
    )
}

/// `narrowed` after `clause` has replaced the entry of each element below
/// `bound` that it narrows.
pub(crate) open spec fn with_narrowing(
    narrowed: Map<usize, Seq<char>>,
    clause: AtomicConstraintView,
    names: Seq<Seq<char>>,
    bound: int,
) -> Map<usize, Seq<char>> {
    Map::new(
        |id: usize|
            narrowed.contains_key(id) || (id < bound && id < names.len() && narrows(
                clause,
                names[id as int],
            )),
        |id: usize|
            if id < bound && id < names.len() && narrows(clause, names[id as int]) {
                clause.keys.unwrap()
            } else {
                narrowed[id]
            },
    )
}

/// Whether `parsed` holds the reading of every name of `names`.
pub(crate) open spec fn reads(parsed: Seq<ElementName>, names: Seq<Seq<char>>) -> bool {
    &&& parsed.len() == names.len()
    &&& forall|id: int| 0 <= id < parsed.len() ==> (#[trigger] parsed[id])@ == parse_name(names[id])
}

/// One more group replaces the entries of its members and leaves the others.
pub(crate) proof fn lemma_group_added(
    names: Seq<Seq<char>>,
    groups: Seq<Seq<GroupMemberView>>,
    group: Seq<GroupMemberView>,
)
    ensures
        built_grouped(names, groups.push(group)) == with_members(
            built_grouped(names, groups),
            group_ids(names, group),
            group_ids(names, group),
        ),
{
    let longer = groups.push(group);
    let ids = group_ids(names, group);
    assert(longer.drop_last() =~= groups);
    assert(longer.last() == group);
    assert forall|id: usize| #[trigger]
        with_members(built_grouped(names, groups), ids, ids).contains_key(id) implies built_grouped(
        names,
        longer,
    ).contains_key(id) && built_grouped(names, longer)[id] == with_members(
        built_grouped(names, groups),
        ids,
        ids,
    )[id] by {
        lemma_last_group_of(names, groups, id);
        if !ids.contains(id) {
            assert(longer[last_group_of(names, groups, id)] == groups[last_group_of(
                names,
                groups,
                id,
            )]);
        }
    }
    assert(built_grouped(names, longer) =~= with_members(built_grouped(names, groups), ids, ids));
}

/// One more clause fixes what it fixes and narrows what it narrows.
pub(crate) proof fn lemma_clause_added(
    clauses: Seq<AtomicConstraintView>,
    clause: AtomicConstraintView,
    names: Seq<Seq<char>>,
)
    ensures
        built_fixed(clauses.push(clause), names) == with_fixing(
            built_fixed(clauses, names),
            clause,
            names,
            names.len() as int,
        ),
        built_narrowed(clauses.push(clause), names) == with_narrowing(
            built_narrowed(clauses, names),
            clause,
            names,
            names.len() as int,
        ),
{
    let longer = clauses.push(clause);
    assert(longer.drop_last() =~= clauses);
    assert(longer.last() == clause);
    assert forall|id: usize| id < names.len() implies (is_fixed_by(longer, names[id as int])
        <==> is_fixed_by(clauses, names[id as int]) || fixes(clause, names[id as int])) by {
        let name = names[id as int];
        if is_fixed_by(clauses, name) {
            let k = choose|k: int| 0 <= k < clauses.len() && fixes(#[trigger] clauses[k], name);
            assert(fixes(longer[k], name));
        }
        if fixes(clause, name) {
            assert(fixes(longer[clauses.len() as int], name));
        }
        if is_fixed_by(longer, name) {
            let k = choose|k: int| 0 <= k < longer.len() && fixes(#[trigger] longer[k], name);
            if k < clauses.len() {
                assert(fixes(clauses[k], name));
            }
        }
    }
    assert(built_fixed(longer, names) =~= with_fixing(
        built_fixed(clauses, names),
        clause,
        names,
        names.len() as int,
    ));
    assert forall|id: usize| id < names.len() && last_narrowing(longer, names[id as int])
        >= 0 implies #[trigger] built_narrowed(longer, names)[id] == with_narrowing(
        built_narrowed(clauses, names),
        clause,
        names,
        names.len() as int,
    )[id] by {
        let name = names[id as int];
        lemma_last_narrowing(clauses, name);
        if !narrows(clause, name) {
            assert(longer[last_narrowing(clauses, name)] == clauses[last_narrowing(clauses, name)]);
        }
    }
    assert(built_narrowed(longer, names) =~= with_narrowing(
        built_narrowed(clauses, names),
        clause,
        names,
        names.len() as int,
    ));
}

/// No clause fixes or narrows anything.
pub(crate) proof fn lemma_nothing_built(names: Seq<Seq<char>>)
    ensures
        built_fixed(Seq::empty(), names) == Set::<usize>::empty(),
        built_narrowed(Seq::empty(), names) == Map::<usize, Seq<char>>::empty(),
        built_grouped(names, Seq::empty()) == Map::<usize, Seq<usize>>::empty(),
{
    assert(built_fixed(Seq::empty(), names) =~= Set::<usize>::empty());
    assert(built_narrowed(Seq::empty(), names) =~= Map::<usize, Seq<char>>::empty());
    assert(built_grouped(names, Seq::empty()) =~= Map::<usize, Seq<usize>>::empty());
}

/// An id is among the first `j + 1` of `ids` if it is among the first `j` or
/// is the next one.
proof fn lemma_next_member(ids: Seq<usize>, j: int, id: usize)
    requires
        0 <= j < ids.len(),
    ensures
        ids.take(j + 1).contains(id) <==> ids.take(j).contains(id) || ids[j] == id,
{
    let longer = ids.take(j + 1);
    let shorter = ids.take(j);
    if longer.contains(id) {
        let i = choose|i: int| 0 <= i < longer.len() && longer[i] == id;
        if i < j {
            assert(shorter[i] == id);
        }
    }
    if shorter.contains(id) {
        let i = choose|i: int| 0 <= i < shorter.len() && shorter[i] == id;
        assert(longer[i] == id);
    }
    if ids[j] == id {
        assert(longer[j] == id);
    }
}

/// The ids of the members of `group`, or the name of the first member that
/// the cache does not know.
fn resolve_group(group: &Vec<GroupMember>, cache: &Cache) -> (resolved: Result<Vec<usize>, String>)
    ensures
        resolved is Ok <==> group_resolves(cache@, member_views(group@)),
        resolved matches Ok(ids) ==> ids@ == group_ids(cache@, member_views(group@)) && forall|
            j: int,
        |
            0 <= j < ids@.len() ==> #[trigger] ids@[j] < cache@.len(),
        resolved matches Err(name) ==> exists|j: int|
            #![trigger member_views(group@)[j]]
            0 <= j < group@.len() && member_id(cache@, member_views(group@)[j]) is None && name@
                == member_name(member_views(group@)[j]) && forall|i: int|
                0 <= i < j ==> member_id(cache@, #[trigger] member_views(group@)[i]) is Some,
{
    let ghost members = member_views(group@);
    let mut ids: Vec<usize> = Vec::new();
    let mut j: usize = 0;
    while j < group.len()
        invariant
            j <= group.len(),
            members == member_views(group@),
            ids@.len() == j,
            forall|i: int|
                0 <= i < j ==> member_id(cache@, #[trigger] members[i]) == Some(ids@[i]) && ids@[i]
                    < cache@.len(),
        decreases group.len() - j,
    {
        let member = &group[j];
        let name = write_compound_name(member.element.as_str(), member.index);
        assert(name@ == member_name(members[j as int]));
        match cache.id_of(&name) {
            Some(id) => {
                ids.push(id);
            },
            None => {
                assert(member_id(cache@, members[j as int]) is None);
                return Err(name);
            },
        }
        j += 1;
    }
    assert(ids@ =~= group_ids(cache@, members));
    Ok(ids)
}

/// Gives every member of the group `ids` the whole group as its entry.
fn register_group(grouped: &mut HashMap<usize, Vec<usize>>, ids: &Vec<usize>)
    ensures
        id_lists(final(grouped)@) == with_members(id_lists(old(grouped)@), ids@, ids@),
{
    broadcast use vstd::std_specs::hash::group_hash_axioms;

    let ghost before = id_lists(grouped@);
    let mut j: usize = 0;
    assert(id_lists(grouped@) =~= with_members(before, ids@.take(0), ids@));
    while j < ids.len()
        invariant
            j <= ids.len(),
            id_lists(grouped@) == with_members(before, ids@.take(j as int), ids@),
        decreases ids.len() - j,
    {
        let ghost entries = id_lists(grouped@);
        grouped.insert(ids[j], ids.clone());
        proof {
            assert(id_lists(grouped@) =~= entries.insert(ids@[j as int], ids@));
            let target = with_members(before, ids@.take(j + 1), ids@);
            assert_maps_equal!(entries.insert(ids@[j as int], ids@), target, id => {
                lemma_next_member(ids@, j as int, id);
            });
        }
        j += 1;
    }
    assert(ids@.take(ids@.len() as int) =~= ids@);
}

/// Resolves the groups of `config` and builds the group of every member.
pub(crate) fn build_groups(config: &Config, cache: &Cache) -> (built: Result<
    HashMap<usize, Vec<usize>>,
    ConstraintError,
>)
    ensures
        built is Ok <==> all_groups_resolve(cache@, config@.groups),
        built matches Ok(grouped) ==> id_lists(grouped@) == built_grouped(cache@, config@.groups)
            && forall|id: usize, j: int|
            grouped@.contains_key(id) && 0 <= j < grouped@[id]@.len() ==> #[trigger] grouped@[id]@[j]
                < cache@.len(),
        built matches Err(error) ==> error matches ConstraintError::NameNotFound { name }
            && exists|g: int, j: int|
            #![trigger config@.groups[g][j]]
            is_first_unknown(cache@, config@.groups, g, j) && name@ == member_name(
                config@.groups[g][j],
            ),
{
    broadcast use vstd::std_specs::hash::group_hash_axioms;

    let ghost groups = config@.groups;
    let mut grouped: HashMap<usize, Vec<usize>> = HashMap::new();
    let mut g: usize = 0;
    proof {
        lemma_nothing_built(cache@);
        assert(groups.take(0) =~= Seq::empty());
        assert(id_lists(grouped@) =~= built_grouped(cache@, groups.take(0)));
    }
    while g < config.grouping.len()
        invariant
            g <= config.grouping.len(),
            groups == config@.groups,
            groups.len() == config.grouping@.len(),
            forall|h: int| 0 <= h < g ==> group_resolves(cache@, #[trigger] groups[h]),
            id_lists(grouped@) == built_grouped(cache@, groups.take(g as int)),
            forall|id: usize, j: int|
                grouped@.contains_key(id) && 0 <= j < grouped@[id]@.len()
                    ==> #[trigger] grouped@[id]@[j] < cache@.len(),
        decreases config.grouping.len() - g,
    {
        assert(groups[g as int] == member_views(config.grouping@[g as int]@));
        let ghost entries = grouped@;
        match resolve_group(&config.grouping[g], cache) {
            Ok(ids) => {
                register_group(&mut grouped, &ids);
                proof {
                    lemma_group_added(cache@, groups.take(g as int), groups[g as int]);
                    assert(groups.take(g as int).push(groups[g as int]) =~= groups.take(g + 1));
                    assert forall|id: usize, j: int|
                        grouped@.contains_key(id) && 0 <= j < grouped@[id]@.len()
                            implies #[trigger] grouped@[id]@[j] < cache@.len() by {
                        assert(id_lists(grouped@).contains_key(id));
                        assert(id_lists(grouped@)[id] == grouped@[id]@);
                        if ids@.contains(id) {
                            assert(grouped@[id]@ == ids@);
                        } else {
                            assert(id_lists(entries).contains_key(id));
                            assert(id_lists(entries)[id] == entries[id]@);
                            assert(grouped@[id]@ == entries[id]@);
                        }
                    }
                }
            },
            Err(name) => {
                proof {
                    let j = choose|j: int|
                        #![trigger groups[g as int][j]]
                        0 <= j < groups[g as int].len() && member_id(cache@, groups[g as int][j])
                            is None && name@ == member_name(groups[g as int][j]) && forall|i: int|
                            0 <= i < j ==> member_id(cache@, #[trigger] groups[g as int][i])
                                is Some;
                    assert(is_first_unknown(cache@, groups, g as int, j));
                    assert(!group_resolves(cache@, groups[g as int]));
                }
                return Err(ConstraintError::NameNotFound { name });
            },
        }
        g += 1;
    }
    assert(groups.take(g as int) =~= groups);
    Ok(grouped)
}

/// Takes the name of every element apart.
pub(crate) fn parse_names(cache: &Cache) -> (parsed: Vec<ElementName>)
    ensures
        reads(parsed@, cache@),
{
    let mut parsed: Vec<ElementName> = Vec::new();
    let mut id: usize = 0;
    while id < cache.names.len()
        invariant
            id <= cache.names.len(),
            parsed@.len() == id,
            forall|i: int| 0 <= i < id ==> (#[trigger] parsed@[i])@ == parse_name(cache@[i]),
        decreases cache.names.len() - id,
    {
        parsed.push(parse_element_name(cache.names[id].as_str()));
        id += 1;
    }
    parsed
}

/// The element that a clause asks for, as characters.
pub(crate) open spec fn asked_element(element: Option<Vec<char>>) -> Option<Seq<char>> {
    match element {
        Some(element) => Some(element@),
        None => None,
    }
}

/// Whether `clause`, which asks for `element`, lets `name` through.
fn admits(clause: &AtomicConstraint, element: &Option<Vec<char>>, name: &ElementName) -> (admitted:
    bool)
    requires
        asked_element(*element) == clause@.element,
    ensures
        admitted == clause_admits(clause@, name@),
{
    let index_admitted = match clause.index {
        Some(index) => if name.compound {
            match name.index {
                Some(part) => part == index,
                None => false,
            }
        } else {
            index != SECOND_PART
        },
        None => true,
    };
    let element_admitted = match element {
        Some(element) => same_chars(element, &name.base),
        None => true,
    };
    index_admitted && element_admitted
}

/// Lets one clause fix or narrow every element that it speaks of.
fn apply_clause(
    clause: &AtomicConstraint,
    names: &Vec<ElementName>,
    fixed: &mut HashSet<usize>,
    narrowed: &mut HashMap<usize, Vec<char>>,
    Ghost(cache): Ghost<Seq<Seq<char>>>,
)
    requires
        reads(names@, cache),
    ensures
        final(fixed)@ == with_fixing(old(fixed)@, clause@, cache, cache.len() as int),
        symbol_lists(final(narrowed)@) == with_narrowing(
            symbol_lists(old(narrowed)@),
            clause@,
            cache,
            cache.len() as int,
        ),
{
    broadcast use vstd::std_specs::hash::group_hash_axioms;

    let ghost fixed_before = fixed@;
    let ghost narrowed_before = symbol_lists(narrowed@);
    let element: Option<Vec<char>> = match &clause.element {
        Some(element) => Some(to_chars(element.as_str())),
        None => None,
    };
    let mut id: usize = 0;
    assert(fixed@ =~= with_fixing(fixed_before, clause@, cache, 0));
    assert(symbol_lists(narrowed@) =~= with_narrowing(narrowed_before, clause@, cache, 0));
    while id < names.len()
        invariant
            id <= names.len(),
            reads(names@, cache),
            asked_element(element) == clause@.element,
            fixed@ == with_fixing(fixed_before, clause@, cache, id as int),
            symbol_lists(narrowed@) == with_narrowing(narrowed_before, clause@, cache, id as int),
        decreases names.len() - id,
    {
        let ghost entries = symbol_lists(narrowed@);
        let admitted = admits(clause, &element, &names[id]);
        assert(admitted == clause_applies(clause@, cache[id as int]));
        if admitted {
            match &clause.keys {
                Some(keys) => {
                    narrowed.insert(id, keys.clone());
                    assert(symbol_lists(narrowed@) =~= entries.insert(id, keys@));
                },
                None => {
                    fixed.insert(id);
                },
            }
        }
        assert(fixed@ =~= with_fixing(fixed_before, clause@, cache, id + 1));
        assert(symbol_lists(narrowed@) =~= with_narrowing(narrowed_before, clause@, cache, id + 1));
        id += 1;
    }
}

/// Lets a list of clauses take effect, one after the other, on what the
/// clauses `done` have built.
pub(crate) fn apply_clauses(
    clauses: &Vec<AtomicConstraint>,
    names: &Vec<ElementName>,
    fixed: &mut HashSet<usize>,
    narrowed: &mut HashMap<usize, Vec<char>>,
    Ghost(cache): Ghost<Seq<Seq<char>>>,
    Ghost(done): Ghost<Seq<AtomicConstraintView>>,
)
    requires
        reads(names@, cache),
        old(fixed)@ == built_fixed(done, cache),
        symbol_lists(old(narrowed)@) == built_narrowed(done, cache),
    ensures
        final(fixed)@ == built_fixed(done + clause_views(clauses@), cache),
        symbol_lists(final(narrowed)@) == built_narrowed(done + clause_views(clauses@), cache),
{
    let ghost views = clause_views(clauses@);
    let mut k: usize = 0;
    assert(done + views.take(0) =~= done);
    while k < clauses.len()
        invariant
            k <= clauses.len(),
            reads(names@, cache),
            views == clause_views(clauses@),
            fixed@ == built_fixed(done + views.take(k as int), cache),
            symbol_lists(narrowed@) == built_narrowed(done + views.take(k as int), cache),
        decreases clauses.len() - k,
    {
        apply_clause(&clauses[k], names, fixed, narrowed, Ghost(cache));
        proof {
            lemma_clause_added(done + views.take(k as int), views[k as int], cache);
            assert((done + views.take(k as int)).push(views[k as int]) =~= done + views.take(
                k + 1,
            ));
        }
        k += 1;
    }
    assert(views.take(views.len() as int) =~= views);
}

} // verus!
