//! What a constraint model is built from: the declared clauses and the
//! naming cache.

use vstd::prelude::*;

verus! {

/// A candidate: the symbol assigned to each element, by element id.
pub type KeyMap = Vec<char>;

/// One declared rule. It speaks of the elements that its `element` and
/// `index` filters let through, and either narrows them to `keys` or, where
/// `keys` is absent, fixes them.
#[derive(Clone, Debug, PartialEq, Eq)]
pub struct AtomicConstraint {
    pub element: Option<String>,
    pub index: Option<usize>,
    pub keys: Option<Vec<char>>,
}

pub struct AtomicConstraintView {
    pub element: Option<Seq<char>>,
    pub index: Option<usize>,
    pub keys: Option<Seq<char>>,
}

impl View for AtomicConstraint {
    type V = AtomicConstraintView;

    open spec fn view(&self) -> AtomicConstraintView {
        AtomicConstraintView {
            element: match self.element {
                Some(element) => Some(element@),
                None => None,
            },
            index: self.index,
            keys: match self.keys {
                Some(keys) => Some(keys@),
                None => None,
            },
        }
    }
}

/// One member of a group: part `index` of `element`.
#[derive(Clone, Debug, PartialEq, Eq)]
pub struct GroupMember {
    pub element: String,
    pub index: usize,
}

pub struct GroupMemberView {
    pub element: Seq<char>,
    pub index: usize,
}

impl View for GroupMember {
    type V = GroupMemberView;

    open spec fn view(&self) -> GroupMemberView {
        GroupMemberView { element: self.element@, index: self.index }
    }
}

/// The declared constraints of one optimisation run.
#[derive(Clone, Debug, PartialEq, Eq)]
pub struct Config {
    /// The key symbols, in their default order.
    pub alphabet: Vec<char>,
    /// Clauses declared per element.
    pub elements: Vec<AtomicConstraint>,
    /// Clauses declared per index.
    pub indices: Vec<AtomicConstraint>,
    /// Clauses declared per element and index.
    pub element_indices: Vec<AtomicConstraint>,
    /// The groups, each a list of members that must hold one symbol.
    pub grouping: Vec<Vec<GroupMember>>,
}

pub struct ConfigView {
    pub alphabet: Seq<char>,
    /// All atomic clauses in the order in which they take effect: those per
    /// element, then those per index, then those per element and index.
    pub clauses: Seq<AtomicConstraintView>,
    pub groups: Seq<Seq<GroupMemberView>>,
}

/// The views of a list of clauses.
pub open spec fn clause_views(clauses: Seq<AtomicConstraint>) -> Seq<AtomicConstraintView> {
    Seq::new(clauses.len(), |i: int| clauses[i]@)
}

/// The views of a list of group members.
pub open spec fn member_views(members: Seq<GroupMember>) -> Seq<GroupMemberView> {
    Seq::new(members.len(), |i: int| members[i]@)
}

impl View for Config {
    type V = ConfigView;

    open spec fn view(&self) -> ConfigView {
        ConfigView {
            alphabet: self.alphabet@,
            clauses: clause_views(self.elements@) + clause_views(self.indices@) + clause_views(
                self.element_indices@,
            ),
            groups: Seq::new(self.grouping@.len(), |g: int| member_views(self.grouping@[g]@)),
        }
    }
}

/// Whether `id` is the first place at which `names` holds `name`.
pub open spec fn is_id_of(names: Seq<Seq<char>>, name: Seq<char>, id: int) -> bool {
    &&& 0 <= id < names.len()
    &&& names[id] == name
    &&& forall|earlier: int| 0 <= earlier < id ==> names[earlier] != name
}

/// The id that `names` gives to `name`, if it holds it.
pub open spec fn id_of(names: Seq<Seq<char>>, name: Seq<char>) -> Option<usize> {
    if exists|id: int| is_id_of(names, name, id) {
        Some((choose|id: int| is_id_of(names, name, id)) as usize)
    } else {
        None
    }
}

/// A name has at most one id.
pub proof fn lemma_id_of_unique(names: Seq<Seq<char>>, name: Seq<char>, a: int, b: int)
    requires
        is_id_of(names, name, a),
        is_id_of(names, name, b),
    ensures
        a == b,
{
    if a < b {
        assert(names[a] != name);
    } else if b < a {
        assert(names[b] != name);
    }
}

/// The naming cache: the name of every element, by element id.
#[derive(Clone, Debug, PartialEq, Eq)]
pub struct Cache {
    pub names: Vec<String>,
}

impl View for Cache {
    type V = Seq<Seq<char>>;

    open spec fn view(&self) -> Seq<Seq<char>> {
        Seq::new(self.names@.len(), |id: int| self.names@[id]@)
    }
}

impl Cache {
    /// The number of elements.
    pub fn elements(&self) -> (count: usize)
        ensures
            count == self@.len(),
    {
        self.names.len()
    }

    /// The name of element `id`.
    pub fn name_of(&self, id: usize) -> (name: &String)
        requires
            id < self@.len(),
        ensures
            name@ == self@[id as int],
    {
        &self.names[id]
    }

    /// The id of the element called `name`, or `None` where no element is.
    pub fn id_of(&self, name: &String) -> (id: Option<usize>)
        ensures
            id == id_of(self@, name@),
            id matches Some(found) ==> found < self@.len() && self@[found as int] == name@,
    {
        let mut id: usize = 0;
        while id < self.names.len()
            invariant
                id <= self.names.len(),
                forall|earlier: int| 0 <= earlier < id ==> self@[earlier] != name@,
            decreases self.names.len() - id,
        {
            if self.names[id] == *name {
                proof {
                    assert(is_id_of(self@, name@, id as int));
                    let chosen = choose|i: int| is_id_of(self@, name@, i);
                    lemma_id_of_unique(self@, name@, id as int, chosen);
                }
                return Some(id);
            }
            id += 1;
        }
        None
    }
}

} // verus!
