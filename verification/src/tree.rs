//! The parameter tree: a read-only, hierarchical view over the store.
//!
//! A group lists parameters, by identifier, and nested groups, in display
//! order. The store holds the descriptor and the value of every parameter
//! that the tree names. A tree is either derived from the groups that the
//! store gives its parameters, or written by hand and checked against the
//! store.

use vstd::prelude::*;
use crate::param::ParamId;
use crate::placement::{
    empty_group, grown, lemma_grown_leaves, placements, placements_of, places, places_once,
};
use crate::store::{ParameterStore, StoreView};

verus! {

/// One entry of a group.
#[derive(Debug)]
pub enum Member {
    /// A parameter of the store.
    Param(ParamId),
    /// A nested group.
    Group(ParameterGroup),
}

/// A named, ordered collection of parameters and nested groups.
#[derive(Debug)]
pub struct ParameterGroup {
    pub name: String,
    pub members: Vec<Member>,
}

/// The parameters below one member, in display order.
pub open spec fn member_leaves(member: Member) -> Seq<ParamId>
    decreases member,
{
    match member {
        Member::Param(id) => seq![id],
        Member::Group(group) => leaves_of(group.members@),
    }
}

/// The parameters below a list of members, in display order.
pub open spec fn leaves_of(members: Seq<Member>) -> Seq<ParamId>
    decreases members,
{
    if members.len() == 0 {
        Seq::empty()
    } else {
        leaves_of(members.drop_last()) + member_leaves(members.last())
    }
}

/// The first group called `name` in a list of members.
pub open spec fn first_group(members: Seq<Member>, name: Seq<char>) -> Option<ParameterGroup>
    decreases members.len(),
{
    if members.len() == 0 {
        None
    } else {
        match members[0] {
            Member::Group(group) if group.name@ == name => Some(group),
            _ => first_group(members.drop_first(), name),
        }
    }
}

impl ParameterGroup {
    /// All parameters in the group and in the groups nested in it, in display
    /// order: a member's parameters come before those of the next member.
    pub open spec fn leaves(self) -> Seq<ParamId> {
        leaves_of(self.members@)
    }

    /// The first nested group with the given name.
    pub open spec fn child(self, name: Seq<char>) -> Option<ParameterGroup> {
        first_group(self.members@, name)
    }

    /// The group reached by following `path`, one group name per step.
    pub open spec fn descend(self, path: Seq<Seq<char>>) -> Option<ParameterGroup>
        decreases path.len(),
    {
        if path.len() == 0 {
            Some(self)
        } else {
            match self.child(path[0]) {
                Some(group) => group.descend(path.drop_first()),
                None => None,
            }
        }
    }

    /// An empty group.
    pub fn new(name: String) -> (group: ParameterGroup)
        ensures
            group.name == name,
            group.members@.len() == 0,
            group.leaves() == Seq::<ParamId>::empty(),
    {
        ParameterGroup { name, members: Vec::new() }
    }

    /// Appends a parameter to the group.
    pub fn push_param(&mut self, id: ParamId)
        ensures
            final(self).name == old(self).name,
            final(self).members@ == old(self).members@.push(Member::Param(id)),
            final(self).leaves() == old(self).leaves().push(id),
    {
        self.members.push(Member::Param(id));
        proof {
            let after = self.members@;
            assert(after.drop_last() =~= old(self).members@);
            assert(after.last() == Member::Param(id));
            assert(leaves_of(after) == leaves_of(after.drop_last()) + member_leaves(after.last()));
            assert(member_leaves(Member::Param(id)) == seq![id]);
            assert(old(self).leaves() + seq![id] =~= old(self).leaves().push(id));
        }
    }

    /// Appends a nested group to the group.
    pub fn push_group(&mut self, group: ParameterGroup)
        ensures
            final(self).name == old(self).name,
            final(self).members@ == old(self).members@.push(Member::Group(group)),
            final(self).leaves() == old(self).leaves() + group.leaves(),
    {
        self.members.push(Member::Group(group));
        proof {
            let after = self.members@;
            assert(after.drop_last() =~= old(self).members@);
            assert(after.last() == Member::Group(group));
            assert(leaves_of(after) == leaves_of(after.drop_last()) + member_leaves(after.last()));
            assert(member_leaves(Member::Group(group)) == leaves_of(group.members@));
        }
    }

    /// Lists all parameters below the group, in display order.
    pub fn walk(&self) -> (ids: Vec<ParamId>)
        ensures
            ids@ == self.leaves(),
        decreases self,
    {
        let mut ids: Vec<ParamId> = Vec::new();
        let mut i: usize = 0;
        while i < self.members.len()
            invariant
                i <= self.members.len(),
                ids@ == leaves_of(self.members@.take(i as int)),
            decreases self.members.len() - i,
        {
            let ghost before = ids@;
            match &self.members[i] {
                Member::Param(id) => {
                    ids.push(*id);
                    proof {
                        assert(before + seq![*id] =~= before.push(*id));
                    }
                },
                Member::Group(group) => {
                    let mut nested = group.walk();
                    ids.append(&mut nested);
                },
            }
            proof {
                let next = self.members@.take(i + 1);
                assert(next.drop_last() =~= self.members@.take(i as int));
                assert(next.last() == self.members@[i as int]);
                assert(leaves_of(next) == leaves_of(next.drop_last()) + member_leaves(next.last()));
                match self.members@[i as int] {
                    Member::Param(id) => {
                        assert(member_leaves(Member::Param(id)) == seq![id]);
                    },
                    Member::Group(group) => {
                        assert(member_leaves(Member::Group(group)) == leaves_of(group.members@));
                    },
                }
            }
            i += 1;
        }
        proof {
            assert(self.members@.take(i as int) =~= self.members@);
        }
        ids
    }

    /// Finds the first nested group called `name`.
    pub fn find_child(&self, name: &String) -> (found: Option<&ParameterGroup>)
        ensures
            match found {
                Some(group) => self.child(name@) == Some(*group),
                None => self.child(name@) is None,
            },
    {
        let mut i: usize = 0;
        proof {
            assert(self.members@.skip(0) =~= self.members@);
        }
        while i < self.members.len()
            invariant
                i <= self.members.len(),
                self.child(name@) == first_group(self.members@.skip(i as int), name@),
            decreases self.members.len() - i,
        {
            let ghost rest = self.members@.skip(i as int);
            proof {
                assert(rest[0] == self.members@[i as int]);
                assert(rest.drop_first() =~= self.members@.skip(i + 1));
            }
            match &self.members[i] {
                Member::Group(group) => {
                    if group.name == *name {
                        return Some(group);
                    }
                },
                Member::Param(_) => {},
            }
            i += 1;
        }
        None
    }

    /// Follows `path` from this group, one group name per step.
    pub fn lookup(&self, path: &Vec<String>) -> (found: Option<&ParameterGroup>)
        ensures
            match found {
                Some(group) => self.descend(path.deep_view()) == Some(*group),
                None => self.descend(path.deep_view()) is None,
            },
    {
        let mut current: &ParameterGroup = self;
        let mut i: usize = 0;
        let ghost names = path.deep_view();
        proof {
            assert(names.skip(0) =~= names);
        }
        while i < path.len()
            invariant
                i <= path.len(),
                names == path.deep_view(),
                names.len() == path.len(),
                self.descend(names) == current.descend(names.skip(i as int)),
            decreases path.len() - i,
        {
            let ghost rest = names.skip(i as int);
            proof {
                assert(rest[0] == names[i as int]);
                assert(rest.drop_first() =~= names.skip(i + 1));
                assert(names[i as int] == path[i as int]@);
            }
            match current.find_child(&path[i]) {
                Some(group) => {
                    current = group;
                },
                None => {
                    return None;
                },
            }
            i += 1;
        }
        proof {
            assert(names.skip(i as int).len() == 0);
        }
        Some(current)
    }
}

/// The parameters below a member are among those below the list it is in.
pub proof fn lemma_member_leaves_listed(members: Seq<Member>, k: int, id: ParamId)
    requires
        0 <= k < members.len(),
        member_leaves(members[k]).contains(id),
    ensures
        leaves_of(members).contains(id),
    decreases members.len(),
{
    let front = members.drop_last();
    assert(leaves_of(members) == leaves_of(front) + member_leaves(members.last()));
    if k == members.len() - 1 {
        let j = choose|j: int|
            0 <= j < member_leaves(members[k]).len() && member_leaves(members[k])[j] == id;
        assert(leaves_of(members)[leaves_of(front).len() + j] == id);
    } else {
        assert(front[k] == members[k]);
        lemma_member_leaves_listed(front, k, id);
        let j = choose|j: int| 0 <= j < leaves_of(front).len() && leaves_of(front)[j] == id;
        assert(leaves_of(members)[j] == id);
    }
}

/// The group that `first_group` finds is one of the members.
pub proof fn lemma_first_group_is_member(members: Seq<Member>, name: Seq<char>) -> (k: int)
    requires
        first_group(members, name) is Some,
    ensures
        0 <= k < members.len(),
        members[k] == Member::Group(first_group(members, name)->Some_0),
    decreases members.len(),
{
    match members[0] {
        Member::Group(group) if group.name@ == name => 0,
        _ => {
            let rest = members.drop_first();
            let j = lemma_first_group_is_member(rest, name);
            assert(rest[j] == members[j + 1]);
            j + 1
        },
    }
}

/// A parameter of a group that a path leads to lies below the group that the
/// path started from.
pub proof fn lemma_descend_leaves(root: ParameterGroup, path: Seq<Seq<char>>, id: ParamId)
    requires
        root.descend(path) is Some,
        root.descend(path)->Some_0.leaves().contains(id),
    ensures
        root.leaves().contains(id),
    decreases path.len(),
{
    if path.len() > 0 {
        let group = root.child(path[0])->Some_0;
        lemma_descend_leaves(group, path.drop_first(), id);
        let k = lemma_first_group_is_member(root.members@, path[0]);
        assert(member_leaves(Member::Group(group)) == leaves_of(group.members@));
        lemma_member_leaves_listed(root.members@, k, id);
    }
}

/// Why a group cannot serve as the tree over a store.
#[derive(Clone, Copy, Debug, PartialEq, Eq, Structural)]
pub enum TreeError {
    /// The tree names a parameter that the store does not hold.
    UnknownParameter,
    /// The tree names a parameter twice.
    DuplicateParameter,
    /// The store holds a parameter that the tree does not name.
    OrphanParameter,
}

/// Every listed parameter has a slot in the store.
pub open spec fn all_known(leaves: Seq<ParamId>, store: StoreView) -> bool {
    forall|k: int| 0 <= k < leaves.len() ==> store.contains(#[trigger] leaves[k])
}

/// Every slot of the store is listed.
pub open spec fn none_orphaned(leaves: Seq<ParamId>, store: StoreView) -> bool {
    forall|id: ParamId| #[trigger] store.contains(id) ==> leaves.contains(id)
}

/// The listed parameters and the slots of the store correspond one to one.
pub open spec fn one_to_one(leaves: Seq<ParamId>, store: StoreView) -> bool {
    &&& all_known(leaves, store)
    &&& leaves.no_duplicates()
    &&& none_orphaned(leaves, store)
}

/// Whether `id` occurs in `ids`.
pub fn occurs(ids: &Vec<ParamId>, id: ParamId) -> (found: bool)
    ensures
        found == ids@.contains(id),
{
    let mut i: usize = 0;
    while i < ids.len()
        invariant
            i <= ids.len(),
            forall|k: int| 0 <= k < i ==> ids[k] != id,
        decreases ids.len() - i,
    {
        if ids[i] == id {
            return true;
        }
        i += 1;
    }
    false
}

/// Whether no identifier occurs twice in `ids`.
pub fn all_distinct(ids: &Vec<ParamId>) -> (distinct: bool)
    ensures
        distinct == ids@.no_duplicates(),
{
    let mut i: usize = 0;
    while i < ids.len()
        invariant
            i <= ids.len(),
            forall|a: int, b: int| 0 <= a < i && a < b < ids.len() ==> ids[a] != ids[b],
        decreases ids.len() - i,
    {
        let mut j: usize = i + 1;
        while j < ids.len()
            invariant
                i < j <= ids.len(),
                forall|b: int| i < b < j ==> ids[i as int] != ids[b],
            decreases ids.len() - j,
        {
            if ids[i] == ids[j] {
                return false;
            }
            j += 1;
        }
        i += 1;
    }
    true
}

/// Whether every identifier in `ids` has a slot in `store`.
pub fn known_to(ids: &Vec<ParamId>, store: &ParameterStore) -> (known: bool)
    requires
        store@.wf(),
    ensures
        known == all_known(ids@, store@),
{
    let mut i: usize = 0;
    while i < ids.len()
        invariant
            i <= ids.len(),
            store@.wf(),
            forall|k: int| 0 <= k < i ==> store@.contains(#[trigger] ids[k]),
        decreases ids.len() - i,
    {
        if !store.contains(ids[i]) {
            return false;
        }
        i += 1;
    }
    true
}

/// Whether every slot of `store` is named in `ids`.
pub fn lists_all(ids: &Vec<ParamId>, store: &ParameterStore) -> (complete: bool)
    ensures
        complete == none_orphaned(ids@, store@),
{
    let slots = store.ids();
    let mut i: usize = 0;
    while i < slots.len()
        invariant
            i <= slots.len(),
            slots@ == store@.ids(),
            forall|k: int| 0 <= k < i ==> ids@.contains(#[trigger] slots[k]),
        decreases slots.len() - i,
    {
        if !occurs(ids, slots[i]) {
            proof {
                assert(store@.holds_at(slots[i as int], i as int));
                assert(store@.contains(slots[i as int]));
            }
            return false;
        }
        i += 1;
    }
    proof {
        assert forall|id: ParamId| #[trigger] store@.contains(id) implies ids@.contains(id) by {
            let k = store@.position(id);
            assert(store@.holds_at(id, k));
            assert(slots[k] == id);
        }
    }
    true
}

/// A group that was checked against a store: its parameters and the slots
/// of the store correspond one to one.
#[derive(Debug)]
pub struct ParameterTree {
    root: ParameterGroup,
}

impl ParameterTree {
    /// The root group.
    pub closed spec fn root(self) -> ParameterGroup {
        self.root
    }

    /// All parameters of the tree, in display order.
    pub open spec fn leaves(self) -> Seq<ParamId> {
        self.root().leaves()
    }

    /// Takes `root` as the tree over `store`, provided that every parameter
    /// it names has a slot, none is named twice, and no slot is left out.
    pub fn new(root: ParameterGroup, store: &ParameterStore) -> (outcome: Result<
        ParameterTree,
        TreeError,
    >)
        requires
            store@.wf(),
        ensures
            match outcome {
                Ok(tree) => tree.root() == root && one_to_one(root.leaves(), store@),
                Err(TreeError::UnknownParameter) => !all_known(root.leaves(), store@),
                Err(TreeError::DuplicateParameter) => {
                    &&& all_known(root.leaves(), store@)
                    &&& !root.leaves().no_duplicates()
                },
                Err(TreeError::OrphanParameter) => {
                    &&& all_known(root.leaves(), store@)
                    &&& root.leaves().no_duplicates()
                    &&& !none_orphaned(root.leaves(), store@)
                },
            },
    {
        let ids = root.walk();
        if !known_to(&ids, store) {
            return Err(TreeError::UnknownParameter);
        }
        if !all_distinct(&ids) {
            return Err(TreeError::DuplicateParameter);
        }
        if !lists_all(&ids, store) {
            return Err(TreeError::OrphanParameter);
        }
        Ok(ParameterTree { root })
    }

    /// Derives the tree from the store: a root called `name`, in which
    /// every parameter of the store is placed in its group, in registration
    /// order. A group stands where its first parameter made it. The
    /// parameters of the tree and the slots of the store then correspond
    /// one to one.
    pub fn project(name: String, store: &ParameterStore) -> (tree: ParameterTree)
        requires
            store@.wf(),
        ensures
            one_to_one(tree.leaves(), store@),
            tree.root().name@ == name@,
            exists|empty: ParameterGroup| #[trigger]
                empty_group(empty, name@) && grown(empty, tree.root(), placements_of(store@)),
    {
        let list = placements(store);
        let empty = ParameterGroup::new(name);
        let root = empty.place_all(&list);
        proof {
            let placed_all = placements_of(store@);
            let leaves = root.leaves();
            assert(empty_group(empty, name@));
            assert(empty.leaves() =~= Seq::<ParamId>::empty());
            lemma_grown_leaves(empty, root, placed_all);
            assert(places_once(placed_all));
            assert forall|k: int| 0 <= k < leaves.len() implies store@.contains(
                #[trigger] leaves[k],
            ) by {
                assert(leaves.contains(leaves[k]));
                let i = choose|i: int|
                    0 <= i < placed_all.len() && (#[trigger] placed_all[i]).id == leaves[k];
                assert(store@.holds_at(leaves[k], i));
            }
            assert forall|id: ParamId| #[trigger] store@.contains(id) implies leaves.contains(
                id,
            ) by {
                let i = store@.position(id);
                assert(store@.holds_at(id, i));
                assert(placed_all[i].id == id);
                assert(places(placed_all, id));
            }
        }
        ParameterTree { root }
    }

    /// The root group.
    pub fn root_group(&self) -> (group: &ParameterGroup)
        ensures
            *group == self.root(),
    {
        &self.root
    }

    /// Lists all parameters of the tree, in display order.
    pub fn walk(&self) -> (ids: Vec<ParamId>)
        ensures
            ids@ == self.leaves(),
    {
        self.root.walk()
    }

    /// The group that `path` leads to from the root, one group name per step.
    pub fn lookup(&self, path: &Vec<String>) -> (found: Option<&ParameterGroup>)
        ensures
            match found {
                Some(group) => self.root().descend(path.deep_view()) == Some(*group),
                None => self.root().descend(path.deep_view()) is None,
            },
    {
        self.root.lookup(path)
    }
}

} // verus!
