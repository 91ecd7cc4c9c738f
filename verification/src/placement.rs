//! Placing parameters in a tree of groups.
//!
//! The store gives each parameter the names of the groups that lead to it.
//! Placing the parameters one after the other, each at the end of its
//! group, makes the tree: a group stands where the first parameter that
//! needed it made it, and the parameters of a group stand in the order in
//! which the store holds them.

use vstd::prelude::*;
use crate::param::{copy_names, ParamId};
use crate::store::{lemma_position_unique, ParameterStore, StoreView};
use crate::tree::{leaves_of, member_leaves, first_group, Member, ParameterGroup};

verus! {

/// Whether `member` is a group called `name`.
pub open spec fn names_group(member: Member, name: Seq<char>) -> bool {
    member matches Member::Group(group) && group.name@ == name
}

/// The position of the first group called `name` in a list of members, or
/// the length of the list if it holds no such group.
pub open spec fn group_index(members: Seq<Member>, name: Seq<char>) -> int
    decreases members.len(),
{
    if members.len() == 0 {
        0
    } else if names_group(members[0], name) {
        0
    } else {
        1 + group_index(members.drop_first(), name)
    }
}

/// `group_index` gives the first group of the name, and `first_group` is
/// the group at that position.
pub proof fn lemma_group_index(members: Seq<Member>, name: Seq<char>)
    ensures
        0 <= group_index(members, name) <= members.len(),
        group_index(members, name) < members.len() ==> names_group(
            members[group_index(members, name)],
            name,
        ),
        forall|j: int| 0 <= j < group_index(members, name) ==> !names_group(#[trigger] members[j], name),
        first_group(members, name) == if group_index(members, name) < members.len() {
            Some(members[group_index(members, name)]->Group_0)
        } else {
            None
        },
    decreases members.len(),
{
    if members.len() > 0 && !names_group(members[0], name) {
        let rest = members.drop_first();
        lemma_group_index(rest, name);
        let k = group_index(rest, name);
        assert forall|j: int| 0 <= j < k + 1 implies !names_group(#[trigger] members[j], name) by {
            if j > 0 {
                assert(members[j] == rest[j - 1]);
            }
        }
        if k < rest.len() {
            assert(members[k + 1] == rest[k]);
        }
    }
}

/// The first position that holds a group of the name is its `group_index`.
pub proof fn lemma_group_index_is(members: Seq<Member>, name: Seq<char>, k: int)
    requires
        0 <= k <= members.len(),
        k < members.len() ==> names_group(members[k], name),
        forall|j: int| 0 <= j < k ==> !names_group(#[trigger] members[j], name),
    ensures
        group_index(members, name) == k,
{
    lemma_group_index(members, name);
    let found = group_index(members, name);
    if found < k {
        assert(!names_group(members[found], name));
    }
}

/// Whether `group` is called `name` and has no members.
pub open spec fn empty_group(group: ParameterGroup, name: Seq<char>) -> bool {
    group.name@ == name && group.members@.len() == 0
}

/// What it means that `after` is `before` with the parameter `id` placed at
/// `path`. With an empty path the parameter is appended to the group.
/// Otherwise it is placed, along the rest of the path, in the first nested
/// group named by the first step; if there is no such group, a new one is
/// appended for it. Nothing else changes.
pub open spec fn placed(
    before: ParameterGroup,
    after: ParameterGroup,
    path: Seq<Seq<char>>,
    id: ParamId,
) -> bool
    decreases path.len(),
{
    &&& after.name@ == before.name@
    &&& if path.len() == 0 {
        after.members@ == before.members@.push(Member::Param(id))
    } else {
        let k = group_index(before.members@, path[0]);
        if k < before.members@.len() {
            &&& after.members@.len() == before.members@.len()
            &&& forall|j: int|
                0 <= j < before.members@.len() && j != k ==> #[trigger] after.members@[j]
                    == before.members@[j]
            &&& after.members@[k] is Group
            &&& placed(
                before.members@[k]->Group_0,
                after.members@[k]->Group_0,
                path.drop_first(),
                id,
            )
        } else {
            &&& after.members@.len() == before.members@.len() + 1
            &&& forall|j: int|
                0 <= j < before.members@.len() ==> #[trigger] after.members@[j]
                    == before.members@[j]
            &&& after.members@.last() is Group
            &&& exists|fresh: ParameterGroup|
                {
                    &&& #[trigger] empty_group(fresh, path[0])
                    &&& placed(fresh, after.members@.last()->Group_0, path.drop_first(), id)
                }
        }
    }
}

/// The parameters below two lists of members, one behind the other, are
/// those below the first followed by those below the second.
pub proof fn lemma_leaves_concat(first: Seq<Member>, second: Seq<Member>)
    ensures
        leaves_of(first + second) == leaves_of(first) + leaves_of(second),
    decreases second.len(),
{
    let both = first + second;
    if second.len() == 0 {
        assert(both =~= first);
        assert(leaves_of(first) + leaves_of(second) =~= leaves_of(first));
    } else {
        assert(both.drop_last() =~= first + second.drop_last());
        assert(both.last() == second.last());
        lemma_leaves_concat(first, second.drop_last());
        assert(leaves_of(both) =~= leaves_of(first) + leaves_of(second));
    }
}

/// Replacing one member changes the parameters below the list only where
/// the parameters of that member stand.
pub proof fn lemma_leaves_split(members: Seq<Member>, k: int)
    requires
        0 <= k < members.len(),
    ensures
        leaves_of(members) == leaves_of(members.take(k)) + member_leaves(members[k]) + leaves_of(
            members.skip(k + 1),
        ),
{
    let front = members.take(k);
    let upto = members.take(k + 1);
    let back = members.skip(k + 1);
    assert(members =~= upto + back);
    lemma_leaves_concat(upto, back);
    assert(upto.drop_last() =~= front);
    assert(upto.last() == members[k]);
}

/// Placing a parameter adds it to the parameters of the group, at one
/// position, and leaves all others where they were.
pub proof fn lemma_placed_leaves(
    before: ParameterGroup,
    after: ParameterGroup,
    path: Seq<Seq<char>>,
    id: ParamId,
) -> (at: int)
    requires
        placed(before, after, path, id),
    ensures
        0 <= at <= before.leaves().len(),
        after.leaves() == before.leaves().insert(at, id),
    decreases path.len(),
{
    let old_members = before.members@;
    let new_members = after.members@;
    if path.len() == 0 {
        assert(new_members.drop_last() =~= old_members);
        assert(new_members.last() == Member::Param(id));
        assert(member_leaves(Member::Param(id)) == seq![id]);
        let at = before.leaves().len() as int;
        assert(after.leaves() =~= before.leaves().insert(at, id));
        at
    } else {
        let k = group_index(old_members, path[0]);
        lemma_group_index(old_members, path[0]);
        if k < old_members.len() {
            let old_child = old_members[k]->Group_0;
            let new_child = new_members[k]->Group_0;
            let inner = lemma_placed_leaves(old_child, new_child, path.drop_first(), id);
            lemma_leaves_split(old_members, k);
            lemma_leaves_split(new_members, k);
            assert(new_members.take(k) =~= old_members.take(k));
            assert(new_members.skip(k + 1) =~= old_members.skip(k + 1));
            assert(member_leaves(old_members[k]) == old_child.leaves());
            assert(member_leaves(new_members[k]) == new_child.leaves());
            let at = leaves_of(old_members.take(k)).len() + inner;
            assert(after.leaves() =~= before.leaves().insert(at, id));
            at
        } else {
            let grown = new_members.last()->Group_0;
            let fresh = choose|fresh: ParameterGroup| #[trigger]
                empty_group(fresh, path[0]) && placed(fresh, grown, path.drop_first(), id);
            let inner = lemma_placed_leaves(fresh, grown, path.drop_first(), id);
            assert(fresh.leaves() =~= Seq::<ParamId>::empty());
            assert(grown.leaves() =~= seq![id]);
            assert(new_members.drop_last() =~= old_members);
            assert(member_leaves(new_members.last()) == grown.leaves());
            let at = before.leaves().len() as int;
            assert(after.leaves() =~= before.leaves().insert(at, id));
            at
        }
    }
}

/// A placed parameter is the last member of the group that its path leads
/// to.
pub proof fn lemma_placed_reaches(
    before: ParameterGroup,
    after: ParameterGroup,
    path: Seq<Seq<char>>,
    id: ParamId,
)
    requires
        placed(before, after, path, id),
    ensures
        after.descend(path) is Some,
        after.descend(path)->Some_0.members@.len() > 0,
        after.descend(path)->Some_0.members@.last() == Member::Param(id),
    decreases path.len(),
{
    let old_members = before.members@;
    let new_members = after.members@;
    if path.len() > 0 {
        let k = group_index(old_members, path[0]);
        lemma_group_index(old_members, path[0]);
        if k < old_members.len() {
            let old_child = old_members[k]->Group_0;
            let new_child = new_members[k]->Group_0;
            assert forall|j: int| 0 <= j < k implies !names_group(
                #[trigger] new_members[j],
                path[0],
            ) by {
                assert(new_members[j] == old_members[j]);
            }
            assert(placed(old_child, new_child, path.drop_first(), id));
            assert(new_child.name@ == old_child.name@);
            assert(names_group(old_members[k], path[0]));
            assert(names_group(new_members[k], path[0]));
            lemma_group_index_is(new_members, path[0], k);
            lemma_group_index(new_members, path[0]);
            lemma_placed_reaches(old_child, new_child, path.drop_first(), id);
        } else {
            let grown = new_members.last()->Group_0;
            let fresh = choose|fresh: ParameterGroup| #[trigger]
                empty_group(fresh, path[0]) && placed(fresh, grown, path.drop_first(), id);
            assert forall|j: int| 0 <= j < old_members.len() implies !names_group(
                #[trigger] new_members[j],
                path[0],
            ) by {
                assert(new_members[j] == old_members[j]);
            }
            assert(grown.name@ == fresh.name@);
            assert(names_group(new_members[old_members.len() as int], path[0]));
            lemma_group_index_is(new_members, path[0], old_members.len() as int);
            lemma_group_index(new_members, path[0]);
            lemma_placed_reaches(fresh, grown, path.drop_first(), id);
        }
    }
}

/// Where a parameter goes: the names of the groups that lead to it.
#[derive(Debug)]
pub struct Placement {
    pub id: ParamId,
    pub path: Vec<String>,
}

/// The mathematical content of a [`Placement`].
pub ghost struct PlacementView {
    pub id: ParamId,
    pub path: Seq<Seq<char>>,
}

impl View for Placement {
    type V = PlacementView;

    open spec fn view(&self) -> PlacementView {
        PlacementView { id: self.id, path: self.path.deep_view() }
    }
}

impl DeepView for Placement {
    type V = PlacementView;

    open spec fn deep_view(&self) -> PlacementView {
        self@
    }
}

/// What it means that `after` is `before` with the parameters of
/// `placements` placed one after the other, the first one first.
pub open spec fn grown(
    before: ParameterGroup,
    after: ParameterGroup,
    placements: Seq<PlacementView>,
) -> bool
    decreases placements.len(),
{
    if placements.len() == 0 {
        after == before
    } else {
        exists|middle: ParameterGroup|
            {
                &&& grown(before, middle, placements.drop_last())
                &&& #[trigger] placed(
                    middle,
                    after,
                    placements.last().path,
                    placements.last().id,
                )
            }
    }
}

impl ParameterGroup {
    /// Finds the position of the first nested group called `name`; gives
    /// the number of members if there is none.
    pub fn child_index(&self, name: &String) -> (k: usize)
        ensures
            k == group_index(self.members@, name@),
            k <= self.members.len(),
    {
        let mut i: usize = 0;
        proof {
            assert(self.members@.skip(0) =~= self.members@);
        }
        while i < self.members.len()
            invariant
                i <= self.members.len(),
                group_index(self.members@, name@) == i + group_index(
                    self.members@.skip(i as int),
                    name@,
                ),
            decreases self.members.len() - i,
        {
            let ghost rest = self.members@.skip(i as int);
            proof {
                assert(rest[0] == self.members@[i as int]);
                assert(rest.drop_first() =~= self.members@.skip(i + 1));
            }
            match &self.members[i] {
                Member::Group(group) => {
                    if group.name == *name {
                        return i;
                    }
                },
                Member::Param(_) => {},
            }
            i += 1;
        }
        i
    }

    /// Places the parameter `id` at the steps of `path` from `from` on.
    fn place_from(self, path: &Vec<String>, from: usize, id: ParamId) -> (after: ParameterGroup)
        requires
            from <= path.len(),
        ensures
            placed(self, after, path.deep_view().skip(from as int), id),
        decreases path.len() - from,
    {
        let ghost steps = path.deep_view().skip(from as int);
        let mut group = self;
        if from >= path.len() {
            group.push_param(id);
            return group;
        }
        proof {
            assert(steps[0] == path[from as int]@);
            assert(steps.drop_first() =~= path.deep_view().skip(from + 1));
            lemma_group_index(self.members@, steps[0]);
        }
        let ghost before = self.members@;
        let k: usize = group.child_index(&path[from]);
        if k < group.members.len() {
            match group.members.remove(k) {
                Member::Group(child) => {
                    let grown = child.place_from(path, from + 1, id);
                    group.members.insert(k, Member::Group(grown));
                    proof {
                        let now = group.members@;
                        assert(before[k as int] == Member::Group(child));
                        assert(now =~= before.update(k as int, Member::Group(grown)));
                        assert(now[k as int]->Group_0 == grown);
                        assert(placed(child, grown, steps.drop_first(), id));
                    }
                },
                Member::Param(other) => {
                    // Not reached: position `k` holds a group.
                    proof {
                        assert(names_group(before[k as int], steps[0]));
                        assert(false);
                    }
                    group.members.insert(k, Member::Param(other));
                },
            }
        } else {
            let fresh = ParameterGroup::new(path[from].clone());
            let grown = fresh.place_from(path, from + 1, id);
            group.members.push(Member::Group(grown));
            proof {
                let now = group.members@;
                assert(now.last()->Group_0 == grown);
                assert(empty_group(fresh, steps[0]));
                assert(placed(fresh, grown, steps.drop_first(), id));
            }
        }
        assert(group.name@ == self.name@);
        group
    }

    /// Places the parameter `id` in the group that `path` leads to, and
    /// makes the groups on the way that do not exist yet.
    pub fn place(self, path: &Vec<String>, id: ParamId) -> (after: ParameterGroup)
        ensures
            placed(self, after, path.deep_view(), id),
    {
        proof {
            assert(path.deep_view().skip(0) =~= path.deep_view());
        }
        self.place_from(path, 0, id)
    }

    /// Places the parameters of `placements` one after the other, the first
    /// one first.
    pub fn place_all(self, placements: &Vec<Placement>) -> (after: ParameterGroup)
        ensures
            grown(self, after, placements.deep_view()),
    {
        let ghost all = placements.deep_view();
        let mut group = self;
        let mut i: usize = 0;
        proof {
            assert(all.take(0) =~= Seq::empty());
        }
        while i < placements.len()
            invariant
                i <= placements.len(),
                all == placements.deep_view(),
                all.len() == placements.len(),
                grown(self, group, all.take(i as int)),
            decreases placements.len() - i,
        {
            let ghost middle = group;
            group = group.place(&placements[i].path, placements[i].id);
            proof {
                let next = all.take(i + 1);
                assert(next.drop_last() =~= all.take(i as int));
                assert(next.last() == placements[i as int]@);
                assert(grown(self, middle, next.drop_last()));
                assert(placed(middle, group, next.last().path, next.last().id));
                assert(grown(self, group, next));
            }
            i += 1;
        }
        proof {
            assert(all.take(i as int) =~= all);
        }
        group
    }
}

/// Whether `placements` places the parameter `id`.
pub open spec fn places(placements: Seq<PlacementView>, id: ParamId) -> bool {
    exists|i: int| 0 <= i < placements.len() && (#[trigger] placements[i]).id == id
}

/// Whether `placements` places no parameter twice.
pub open spec fn places_once(placements: Seq<PlacementView>) -> bool {
    forall|i: int, j: int|
        0 <= i < j < placements.len() ==> (#[trigger] placements[i]).id != (
        #[trigger] placements[j]).id
}

/// A group that has grown by some placements keeps its name and holds the
/// parameters it had and those that were placed, and no others. It holds
/// none twice if it held none twice before, if none was placed twice, and
/// if none that was placed was there before.
pub proof fn lemma_grown_leaves(
    before: ParameterGroup,
    after: ParameterGroup,
    placements: Seq<PlacementView>,
)
    requires
        grown(before, after, placements),
    ensures
        after.name@ == before.name@,
        forall|id: ParamId| #[trigger]
            after.leaves().contains(id) <==> before.leaves().contains(id) || places(
                placements,
                id,
            ),
        before.leaves().no_duplicates() && places_once(placements) && (forall|i: int|
            0 <= i < placements.len() ==> !before.leaves().contains(
                (#[trigger] placements[i]).id,
            )) ==> after.leaves().no_duplicates(),
    decreases placements.len(),
{
    if placements.len() > 0 {
        let earlier = placements.drop_last();
        let last = placements.last();
        let middle = choose|middle: ParameterGroup|
            grown(before, middle, earlier) && #[trigger] placed(middle, after, last.path, last.id);
        lemma_grown_leaves(before, middle, earlier);
        let at = lemma_placed_leaves(middle, after, last.path, last.id);
        let had = middle.leaves();
        let has = after.leaves();
        had.insert_ensures(at, last.id);
        assert forall|id: ParamId| #[trigger] has.contains(id) <==> before.leaves().contains(id)
            || places(placements, id) by {
            if has.contains(id) {
                let j = choose|j: int| 0 <= j < has.len() && has[j] == id;
                if j < at {
                    assert(had[j] == id);
                    assert(had.contains(id));
                } else if j > at {
                    assert(had[j - 1] == id);
                    assert(had.contains(id));
                } else {
                    assert(placements[placements.len() - 1].id == id);
                }
                if had.contains(id) && !before.leaves().contains(id) {
                    let i = choose|i: int| 0 <= i < earlier.len() && (#[trigger] earlier[i]).id == id;
                    assert(placements[i].id == id);
                }
            }
            if before.leaves().contains(id) || places(placements, id) {
                if places(placements, id) && !before.leaves().contains(id) {
                    let i = choose|i: int|
                        0 <= i < placements.len() && (#[trigger] placements[i]).id == id;
                    if i < earlier.len() {
                        assert(earlier[i].id == id);
                        assert(places(earlier, id));
                    } else {
                        assert(has[at] == id);
                    }
                }
                if had.contains(id) {
                    let j = choose|j: int| 0 <= j < had.len() && had[j] == id;
                    if j < at {
                        assert(has[j] == id);
                    } else {
                        assert(has[j + 1] == id);
                    }
                }
            }
        }
        if before.leaves().no_duplicates() && places_once(placements) && (forall|i: int|
            0 <= i < placements.len() ==> !before.leaves().contains(
                (#[trigger] placements[i]).id,
            )) {
            assert forall|i: int| 0 <= i < earlier.len() implies !before.leaves().contains(
                (#[trigger] earlier[i]).id,
            ) by {
                assert(earlier[i] == placements[i]);
            }
            assert(places_once(earlier)) by {
                assert forall|i: int, j: int| 0 <= i < j < earlier.len() implies (
                #[trigger] earlier[i]).id != (#[trigger] earlier[j]).id by {
                    assert(earlier[i] == placements[i]);
                    assert(earlier[j] == placements[j]);
                }
            }
            assert(had.no_duplicates());
            assert(!had.contains(last.id)) by {
                if had.contains(last.id) {
                    assert(!before.leaves().contains(placements[placements.len() - 1].id));
                    let i = choose|i: int|
                        0 <= i < earlier.len() && (#[trigger] earlier[i]).id == last.id;
                    assert(earlier[i] == placements[i]);
                    assert(placements[i].id != placements[placements.len() - 1].id);
                }
            }
            assert forall|i: int, j: int| 0 <= i < has.len() && 0 <= j < has.len() && i != j implies has[i]
                != has[j] by {
                let a = if i < at {
                    i
                } else {
                    i - 1
                };
                let b = if j < at {
                    j
                } else {
                    j - 1
                };
                if i == at {
                    assert(had[b] == has[j]);
                    assert(had.contains(has[j]));
                } else if j == at {
                    assert(had[a] == has[i]);
                    assert(had.contains(has[i]));
                } else {
                    assert(had[a] == has[i]);
                    assert(had[b] == has[j]);
                }
            }
        }
    }
}

/// Where the store puts its parameters: each in its group, in registration
/// order.
pub open spec fn placements_of(store: StoreView) -> Seq<PlacementView> {
    Seq::new(
        store.descriptors.len(),
        |i: int| PlacementView { id: store.descriptors[i].id, path: store.groups[i] },
    )
}

/// Lists where the store puts its parameters.
pub fn placements(store: &ParameterStore) -> (list: Vec<Placement>)
    requires
        store@.wf(),
    ensures
        list.deep_view() == placements_of(store@),
{
    let ids = store.ids();
    let mut list: Vec<Placement> = Vec::new();
    let mut i: usize = 0;
    while i < ids.len()
        invariant
            i <= ids.len(),
            store@.wf(),
            ids@ == store@.ids(),
            list.len() == i,
            forall|k: int| 0 <= k < i ==> (#[trigger] list[k])@ == placements_of(store@)[k],
        decreases ids.len() - i,
    {
        let id = ids[i];
        proof {
            assert(store@.holds_at(id, i as int));
            lemma_position_unique(store@, id, i as int);
        }
        let path = copy_names(store.group(id));
        list.push(Placement { id, path });
        i += 1;
    }
    assert(list.deep_view() =~= placements_of(store@));
    list
}

} // verus!
