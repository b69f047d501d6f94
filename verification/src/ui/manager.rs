use vstd::prelude::*;
use crate::ui::element::{accepts_input, focused, typed_all, Element};
use crate::ui::state::new_frame_of;
use crate::ui::group::Group;

verus! {

/// An input event kept until the interface handles it.
#[derive(Clone, Copy, Debug, PartialEq, Eq, Structural)]
pub enum Event {
    TextInput { character: char },
}

/// A group seen as its name and the identifiers of its members.
pub open spec fn group_view(g: Group) -> (Seq<char>, Seq<Seq<char>>) {
    (g.name(), g.members())
}

/// Every member of a group is an element, and every element is a member of
/// exactly one group.
pub open spec fn one_group_each(ids: Seq<Seq<char>>, groups: Seq<(Seq<char>, Seq<Seq<char>>)>) -> bool {
    &&& forall|i: int, m: Seq<char>|
        0 <= i < groups.len() && #[trigger] groups[i].1.contains(m) ==> ids.contains(m)
    &&& forall|m: Seq<char>|
        #[trigger] ids.contains(m) ==> exists|i: int| 0 <= i < groups.len() && #[trigger] groups[i].1.contains(m)
    &&& forall|i: int, j: int, m: Seq<char>|
        0 <= i < groups.len() && 0 <= j < groups.len() && i != j && #[trigger] groups[i].1.contains(m)
            ==> !#[trigger] groups[j].1.contains(m)
}

/// `members` without `x`, if it lists it.
pub open spec fn drop_member(members: Seq<Seq<char>>, x: Seq<char>) -> Seq<Seq<char>> {
    if members.contains(x) {
        members.remove(members.index_of(x))
    } else {
        members
    }
}

proof fn lemma_remove_keeps_distinct<A>(s: Seq<A>, i: int)
    requires
        s.no_duplicates(),
        0 <= i < s.len(),
    ensures
        s.remove(i).no_duplicates(),
        forall|x: A| #[trigger] s.remove(i).contains(x) <==> s.contains(x) && x != s[i],
{
    let r = s.remove(i);
    assert forall|a: int, b: int| 0 <= a < b < r.len() implies r[a] != r[b] by {
        let oa = if a < i { a } else { a + 1 };
        let ob = if b < i { b } else { b + 1 };
        assert(r[a] == s[oa] && r[b] == s[ob]);
    }
    assert forall|x: A| #[trigger] r.contains(x) <==> s.contains(x) && x != s[i] by {
        if r.contains(x) {
            let a = choose|a: int| 0 <= a < r.len() && r[a] == x;
            let oa = if a < i { a } else { a + 1 };
            assert(s[oa] == x);
        }
        if s.contains(x) && x != s[i] {
            let oa = choose|oa: int| 0 <= oa < s.len() && s[oa] == x;
            let a = if oa < i { oa } else { oa - 1 };
            assert(r[a] == x);
        }
    }
}

proof fn lemma_drop_member(members: Seq<Seq<char>>, x: Seq<char>)
    requires
        members.no_duplicates(),
    ensures
        drop_member(members, x).no_duplicates(),
        forall|m: Seq<char>| #[trigger] drop_member(members, x).contains(m) <==> members.contains(m) && m != x,
{
    if members.contains(x) {
        let i = members.index_of(x);
        assert(members[i] == x);
        lemma_remove_keeps_distinct(members, i);
    }
}

/// The elements of the user interface, the groups they are sorted in, and
/// the input events not handled yet.
pub struct UiManager {
    elements: Vec<Element>,
    events: Vec<Event>,
    groups: Vec<Group>,
}

impl Default for UiManager {
    /// No element, no group, no event.
    fn default() -> (r: UiManager)
        ensures
            r.wf(),
            r.elems().len() == 0,
            r.groups().len() == 0,
            r.events().len() == 0,
    {
        let r = UiManager { elements: Vec::new(), events: Vec::new(), groups: Vec::new() };
        assert(r.ids() =~= Seq::<Seq<char>>::empty());
        assert(r.names() =~= Seq::<Seq<char>>::empty());
        r
    }
}

impl UiManager {
    /// The elements, in insertion order.
    pub closed spec fn elems(&self) -> Seq<Element> {
        self.elements@
    }

    /// The input events not handled yet, oldest first.
    pub closed spec fn events(&self) -> Seq<Event> {
        self.events@
    }

    /// The groups, in creation order.
    pub closed spec fn group_list(&self) -> Seq<Group> {
        self.groups@
    }

    /// The identifiers of the elements.
    pub open spec fn ids(&self) -> Seq<Seq<char>> {
        self.elems().map_values(|e: Element| e.spec_id())
    }

    /// Each group as its name and its members.
    pub open spec fn groups(&self) -> Seq<(Seq<char>, Seq<Seq<char>>)> {
        self.group_list().map_values(|g: Group| group_view(g))
    }

    /// The names of the groups.
    pub open spec fn names(&self) -> Seq<Seq<char>> {
        self.groups().map_values(|p: (Seq<char>, Seq<Seq<char>>)| p.0)
    }

    /// Identifiers and group names are unique, no group lists an element
    /// twice, and each element is in exactly one group.
    pub open spec fn wf(&self) -> bool {
        &&& self.ids().no_duplicates()
        &&& self.names().no_duplicates()
        &&& forall|i: int| 0 <= i < self.groups().len() ==> (#[trigger] self.groups()[i]).1.no_duplicates()
        &&& one_group_each(self.ids(), self.groups())
    }

    fn element_position(&self, id: &String) -> (r: Option<usize>)
        ensures
            r is None <==> !self.ids().contains(id@),
            r matches Some(i) ==> i < self.ids().len() && self.ids()[i as int] == id@,
    {
        let mut i: usize = 0;
        while i < self.elements.len()
            invariant
                i <= self.elements@.len(),
                forall|j: int| 0 <= j < i ==> self.ids()[j] != id@,
            decreases self.elements@.len() - i,
        {
            let candidate = self.elements[i].get_id();
            if candidate == *id {
                assert(self.ids()[i as int] == id@);
                return Some(i);
            }
            i = i + 1;
        }
        None
    }

    fn group_position(&self, id: &String) -> (r: Option<usize>)
        ensures
            r is None <==> !self.names().contains(id@),
            r matches Some(i) ==> i < self.names().len() && self.names()[i as int] == id@,
    {
        let mut i: usize = 0;
        while i < self.groups.len()
            invariant
                i <= self.groups@.len(),
                forall|j: int| 0 <= j < i ==> self.names()[j] != id@,
            decreases self.groups@.len() - i,
        {
            if *self.groups[i].id() == *id {
                assert(self.names()[i as int] == id@);
                return Some(i);
            }
            i = i + 1;
        }
        None
    }

    /// Creates the empty group `id`; fails, changing nothing, if a group has
    /// that name already.
    pub fn create_group(&mut self, id: String) -> (r: Result<(), ()>)
        requires
            old(self).wf(),
        ensures
            final(self).wf(),
            final(self).elems() == old(self).elems(),
            final(self).events() == old(self).events(),
            r is Err <==> old(self).names().contains(id@),
            r is Ok ==> final(self).groups() == old(self).groups().push((id@, Seq::<Seq<char>>::empty())),
            r is Err ==> final(self).groups() == old(self).groups(),
    {
        if self.group_position(&id).is_some() {
            return Err(());
        }
        let ghost name = id@;
        let g = Group::new(id);
        self.groups.push(g);
        proof {
            let old_groups = old(self).groups();
            assert(self.groups() =~= old_groups.push((name, Seq::<Seq<char>>::empty())));
            assert(self.names() =~= old(self).names().push(name));
            assert(self.ids() == old(self).ids());
            let groups = self.groups();
            assert forall|i: int, m: Seq<char>|
                0 <= i < groups.len() && #[trigger] groups[i].1.contains(m) implies self.ids().contains(m) by {
                assert(i < old_groups.len());
                assert(old_groups[i].1.contains(m));
            }
            assert forall|m: Seq<char>| #[trigger] self.ids().contains(m) implies exists|i: int|
                0 <= i < groups.len() && #[trigger] groups[i].1.contains(m) by {
                let i = choose|i: int| 0 <= i < old_groups.len() && #[trigger] old_groups[i].1.contains(m);
                assert(groups[i] == old_groups[i]);
            }
            assert forall|i: int, j: int, m: Seq<char>|
                0 <= i < groups.len() && 0 <= j < groups.len() && i != j && #[trigger] groups[i].1.contains(m)
                implies !#[trigger] groups[j].1.contains(m) by {
                if i < old_groups.len() && j < old_groups.len() {
                    assert(old_groups[i].1.contains(m));
                }
            }
        }
        Ok(())
    }

    /// Adds `elem` to the group `group_id`, creating the group if there is
    /// none of that name, and gives back the identifier of the element.
    pub fn add_element(&mut self, elem: Element, group_id: String) -> (r: String)
        requires
            old(self).wf(),
            !old(self).ids().contains(elem.spec_id()),
        ensures
            final(self).wf(),
            r@ == elem.spec_id(),
            final(self).elems() == old(self).elems().push(elem),
            final(self).events() == old(self).events(),
            old(self).names().contains(group_id@) ==> {
                let k = old(self).names().index_of(group_id@);
                final(self).groups() == old(self).groups().update(
                    k,
                    (group_id@, old(self).groups()[k].1.push(elem.spec_id())),
                )
            },
            !old(self).names().contains(group_id@) ==> final(self).groups() == old(self).groups().push(
                (group_id@, seq![elem.spec_id()]),
            ),
    {
        let elem_id = elem.get_id();
        let ghost id = elem_id@;
        self.elements.push(elem);
        proof {
            assert(self.ids() =~= old(self).ids().push(id));
        }
        match self.group_position(&group_id) {
            Some(index) => {
                proof {
                    let k = old(self).names().index_of(group_id@);
                    assert(old(self).names()[k] == group_id@);
                    assert(k == index);
                    if old(self).groups()[index as int].1.contains(id) {
                        assert(old(self).ids().contains(id));
                    }
                }
                let pushed = self.groups[index].push(elem_id.clone());
                proof {
                    assert(pushed is Ok);
                    assert forall|i: int| 0 <= i < self.groups().len() implies (
                    #[trigger] self.groups()[i]).1.no_duplicates() by {
                        if i == index {
                            assert(self.group_list()[i].wf());
                        } else {
                            assert(self.groups()[i] == old(self).groups()[i]);
                        }
                    }
                }
            },
            None => {
                let mut g = Group::new(group_id);
                let pushed = g.push(elem_id.clone());
                proof {
                    assert(g.members() =~= seq![id]);
                }
                self.groups.push(g);
                proof {
                    assert forall|i: int| 0 <= i < self.groups().len() implies (
                    #[trigger] self.groups()[i]).1.no_duplicates() by {
                        if i < old(self).groups().len() {
                            assert(self.groups()[i] == old(self).groups()[i]);
                        }
                    }
                }
            },
        }
        proof {
            let old_groups = old(self).groups();
            let groups = self.groups();
            let ids = self.ids();
            if old(self).names().contains(group_id@) {
                assert(self.names() =~= old(self).names());
            } else {
                assert(self.names() =~= old(self).names().push(group_id@));
            }
            assert forall|i: int, m: Seq<char>|
                0 <= i < groups.len() && #[trigger] groups[i].1.contains(m) implies ids.contains(m) by {
                if m == id {
                    assert(ids[old(self).ids().len() as int] == id);
                } else {
                    let w = choose|w: int| 0 <= w < groups[i].1.len() && groups[i].1[w] == m;
                    if i < old_groups.len() {
                        assert(old_groups[i].1[w] == m);
                        assert(old_groups[i].1.contains(m));
                    }
                    assert(old(self).ids().contains(m));
                    let j = choose|j: int| 0 <= j < old(self).ids().len() && old(self).ids()[j] == m;
                    assert(ids[j] == m);
                }
            }
            assert forall|m: Seq<char>| #[trigger] ids.contains(m) implies exists|i: int|
                0 <= i < groups.len() && #[trigger] groups[i].1.contains(m) by {
                if m == id {
                    if old(self).names().contains(group_id@) {
                        let k = old(self).names().index_of(group_id@);
                        assert(groups[k].1[groups[k].1.len() - 1] == id);
                        assert(groups[k].1.contains(id));
                    } else {
                        assert(groups[old_groups.len() as int].1[0] == id);
                        assert(groups[old_groups.len() as int].1.contains(id));
                    }
                } else {
                    let j = choose|j: int| 0 <= j < ids.len() && ids[j] == m;
                    assert(old(self).ids()[j] == m);
                    assert(old(self).ids().contains(m));
                    let i = choose|i: int| 0 <= i < old_groups.len() && #[trigger] old_groups[i].1.contains(m);
                    let w = choose|w: int| 0 <= w < old_groups[i].1.len() && old_groups[i].1[w] == m;
                    assert(groups[i].1[w] == m);
                    assert(groups[i].1.contains(m));
                }
            }
            assert forall|i: int, j: int, m: Seq<char>|
                0 <= i < groups.len() && 0 <= j < groups.len() && i != j && #[trigger] groups[i].1.contains(m)
                implies !#[trigger] groups[j].1.contains(m) by {
                if groups[j].1.contains(m) {
                    if m == id {
                        if i < old_groups.len() && old_groups[i].1.contains(m) {
                            assert(old(self).ids().contains(m));
                        }
                        if j < old_groups.len() && old_groups[j].1.contains(m) {
                            assert(old(self).ids().contains(m));
                        }
                    } else {
                        let wi = choose|w: int| 0 <= w < groups[i].1.len() && groups[i].1[w] == m;
                        let wj = choose|w: int| 0 <= w < groups[j].1.len() && groups[j].1[w] == m;
                        assert(old_groups[i].1.contains(m));
                        assert(old_groups[j].1.contains(m));
                    }
                }
            }
        }
        elem_id
    }

    /// Removes the element `id`, from the elements and from its group; fails,
    /// changing nothing, if there is no such element.
    pub fn remove_element(&mut self, id: String) -> (r: Result<(), ()>)
        requires
            old(self).wf(),
        ensures
            final(self).wf(),
            final(self).events() == old(self).events(),
            r is Err <==> !old(self).ids().contains(id@),
            r is Err ==> final(self).elems() == old(self).elems() && final(self).groups() == old(self).groups(),
            r is Ok ==> final(self).elems() == old(self).elems().remove(old(self).ids().index_of(id@)),
            r is Ok ==> final(self).groups() == old(self).groups().map_values(
                |g: (Seq<char>, Seq<Seq<char>>)| (g.0, drop_member(g.1, id@)),
            ),
    {
        let ghost x = id@;
        let ghost expected = old(self).groups().map_values(
            |g: (Seq<char>, Seq<Seq<char>>)| (g.0, drop_member(g.1, x)),
        );
        let mut i: usize = 0;
        while i < self.groups.len()
            invariant
                i <= self.groups@.len(),
                self.groups@.len() == old(self).groups@.len(),
                self.elements@ == old(self).elements@,
                self.events@ == old(self).events@,
                x == id@,
                old(self).wf(),
                expected == old(self).groups().map_values(
                    |g: (Seq<char>, Seq<Seq<char>>)| (g.0, drop_member(g.1, x)),
                ),
                forall|j: int| 0 <= j < i ==> #[trigger] self.groups()[j] == expected[j],
                forall|j: int| i <= j < self.groups@.len() ==> #[trigger] self.groups()[j] == old(self).groups()[j],
            decreases self.groups@.len() - i,
        {
            let ghost before = self.groups();
            proof {
                assert(self.groups()[i as int] == old(self).groups()[i as int]);
                assert(self.group_list()[i as int].members() == self.groups()[i as int].1);
            }
            let _ = self.groups[i].remove(id.clone());
            proof {
                let ms = before[i as int].1;
                assert(ms == old(self).groups()[i as int].1);
                assert(ms.no_duplicates());
                if ms.contains(x) {
                    let p = choose|p: int| 0 <= p < ms.len() && ms[p] == x
                        && self.groups()[i as int].1 == ms.remove(p);
                    assert(ms[ms.index_of(x)] == x);
                    assert(p == ms.index_of(x));
                }
                assert(self.groups()[i as int] == expected[i as int]);
                assert forall|j: int| 0 <= j < self.groups@.len() && j != i implies #[trigger] self.groups()[j]
                    == before[j] by {}
            }
            i = i + 1;
        }
        proof {
            assert(self.groups() =~= expected);
            assert(self.names() =~= old(self).names());
            assert forall|j: int| 0 <= j < self.groups().len() implies (#[trigger] self.groups()[j]).1.no_duplicates() by {
                lemma_drop_member(old(self).groups()[j].1, x);
            }
        }
        match self.element_position(&id) {
            None => {
                proof {
                    assert forall|j: int| 0 <= j < self.groups().len() implies #[trigger] self.groups()[j]
                        == old(self).groups()[j] by {
                        if old(self).groups()[j].1.contains(x) {
                            assert(old(self).ids().contains(x));
                        }
                    }
                    assert(self.groups() =~= old(self).groups());
                }
                Err(())
            },
            Some(index) => {
                self.elements.remove(index);
                proof {
                    let old_ids = old(self).ids();
                    let k = old_ids.index_of(x);
                    assert(old_ids[k] == x);
                    assert(k == index);
                    assert(self.ids() =~= old_ids.remove(index as int));
                    lemma_remove_keeps_distinct(old_ids, index as int);
                    let ids = self.ids();
                    let groups = self.groups();
                    let old_groups = old(self).groups();
                    assert forall|j: int, m: Seq<char>|
                        0 <= j < groups.len() && #[trigger] groups[j].1.contains(m) implies ids.contains(m) by {
                        lemma_drop_member(old_groups[j].1, x);
                        assert(old_groups[j].1.contains(m));
                    }
                    assert forall|m: Seq<char>| #[trigger] ids.contains(m) implies exists|j: int|
                        0 <= j < groups.len() && #[trigger] groups[j].1.contains(m) by {
                        assert(old_ids.contains(m));
                        let j = choose|j: int| 0 <= j < old_groups.len() && #[trigger] old_groups[j].1.contains(m);
                        lemma_drop_member(old_groups[j].1, x);
                        assert(groups[j].1.contains(m));
                    }
                    assert forall|a: int, b: int, m: Seq<char>|
                        0 <= a < groups.len() && 0 <= b < groups.len() && a != b && #[trigger] groups[a].1.contains(m)
                        implies !#[trigger] groups[b].1.contains(m) by {
                        lemma_drop_member(old_groups[a].1, x);
                        lemma_drop_member(old_groups[b].1, x);
                        assert(old_groups[a].1.contains(m));
                    }
                }
                Ok(())
            },
        }
    }

    /// Removes the group `id` together with its elements; fails, changing
    /// nothing, if there is no such group.
    pub fn remove_group(&mut self, id: String) -> (r: Result<(), ()>)
        requires
            old(self).wf(),
        ensures
            final(self).wf(),
            final(self).events() == old(self).events(),
            r is Err <==> !old(self).names().contains(id@),
            r is Err ==> final(self).elems() == old(self).elems() && final(self).groups() == old(self).groups(),
            r is Ok ==> {
                let k = old(self).names().index_of(id@);
                let members = old(self).groups()[k].1;
                &&& final(self).groups() == old(self).groups().remove(k)
                &&& final(self).elems() == old(self).elems().filter(|e: Element| !members.contains(e.spec_id()))
            },
    {
        let index = match self.group_position(&id) {
            Some(index) => index,
            None => {
                return Err(());
            },
        };
        let ghost k = old(self).names().index_of(id@);
        proof {
            assert(old(self).names()[k] == id@);
            assert(k == index);
        }
        let group = self.groups.remove(index);
        let ghost members = old(self).groups()[k].1;
        let ghost keep = |e: Element| !members.contains(e.spec_id());
        let ghost start = old(self).elems();
        proof {
            assert(group.members() == members);
            assert(self.groups() =~= old(self).groups().remove(k));
            assert(start.take(0).filter(keep) =~= Seq::<Element>::empty()) by {
                reveal(Seq::filter);
            }
            assert(self.elements@ =~= start.take(0).filter(keep) + start.skip(0));
        }
        let mut i: usize = 0;
        let ghost mut j: int = 0;
        while i < self.elements.len()
            invariant
                0 <= j <= start.len(),
                i == start.take(j).filter(keep).len(),
                self.elements@ == start.take(j).filter(keep) + start.skip(j),
                self.ids().no_duplicates(),
                keep == (|e: Element| !members.contains(e.spec_id())),
                group.members() == members,
                0 <= k < old(self).groups().len(),
                members == old(self).groups()[k].1,
                start == old(self).elems(),
                old(self).wf(),
                self.groups() == old(self).groups().remove(k),
                self.events@ == old(self).events@,
            decreases self.elements@.len() - i,
        {
            let ghost e = start[j];
            proof {
                assert(start.skip(j)[0] == e);
                assert(self.elements@[i as int] == e);
                assert(start.take(j + 1).drop_last() =~= start.take(j));
                assert(start.take(j + 1).last() == e);
            }
            let element_id = self.elements[i].get_id();
            if group.position(&element_id).is_some() {
                let ghost ids = self.ids();
                self.elements.remove(i);
                proof {
                    assert(!keep(e));
                    assert(start.take(j + 1).filter(keep) == start.take(j).filter(keep)) by {
                        reveal(Seq::filter);
                    }
                    assert(start.skip(j + 1) =~= start.skip(j).drop_first());
                    assert(self.elements@ =~= start.take(j + 1).filter(keep) + start.skip(j + 1));
                    assert(self.ids() =~= ids.remove(i as int));
                    lemma_remove_keeps_distinct(ids, i as int);
                    j = j + 1;
                }
            } else {
                proof {
                    assert(keep(e));
                    assert(start.take(j + 1).filter(keep) == start.take(j).filter(keep).push(e)) by {
                        reveal(Seq::filter);
                    }
                    assert(start.skip(j + 1) =~= start.skip(j).drop_first());
                    assert(self.elements@ =~= start.take(j + 1).filter(keep) + start.skip(j + 1));
                    j = j + 1;
                }
                i = i + 1;
            }
        }
        proof {
            assert(start.skip(j).len() == 0);
            assert(j == start.len());
            assert(start.take(j) =~= start);
            assert(self.elements@ =~= start.filter(keep));
            let old_groups = old(self).groups();
            let groups = self.groups();
            let ids = self.ids();
            let old_ids = old(self).ids();
            lemma_remove_keeps_distinct(old(self).names(), k);
            assert(self.names() =~= old(self).names().remove(k));
            assert forall|a: int| 0 <= a < groups.len() implies (#[trigger] groups[a]).1.no_duplicates() by {
                let oa = if a < k { a } else { a + 1 };
                assert(groups[a] == old_groups[oa]);
            }
            assert forall|a: int, m: Seq<char>|
                0 <= a < groups.len() && #[trigger] groups[a].1.contains(m) implies ids.contains(m) by {
                let oa = if a < k { a } else { a + 1 };
                assert(groups[a] == old_groups[oa]);
                assert(old_ids.contains(m));
                assert(!members.contains(m));
                let p = choose|p: int| 0 <= p < old_ids.len() && old_ids[p] == m;
                assert(start[p].spec_id() == m);
                start.lemma_filter_contains(keep, p);
                let q = choose|q: int| 0 <= q < self.elements@.len() && self.elements@[q] == start[p];
                assert(ids[q] == m);
            }
            assert forall|m: Seq<char>| #[trigger] ids.contains(m) implies exists|a: int|
                0 <= a < groups.len() && #[trigger] groups[a].1.contains(m) by {
                let q = choose|q: int| 0 <= q < ids.len() && ids[q] == m;
                let e = self.elements@[q];
                assert(self.elements@.contains(e));
                start.lemma_filter_contains_rev(keep, e);
                start.lemma_filter_pred(keep, q);
                let p = choose|p: int| 0 <= p < start.len() && start[p] == e;
                assert(old_ids[p] == m);
                assert(old_ids.contains(m));
                let oa = choose|oa: int| 0 <= oa < old_groups.len() && #[trigger] old_groups[oa].1.contains(m);
                assert(oa != k);
                let a = if oa < k { oa } else { oa - 1 };
                assert(groups[a] == old_groups[oa]);
            }
            assert forall|a: int, b: int, m: Seq<char>|
                0 <= a < groups.len() && 0 <= b < groups.len() && a != b && #[trigger] groups[a].1.contains(m)
                implies !#[trigger] groups[b].1.contains(m) by {
                let oa = if a < k { a } else { a + 1 };
                let ob = if b < k { b } else { b + 1 };
                assert(groups[a] == old_groups[oa]);
                assert(groups[b] == old_groups[ob]);
            }
        }
        Ok(())
    }

    /// Queues a typed character.
    pub fn register_text_input(&mut self, character: char)
        ensures
            final(self).events() == old(self).events().push(Event::TextInput { character }),
            final(self).elems() == old(self).elems(),
            final(self).group_list() == old(self).group_list(),
    {
        self.events.push(Event::TextInput { character });
    }

    /// The input events not handled yet, oldest first.
    pub fn pending_events(&self) -> (r: &Vec<Event>)
        ensures
            r@ == self.events(),
    {
        &self.events
    }

    /// The group named `id`, if there is one.
    pub fn get_group(&self, id: String) -> (r: Option<&Group>)
        requires
            self.wf(),
        ensures
            self.names().contains(id@) ==> r == Some(&self.group_list()[self.names().index_of(id@)]),
            !self.names().contains(id@) ==> r is None,
    {
        match self.group_position(&id) {
            Some(index) => {
                proof {
                    let k = self.names().index_of(id@);
                    assert(self.names()[k] == id@);
                }
                Some(&self.groups[index])
            },
            None => None,
        }
    }

    /// Begins a frame: every element starts it, then takes the pending
    /// events, oldest first, which are then forgotten.
    pub fn update(&mut self)
        requires
            old(self).wf(),
            forall|j: int, k: int|
                #![trigger old(self).elems()[j], old(self).events()[k]]
                0 <= j < old(self).elems().len() && 0 <= k < old(self).events().len() ==> accepts_input(
                    old(self).elems()[j],
                    old(self).events()[k]->character,
                ),
        ensures
            final(self).wf(),
            final(self).group_list() == old(self).group_list(),
            final(self).events() == Seq::<Event>::empty(),
            final(self).elems().len() == old(self).elems().len(),
            forall|j: int|
                0 <= j < old(self).elems().len() ==> updated_element(
                    old(self).elems()[j],
                    #[trigger] final(self).elems()[j],
                    event_chars(old(self).events()),
                ),
    {
        let ghost cs = event_chars(self.events@);
        let mut i: usize = 0;
        while i < self.elements.len()
            invariant
                i <= self.elements@.len(),
                self.elements@.len() == old(self).elements@.len(),
                self.events@ == old(self).events@,
                self.groups@ == old(self).groups@,
                forall|j: int|
                    0 <= j < i ==> updated_element(old(self).elements@[j], #[trigger] self.elements@[j], cs.take(0)),
                forall|j: int| i <= j < self.elements@.len() ==> #[trigger] self.elements@[j] == old(self).elements@[j],
            decreases self.elements@.len() - i,
        {
            let ghost before = self.elements@[i as int];
            self.elements[i].on_new_frame();
            proof {
                before.lemma_with_state(self.elements@[i as int].spec_state());
            }
            i = i + 1;
        }
        let mut k: usize = 0;
        while k < self.events.len()
            invariant
                k <= self.events@.len(),
                self.elements@.len() == old(self).elements@.len(),
                self.events@ == old(self).events@,
                self.groups@ == old(self).groups@,
                cs == event_chars(old(self).events@),
                forall|j: int|
                    0 <= j < self.elements@.len() ==> updated_element(
                        old(self).elements@[j],
                        #[trigger] self.elements@[j],
                        cs.take(k as int),
                    ),
                forall|j: int, m: int|
                    #![trigger old(self).elems()[j], old(self).events()[m]]
                    0 <= j < old(self).elems().len() && 0 <= m < old(self).events().len() ==> accepts_input(
                        old(self).elems()[j],
                        old(self).events()[m]->character,
                    ),
            decreases self.events@.len() - k,
        {
            let c = match self.events[k] {
                Event::TextInput { character } => character,
            };
            let mut i: usize = 0;
            while i < self.elements.len()
                invariant
                    k < self.events@.len(),
                    i <= self.elements@.len(),
                    self.elements@.len() == old(self).elements@.len(),
                    self.events@ == old(self).events@,
                    self.groups@ == old(self).groups@,
                    cs == event_chars(old(self).events@),
                    c == cs[k as int],
                    forall|j: int|
                        0 <= j < i ==> updated_element(
                            old(self).elements@[j],
                            #[trigger] self.elements@[j],
                            cs.take(k + 1),
                        ),
                    forall|j: int|
                        i <= j < self.elements@.len() ==> updated_element(
                            old(self).elements@[j],
                            #[trigger] self.elements@[j],
                            cs.take(k as int),
                        ),
                    forall|j: int, m: int|
                        #![trigger old(self).elems()[j], old(self).events()[m]]
                        0 <= j < old(self).elems().len() && 0 <= m < old(self).events().len() ==> accepts_input(
                            old(self).elems()[j],
                            old(self).events()[m]->character,
                        ),
                decreases self.elements@.len() - i,
            {
                let ghost before = self.elements@[i as int];
                let ghost orig = old(self).elements@[i as int];
                proof {
                    assert(old(self).elems()[i as int] == orig);
                    assert(old(self).events()[k as int] == old(self).events@[k as int]);
                    assert(accepts_input(orig, old(self).events@[k as int]->character));
                    assert(cs[k as int] == old(self).events@[k as int]->character);
                    orig.lemma_with_state(before.spec_state());
                    assert(accepts_input(before, c));
                }
                self.elements[i].on_text_input(c);
                proof {
                    let after = self.elements@[i as int];
                    assert(cs.take(k + 1).drop_last() =~= cs.take(k as int));
                    assert(cs.take(k + 1).last() == c);
                    orig.lemma_with_state(before.spec_state());
                    if !(orig is TextEdit) {
                        assert(after == before);
                    }
                }
                i = i + 1;
            }
            k = k + 1;
        }
        self.events.clear();
        proof {
            assert(cs.take(k as int) =~= cs);
            assert(self.ids() =~= old(self).ids()) by {
                assert forall|j: int| 0 <= j < self.ids().len() implies self.ids()[j] == old(self).ids()[j] by {
                    assert(updated_element(old(self).elements@[j], self.elements@[j], cs.take(k as int)));
                }
            }
            assert(self.groups() =~= old(self).groups());
            assert(self.names() =~= old(self).names());
        }
    }

    /// A way to change the element `id` in place, if there is one.
    pub fn try_get_element(&mut self, id: String) -> (r: Option<&mut Element>)
        requires
            old(self).wf(),
        ensures
            old(self).ids().contains(id@) ==> (r matches Some(e) && *e == old(self).elems()[old(
                self,
            ).ids().index_of(id@)] && final(self).elems() == old(self).elems().update(
                old(self).ids().index_of(id@),
                *final(e),
            ) && final(self).group_list() == old(self).group_list() && final(self).events() == old(
                self,
            ).events()),
            !old(self).ids().contains(id@) ==> r is None && *final(self) == *old(self),
    {
        match self.element_position(&id) {
            Some(index) => {
                proof {
                    let k = self.ids().index_of(id@);
                    assert(self.ids()[k] == id@);
                }
                Some(&mut self.elements[index])
            },
            None => None,
        }
    }

    /// A way to change the element `id` in place.
    pub fn get_element(&mut self, id: String) -> (r: &mut Element)
        requires
            old(self).wf(),
            old(self).ids().contains(id@),
        ensures
            *r == old(self).elems()[old(self).ids().index_of(id@)],
            final(self).elems() == old(self).elems().update(old(self).ids().index_of(id@), *final(r)),
            final(self).group_list() == old(self).group_list(),
            final(self).events() == old(self).events(),
    {
        let index = self.element_position(&id).unwrap();
        proof {
            let k = self.ids().index_of(id@);
            assert(self.ids()[k] == id@);
        }
        &mut self.elements[index]
    }
}

/// The characters the events `evs` carry, in order.
pub open spec fn event_chars(evs: Seq<Event>) -> Seq<char> {
    evs.map_values(|e: Event| e->character)
}

/// `after` is the element `before` once a frame began and the characters
/// `cs` were typed: a focused text edit takes them as `typed` says; the
/// state of every element starts the frame unchanged.
pub open spec fn updated_element(before: Element, after: Element, cs: Seq<char>) -> bool {
    &&& after.spec_id() == before.spec_id()
    &&& after.spec_state()@ == (new_frame_of(before.spec_state()@.0), new_frame_of(before.spec_state()@.1), new_frame_of(
        before.spec_state()@.2,
    ))
    &&& if before is TextEdit {
        &&& after is TextEdit
        &&& after.spec_rows() == before.spec_rows()
        &&& after.spec_text() == if focused(before) {
            typed_all(before.spec_text(), before.spec_rows(), cs)
        } else {
            before.spec_text()
        }
    } else {
        after == before.with_state(after.spec_state())
    }
}

/// Removing the element just added gives back the elements there were:
/// its identifier is found at the end, where it was pushed.
pub proof fn lemma_add_then_remove_element(elems: Seq<Element>, e: Element)
    requires
        elems.map_values(|x: Element| x.spec_id()).no_duplicates(),
        !elems.map_values(|x: Element| x.spec_id()).contains(e.spec_id()),
    ensures
        elems.push(e).remove(
            elems.push(e).map_values(|x: Element| x.spec_id()).index_of(e.spec_id()),
        ) == elems,
{
    let ids = elems.push(e).map_values(|x: Element| x.spec_id());
    let n = elems.len() as int;
    assert(ids[n] == e.spec_id());
    let k = ids.index_of(e.spec_id());
    assert(ids[k] == e.spec_id());
    if k < n {
        assert(elems.map_values(|x: Element| x.spec_id())[k] == e.spec_id());
    }
    assert(k == n);
    assert(elems.push(e).remove(k) =~= elems);
}

} // verus!
