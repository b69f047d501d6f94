use vstd::prelude::*;

verus! {

/// The identifiers of `ids` as text.
pub open spec fn texts(ids: Seq<String>) -> Seq<Seq<char>> {
    ids.map_values(|s: String| s@)
}

/// A named set of user-interface elements, kept in insertion order, each
/// element at most once.
pub struct Group {
    id: String,
    elems: Vec<String>,
}

impl Group {
    /// The name of the group.
    pub closed spec fn name(&self) -> Seq<char> {
        self.id@
    }

    /// The identifiers of the elements, in insertion order.
    pub closed spec fn members(&self) -> Seq<Seq<char>> {
        texts(self.elems@)
    }

    /// No element is listed twice.
    pub open spec fn wf(&self) -> bool {
        self.members().no_duplicates()
    }

    /// An empty group named `id`.
    pub fn new(id: String) -> (r: Group)
        ensures
            r.name() == id@,
            r.members() == Seq::<Seq<char>>::empty(),
            r.wf(),
    {
        let r = Group { id, elems: Vec::new() };
        assert(r.members() =~= Seq::<Seq<char>>::empty());
        r
    }

    /// The name of the group.
    pub fn id(&self) -> (r: &String)
        ensures
            r@ == self.name(),
    {
        &self.id
    }

    /// The identifiers of the elements, in insertion order.
    pub fn elems(&self) -> (r: &Vec<String>)
        ensures
            texts(r@) == self.members(),
    {
        &self.elems
    }

    /// Where `id` is listed, if it is.
    pub(crate) fn position(&self, id: &String) -> (r: Option<usize>)
        ensures
            r is None <==> !self.members().contains(id@),
            r matches Some(i) ==> i < self.members().len() && self.members()[i as int] == id@,
    {
        let mut i: usize = 0;
        while i < self.elems.len()
            invariant
                i <= self.elems@.len(),
                forall|j: int| 0 <= j < i ==> self.members()[j] != id@,
            decreases self.elems@.len() - i,
        {
            if self.elems[i] == *id {
                assert(self.members()[i as int] == id@);
                return Some(i);
            }
            i = i + 1;
        }
        proof {
            assert forall|j: int| 0 <= j < self.members().len() implies self.members()[j] != id@ by {}
        }
        None
    }

    /// Adds the element `id` at the end; fails, changing nothing, if it is
    /// listed already.
    pub fn push(&mut self, id: String) -> (r: Result<(), ()>)
        requires
            old(self).wf(),
        ensures
            final(self).wf(),
            final(self).name() == old(self).name(),
            r is Err <==> old(self).members().contains(id@),
            r is Ok ==> final(self).members() == old(self).members().push(id@),
            r is Err ==> final(self).members() == old(self).members(),
    {
        if self.position(&id).is_some() {
            return Err(());
        }
        let ghost added = id@;
        self.elems.push(id);
        proof {
            assert(self.members() =~= old(self).members().push(added));
            assert forall|i: int, j: int|
                0 <= i < j < self.members().len() implies self.members()[i] != self.members()[j] by {
                if j == old(self).members().len() {
                    assert(old(self).members()[i] != added);
                }
            }
        }
        Ok(())
    }

    /// Takes the element `id` out; fails, changing nothing, if it is not
    /// listed.
    pub fn remove(&mut self, id: String) -> (r: Result<(), ()>)
        requires
            old(self).wf(),
        ensures
            final(self).wf(),
            final(self).name() == old(self).name(),
            r is Err <==> !old(self).members().contains(id@),
            r is Ok ==> exists|i: int|
                0 <= i < old(self).members().len() && old(self).members()[i] == id@
                    && final(self).members() == old(self).members().remove(i),
            r is Ok ==> !final(self).members().contains(id@),
            r is Err ==> final(self).members() == old(self).members(),
    {
        match self.position(&id) {
            None => Err(()),
            Some(index) => {
                self.elems.remove(index);
                proof {
                    let m = old(self).members();
                    assert(self.members() =~= m.remove(index as int));
                    assert forall|i: int, j: int|
                        0 <= i < j < self.members().len() implies self.members()[i] != self.members()[j] by {
                        let oi = if i < index { i } else { i + 1 };
                        let oj = if j < index { j } else { j + 1 };
                        assert(m[oi] != m[oj]);
                    }
                    assert forall|k: int| 0 <= k < self.members().len() implies self.members()[k] != id@ by {
                        let ok = if k < index { k } else { k + 1 };
                        assert(m[ok] != m[index as int]);
                    }
                }
                Ok(())
            },
        }
    }
}

/// Adding an element that a group does not list, then taking it out, gives
/// back the members the group had.
pub proof fn lemma_push_then_remove(members: Seq<Seq<char>>, id: Seq<char>, i: int)
    requires
        members.no_duplicates(),
        !members.contains(id),
        0 <= i < members.len() + 1,
        members.push(id)[i] == id,
    ensures
        members.push(id).remove(i) == members,
{
    if i < members.len() {
        assert(members[i] == id);
    }
    assert(members.push(id).remove(i) =~= members);
}

} // verus!
