use vstd::prelude::*;

verus! {

/// Identifier of a player or of a game. Never zero.
#[derive(Debug, Clone, Copy, Hash, PartialEq, Eq, PartialOrd, Ord, Structural)]
pub struct Id {
    id: u64,
}

impl Id {
    /// The number of the identifier.
    pub closed spec fn value(&self) -> nat {
        self.id as nat
    }

    /// The identifier numbered `id`, or `None` for zero.
    pub fn new(id: u64) -> (r: Option<Id>)
        ensures
            id == 0 ==> r is None,
            id != 0 ==> (r matches Some(i) && i.value() == id),
    {
        if id == 0 {
            None
        } else {
            Some(Id { id })
        }
    }

    /// The number of the identifier.
    pub fn get(self) -> (r: u64)
        ensures
            r == self.value(),
    {
        self.id
    }

    pub proof fn lemma_value_injective(a: Id, b: Id)
        ensures
            a.value() == b.value() <==> a == b,
    {
    }
}

/// Hands out identifiers, each one greater than all those handed out
/// before it, so that no two are equal.
pub struct IdSource {
    next: u64,
}

impl IdSource {
    /// The number of the next identifier to hand out.
    pub closed spec fn spec_next(&self) -> nat {
        self.next as nat
    }

    /// A source whose first identifier is 1.
    pub fn new() -> (r: IdSource)
        ensures
            r.spec_next() == 1,
    {
        IdSource { next: 1 }
    }

    /// A new identifier, numbered `spec_next()`, the number then moving on
    /// by one; `None`, and nothing changed, once the numbers are used up
    /// (or for a source whose next number is 0, which `new` never gives).
    pub fn fresh(&mut self) -> (r: Option<Id>)
        ensures
            1 <= old(self).spec_next() < u64::MAX ==> (r matches Some(i) && i.value() == old(self).spec_next()
                && final(self).spec_next() == old(self).spec_next() + 1),
            !(1 <= old(self).spec_next() < u64::MAX) ==> r is None && final(self).spec_next() == old(
                self,
            ).spec_next(),
    {
        if self.next == u64::MAX {
            return None;
        }
        match Id::new(self.next) {
            Some(id) => {
                self.next = self.next + 1;
                Some(id)
            },
            None => None,
        }
    }
}

} // verus!
