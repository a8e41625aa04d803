//! Interning of names as small dense identifiers.
use vstd::prelude::*;

use crate::value::Ident;

verus! {

/// A bijection between the names seen so far and `0..len`, in order of first sight.
#[derive(Debug)]
pub struct IdentTable {
    ident_to_name: Vec<String>,
}

impl View for IdentTable {
    type V = Seq<Seq<char>>;

    closed spec fn view(&self) -> Seq<Seq<char>> {
        self.ident_to_name@.map_values(|s: String| s@)
    }
}

/// No name occurs twice.
pub open spec fn distinct(names: Seq<Seq<char>>) -> bool {
    forall|i: int, j: int| 0 <= i < j < names.len() ==> names[i] != names[j]
}

/// The position of `name` in `names`, if it occurs.
pub open spec fn position(names: Seq<Seq<char>>, name: Seq<char>) -> Option<int> {
    if exists|i: int| 0 <= i < names.len() && names[i] == name {
        Some(choose|i: int| 0 <= i < names.len() && names[i] == name)
    } else {
        None
    }
}

/// The table after interning `name`, and the identifier it gets.
pub open spec fn interned(names: Seq<Seq<char>>, name: Seq<char>) -> (Seq<Seq<char>>, int) {
    match position(names, name) {
        Some(i) => (names, i),
        None => (names.push(name), names.len() as int),
    }
}

pub proof fn lemma_position_index(names: Seq<Seq<char>>, name: Seq<char>)
    requires
        distinct(names),
    ensures
        position(names, name) matches Some(i) ==> 0 <= i < names.len() && names[i] == name,
        position(names, name) is None ==> forall|k: int| 0 <= k < names.len() ==> names[k] != name,
{
}

/// A name's identifier stays its own when the table only grows.
pub proof fn lemma_position_kept(a: Seq<Seq<char>>, b: Seq<Seq<char>>, name: Seq<char>)
    requires
        distinct(b),
        a.len() <= b.len(),
        b.subrange(0, a.len() as int) == a,
    ensures
        position(a, name) matches Some(i) ==> position(b, name) == Some(i),
{
    if let Some(i) = position(a, name) {
        assert(a[i] == name);
        assert(b[i] == b.subrange(0, a.len() as int)[i]);
        lemma_position_index(b, name);
    }
}

proof fn lemma_interned_keeps(names: Seq<Seq<char>>, name: Seq<char>)
    requires
        distinct(names),
    ensures
        distinct(interned(names, name).0),
        0 <= interned(names, name).1 < interned(names, name).0.len(),
        interned(names, name).0[interned(names, name).1] == name,
        interned(names, name).0.len() >= names.len(),
        forall|k: int| 0 <= k < names.len() ==> interned(names, name).0[k] == names[k],
{
    lemma_position_index(names, name);
}

/// Interning is stable and injective: interning `a` then `b` gives them the
/// same identifier exactly when they are the same name, and an identifier
/// once issued keeps standing for its name.
pub proof fn lemma_intern_stable(names: Seq<Seq<char>>, a: Seq<char>, b: Seq<char>)
    requires
        distinct(names),
    ensures
        ({
            let (t1, i) = interned(names, a);
            let (t2, j) = interned(t1, b);
            &&& distinct(t2)
            &&& (i == j <==> a == b)
            &&& t2[i] == a
            &&& interned(t2, a) == (t2, i)
        }),
{
    let (t1, i) = interned(names, a);
    lemma_interned_keeps(names, a);
    lemma_interned_keeps(t1, b);
    let (t2, j) = interned(t1, b);
    lemma_position_index(t2, a);
    if let Some(k) = position(t2, a) {
        assert(k == i);
    }
}

/// The table grew only by appending names.
pub open spec fn extends(before: IdentTable, after: IdentTable) -> bool {
    &&& after.wf()
    &&& before@.len() <= after@.len()
    &&& after@.subrange(0, before@.len() as int) == before@
}

pub broadcast proof fn lemma_extends_trans(a: IdentTable, b: IdentTable, c: IdentTable)
    requires
        extends(a, b),
        extends(b, c),
    ensures
        #![trigger extends(a, b), extends(b, c)]
        extends(a, c),
{
    assert(c@.subrange(0, a@.len() as int) =~= c@.subrange(0, b@.len() as int).subrange(
        0,
        a@.len() as int,
    ));
}

impl IdentTable {
    pub open spec fn wf(&self) -> bool {
        distinct(self@)
    }

    pub fn new() -> (r: Self)
        ensures
            r.wf(),
            r@ == Seq::<Seq<char>>::empty(),
    {
        let r = IdentTable { ident_to_name: Vec::new() };
        proof {
            assert(r@ =~= Seq::<Seq<char>>::empty());
        }
        r
    }

    /// Looks `name` up without changing the table.
    fn find(&self, name: &String) -> (r: Option<usize>)
        requires
            self.wf(),
        ensures
            r matches Some(i) ==> position(self@, name@) == Some(i as int),
            r is None ==> position(self@, name@) is None,
    {
        let mut i: usize = 0;
        while i < self.ident_to_name.len()
            invariant
                self.wf(),
                i <= self@.len(),
                forall|k: int| 0 <= k < i ==> self@[k] != name@,
            decreases self@.len() - i,
        {
            if self.ident_to_name[i] == *name {
                proof {
                    assert(self@[i as int] == name@);
                    let c = choose|k: int| 0 <= k < self@.len() && self@[k] == name@;
                    assert(c == i) by {
                        if c != i {
                            if c < i {
                                assert(self@[c] != name@);
                            } else {
                                assert(self@[i as int] != self@[c]);
                            }
                        }
                    }
                }
                return Some(i);
            }
            i = i + 1;
        }
        None
    }

    /// The identifier of `name`, issuing the next one when it is new.
    pub fn ident(&mut self, name: &str) -> (r: Ident)
        requires
            old(self).wf(),
            old(self)@.len() < usize::MAX,
        ensures
            final(self).wf(),
            (final(self)@, r.0 as int) == interned(old(self)@, name@),
    {
        let owned = name.to_owned();
        self.ident_of(owned)
    }

    /// As `ident`, for a name already held as a `String`.
    pub fn ident_of(&mut self, name: String) -> (r: Ident)
        requires
            old(self).wf(),
            old(self)@.len() < usize::MAX,
        ensures
            final(self).wf(),
            (final(self)@, r.0 as int) == interned(old(self)@, name@),
    {
        match self.find(&name) {
            Some(i) => Ident(i),
            None => self.new_ident(name),
        }
    }

    fn new_ident(&mut self, name: String) -> (r: Ident)
        requires
            old(self).wf(),
            old(self)@.len() < usize::MAX,
            position(old(self)@, name@) is None,
        ensures
            final(self).wf(),
            r.0 == old(self)@.len(),
            final(self)@ == old(self)@.push(name@),
    {
        let ident = Ident(self.ident_to_name.len());
        let ghost before = self@;
        self.ident_to_name.push(name);
        proof {
            assert(self@ =~= before.push(name@));
            assert forall|k: int| 0 <= k < before.len() implies before[k] != name@ by {
                if before[k] == name@ {
                    assert(exists|i: int| 0 <= i < before.len() && before[i] == name@);
                }
            }
        }
        ident
    }

    /// The identifier of `name`, if it has one; the table is unchanged.
    pub fn try_ident(&self, name: &str) -> (r: Option<Ident>)
        requires
            self.wf(),
        ensures
            r matches Some(id) ==> position(self@, name@) == Some(id.0 as int),
            r is None ==> position(self@, name@) is None,
    {
        let owned = name.to_owned();
        match self.find(&owned) {
            Some(i) => Some(Ident(i)),
            None => None,
        }
    }

    /// The name that `ident` stands for.
    pub fn name(&self, ident: Ident) -> (r: &str)
        requires
            ident.0 < self@.len(),
        ensures
            r@ == self@[ident.0 as int],
    {
        self.ident_to_name[ident.0].as_str()
    }

    pub fn len(&self) -> (r: usize)
        ensures
            r == self@.len(),
    {
        self.ident_to_name.len()
    }
}

} // verus!
