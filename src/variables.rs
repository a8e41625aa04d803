//! A sparse store from identifiers to values.
use vstd::prelude::*;

use crate::value::{HugValue, Ident};

verus! {

/// Each identifier reads as the value last set for it, or as no value.
#[derive(Debug)]
pub struct Variables {
    inner: Vec<Option<HugValue>>,
}

impl View for Variables {
    type V = Map<usize, HugValue>;

    closed spec fn view(&self) -> Map<usize, HugValue> {
        Map::new(
            |i: usize| (i as int) < self.inner@.len() && self.inner@[i as int] is Some,
            |i: usize| self.inner@[i as int]->0,
        )
    }
}

impl Variables {
    pub fn new() -> (r: Self)
        ensures
            r@ == Map::<usize, HugValue>::empty(),
    {
        let r = Self { inner: Vec::new() };
        proof {
            assert(r@ =~= Map::<usize, HugValue>::empty());
        }
        r
    }

    /// Grows the store so that `size` is a valid index.
    fn ensure_size(&mut self, size: usize)
        requires
            size < usize::MAX,
        ensures
            final(self)@ == old(self)@,
            size < final(self).inner@.len(),
    {
        if self.inner.len() < size + 1 {
            let ghost before = self@;
            while self.inner.len() < size + 1
                invariant
                    self@ == before,
                    size < usize::MAX,
                decreases size + 1 - self.inner@.len(),
            {
                self.inner.push(None);
                proof {
                    assert(self@ =~= before);
                }
            }
        }
    }

    /// Binds `ident` to `value`, replacing what it held.
    pub fn set(&mut self, ident: Ident, value: HugValue)
        requires
            ident.0 < usize::MAX,
        ensures
            final(self)@ == old(self)@.insert(ident.0, value),
    {
        self.ensure_size(ident.0);
        let ghost before = self@;
        self.inner.set(ident.0, Some(value));
        proof {
            assert(self@ =~= before.insert(ident.0, value));
        }
    }

    /// The value bound to `ident`, if any.
    pub fn get(&self, ident: Ident) -> (r: Option<&HugValue>)
        ensures
            r is Some <==> self@.contains_key(ident.0),
            r matches Some(v) ==> *v == self@[ident.0],
    {
        if ident.0 < self.inner.len() {
            match &self.inner[ident.0] {
                Some(v) => Some(v),
                None => None,
            }
        } else {
            None
        }
    }
}

} // verus!
