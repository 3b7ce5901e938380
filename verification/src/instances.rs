//! The registry of open databases.

use vstd::prelude::*;

verus! {

/// The registry of open databases: each logical name with the pool that
/// serves it. A name stands for at most one pool.
pub struct DbInstances<P> {
    entries: Vec<(String, P)>,
}

impl<P> View for DbInstances<P> {
    type V = Map<Seq<char>, P>;

    /// The registry as a map from names to pools.
    closed spec fn view(&self) -> Map<Seq<char>, P> {
        Map::new(
            |name: Seq<char>| self.names().contains(name),
            |name: Seq<char>| self.pools()[self.names().index_of(name)],
        )
    }
}

impl<P> DbInstances<P> {
    /// No name is registered twice.
    #[verifier::type_invariant]
    pub closed spec fn wf(&self) -> bool {
        self.names().no_duplicates()
    }

    /// The registered names, oldest registration first.
    pub closed spec fn names(&self) -> Seq<Seq<char>> {
        Self::names_of(self.entries@)
    }

    spec fn names_of(entries: Seq<(String, P)>) -> Seq<Seq<char>> {
        Seq::new(entries.len(), |i: int| entries[i].0@)
    }

    /// The registered pools, in the order of `names`.
    pub closed spec fn pools(&self) -> Seq<P> {
        Seq::new(self.entries@.len(), |i: int| self.entries@[i].1)
    }

    /// `names` and `pools` list the map: every name once, each beside its
    /// pool.
    pub proof fn lemma_listing(&self)
        requires
            self.wf(),
        ensures
            self.names().no_duplicates(),
            self.names().len() == self.pools().len(),
            self@.dom() == self.names().to_set(),
            self@.dom().finite(),
            self@.dom().len() == self.names().len(),
            forall|i: int|
                0 <= i < self.names().len() ==> #[trigger] self@[self.names()[i]]
                    == self.pools()[i],
    {
        let names = self.names();
        assert(self@.dom() =~= names.to_set());
        names.unique_seq_to_set();
        vstd::seq_lib::seq_to_set_is_finite(names);
        assert forall|i: int| 0 <= i < names.len() implies #[trigger] self@[names[i]]
            == self.pools()[i] by {
            let j = names.index_of(names[i]);
            assert(names.contains(names[i]));
            assert(0 <= j < names.len() && names[j] == names[i]);
        }
    }

    /// An empty registry.
    pub fn new() -> (r: Self)
        ensures
            r@ == Map::<Seq<char>, P>::empty(),
            r.names().len() == 0,
            r.pools().len() == 0,
    {
        let r = DbInstances { entries: Vec::new() };
        assert(r@ =~= Map::<Seq<char>, P>::empty());
        r
    }

    /// The number of registered names.
    pub fn len(&self) -> (n: usize)
        ensures
            n == self@.dom().len(),
            n == self.names().len(),
    {
        proof {
            use_type_invariant(self);
            self.lemma_listing();
        }
        self.entries.len()
    }

    /// Where a name stands in the listing, if it is registered.
    fn position(&self, db: &String) -> (r: Option<usize>)
        ensures
            match r {
                Some(i) => i < self.names().len() && self.names()[i as int] == db@,
                None => !self.names().contains(db@),
            },
    {
        let mut i: usize = 0;
        while i < self.entries.len()
            invariant
                i <= self.entries@.len(),
                forall|k: int| 0 <= k < i ==> self.entries@[k].0@ != db@,
            decreases self.entries@.len() - i,
        {
            if self.entries[i].0 == *db {
                return Some(i);
            }
            i += 1;
        }
        None
    }

    /// Tells whether a name is registered.
    pub fn contains(&self, db: &String) -> (r: bool)
        ensures
            r == self@.contains_key(db@),
    {
        self.position(db).is_some()
    }

    /// The pool registered under a name.
    pub fn get(&self, db: &String) -> (r: Option<&P>)
        ensures
            match r {
                Some(pool) => self@.contains_key(db@) && *pool == self@[db@],
                None => !self@.contains_key(db@),
            },
    {
        proof {
            use_type_invariant(self);
            self.lemma_listing();
        }
        match self.position(db) {
            Some(i) => Some(&self.entries[i].1),
            None => None,
        }
    }

    /// The map of a listing in which the pool at one place is replaced.
    proof fn lemma_replaced(before: Self, after: Self, at: int, pool: P)
        requires
            before.wf(),
            0 <= at < before.names().len(),
            after.names() == before.names(),
            after.pools() == before.pools().update(at, pool),
        ensures
            after@ == before@.insert(before.names()[at], pool),
    {
        before.lemma_listing();
        after.lemma_listing();
        assert forall|name: Seq<char>| after@.contains_key(name) implies after@[name]
            == before@.insert(before.names()[at], pool)[name] by {
            let j = after.names().index_of(name);
            assert(after.names()[j] == name);
        }
        assert(after@ =~= before@.insert(before.names()[at], pool));
    }

    /// The map of a listing to which a new name is added with its pool.
    proof fn lemma_appended(before: Self, after: Self, name: Seq<char>, pool: P)
        requires
            before.wf(),
            !before.names().contains(name),
            after.names() == before.names().push(name),
            after.pools() == before.pools().push(pool),
        ensures
            after.wf(),
            after@ == before@.insert(name, pool),
    {
        before.lemma_listing();
        assert(after.names().no_duplicates());
        after.lemma_listing();
        assert forall|other: Seq<char>| after@.contains_key(other) implies after@[other]
            == before@.insert(name, pool)[other] by {
            let j = after.names().index_of(other);
            assert(after.names()[j] == other);
            if j < before.names().len() {
                assert(before.names()[j] == other);
            }
        }
        assert forall|other: Seq<char>|
            before@.insert(name, pool).contains_key(other) implies after@.contains_key(other) by {
            if other != name {
                let j = before.names().index_of(other);
                assert(after.names()[j] == other);
            } else {
                assert(after.names()[before.names().len() as int] == other);
            }
        }
        assert(after@ =~= before@.insert(name, pool));
    }

    /// Registers a pool under a name. A pool that the name stood for is
    /// superseded and handed back; every other name keeps its pool, and
    /// every name its place in the listing. A new name is listed last.
    pub fn insert(&mut self, db: String, pool: P) -> (prev: Option<P>)
        ensures
            final(self)@ == old(self)@.insert(db@, pool),
            match prev {
                Some(p) => old(self)@.contains_key(db@) && p == old(self)@[db@],
                None => !old(self)@.contains_key(db@),
            },
            final(self).names() == if old(self)@.contains_key(db@) {
                old(self).names()
            } else {
                old(self).names().push(db@)
            },
    {
        proof {
            use_type_invariant(&*self);
            self.lemma_listing();
        }
        let ghost before = *self;
        let found = self.position(&db);
        let mut entries: Vec<(String, P)> = Vec::new();
        core::mem::swap(&mut self.entries, &mut entries);
        match found {
            Some(at) => {
                let (name, prev) = entries.remove(at);
                entries.insert(at, (name, pool));
                assert(entries@ =~= before.entries@.update(at as int, (name, pool)));
                assert(Self::names_of(entries@) =~= before.names());
                self.entries = entries;
                proof {
                    assert(self.pools() =~= before.pools().update(at as int, pool));
                    Self::lemma_replaced(before, *self, at as int, pool);
                }
                Some(prev)
            },
            None => {
                entries.push((db, pool));
                assert(Self::names_of(entries@) =~= before.names().push(db@));
                self.entries = entries;
                proof {
                    assert(self.pools() =~= before.pools().push(pool));
                    Self::lemma_appended(before, *self, db@, pool);
                }
                None
            },
        }
    }

    /// Every registered pool, in the order of the listing.
    pub fn all(&self) -> (r: Vec<&P>)
        ensures
            r@.len() == self.pools().len(),
            r@.len() == self@.dom().len(),
            forall|i: int| 0 <= i < r@.len() ==> *r@[i] == self.pools()[i],
    {
        proof {
            use_type_invariant(self);
            self.lemma_listing();
        }
        let mut r: Vec<&P> = Vec::new();
        let mut i: usize = 0;
        while i < self.entries.len()
            invariant
                i <= self.entries@.len(),
                r@.len() == i,
                forall|k: int| 0 <= k < i ==> *r@[k] == self.entries@[k].1,
            decreases self.entries@.len() - i,
        {
            r.push(&self.entries[i].1);
            i += 1;
        }
        r
    }
}

impl<P> Default for DbInstances<P> {
    fn default() -> (r: Self)
        ensures
            r@ == Map::<Seq<char>, P>::empty(),
    {
        DbInstances::new()
    }
}

} // verus!
