use vstd::prelude::*;

verus! {

/// Why a registration was refused.
#[derive(Debug, PartialEq, Eq, Clone, Copy)]
pub enum RegistryError {
    /// The client id already has a live entry.
    AlreadyRegistered,
}

struct Entry {
    client: String,
    handle: usize,
}

/// The mapping from each connected client's id to the handle of its
/// delivery queue. A client id has at most one entry.
pub struct Registry {
    entries: Vec<Entry>,
}

impl Registry {
    spec fn has_at(&self, k: Seq<char>, i: int) -> bool {
        0 <= i < self.entries@.len() && self.entries@[i].client@ == k
    }

    /// The registry as a map from client id to handle.
    pub closed spec fn view(&self) -> Map<Seq<char>, usize> {
        Map::new(
            |k: Seq<char>| exists|i: int| self.has_at(k, i),
            |k: Seq<char>| self.entries@[choose|i: int| self.has_at(k, i)].handle,
        )
    }

    /// No two entries share a client id.
    pub closed spec fn wf(&self) -> bool {
        forall|i: int, j: int|
            0 <= i < self.entries@.len() && 0 <= j < self.entries@.len() && i != j
                ==> (#[trigger] self.entries@[i]).client@ != (#[trigger] self.entries@[j]).client@
    }

    proof fn lemma_entry(&self, i: int)
        requires
            self.wf(),
            0 <= i < self.entries@.len(),
        ensures
            self.view().contains_key(self.entries@[i].client@),
            self.view()[self.entries@[i].client@] == self.entries@[i].handle,
    {
        let k = self.entries@[i].client@;
        assert(self.has_at(k, i));
        let j = choose|j: int| self.has_at(k, j);
        assert(self.has_at(k, j));
        assert(i == j);
    }

    /// An empty registry.
    pub fn new() -> (r: Registry)
        ensures
            r.wf(),
            r.view() == Map::<Seq<char>, usize>::empty(),
    {
        let r = Registry { entries: Vec::new() };
        assert(r.view() =~= Map::<Seq<char>, usize>::empty());
        r
    }

    /// The position of the entry of `client`, if there is one.
    fn find(&self, client: &String) -> (r: Option<usize>)
        requires
            self.wf(),
        ensures
            r matches Some(i) ==> self.has_at(client@, i as int),
            r is None ==> !self.view().contains_key(client@),
    {
        let n = self.entries.len();
        let mut i: usize = 0;
        while i < n
            invariant
                n == self.entries@.len(),
                i <= n,
                forall|j: int| 0 <= j < i ==> !self.has_at(client@, j),
            decreases n - i,
        {
            if self.entries[i].client == *client {
                return Some(i);
            }
            i = i + 1;
        }
        None
    }

    /// The number of live entries.
    pub fn len(&self) -> (r: usize)
        requires
            self.wf(),
        ensures
            r == self.view().len(),
    {
        proof {
            self.lemma_len();
        }
        self.entries.len()
    }

    proof fn lemma_len(&self)
        requires
            self.wf(),
        ensures
            self.entries@.len() == self.view().len(),
        decreases self.entries@.len(),
    {
        let keys = self.entries@.map_values(|e: Entry| e.client@);
        assert(keys.no_duplicates()) by {
            assert forall|i: int, j: int| 0 <= i < keys.len() && 0 <= j < keys.len() && i != j
                implies keys[i] != keys[j] by {
                assert(self.entries@[i].client@ != self.entries@[j].client@);
            }
        }
        assert(keys.to_set() =~= self.view().dom()) by {
            assert forall|k: Seq<char>| keys.to_set().contains(k) implies self.view().dom().contains(k) by {
                let i = choose|i: int| 0 <= i < keys.len() && keys[i] == k;
                assert(self.has_at(k, i));
            }
            assert forall|k: Seq<char>| self.view().dom().contains(k) implies keys.to_set().contains(k) by {
                let i = choose|i: int| self.has_at(k, i);
                assert(keys[i] == k);
            }
        }
        keys.unique_seq_to_set();
    }

    /// The handle registered for `client`, if any.
    pub fn lookup(&self, client: &String) -> (r: Option<usize>)
        requires
            self.wf(),
        ensures
            r == (if self.view().contains_key(client@) {
                Some(self.view()[client@])
            } else {
                None::<usize>
            }),
    {
        match self.find(client) {
            Some(i) => {
                proof {
                    self.lemma_entry(i as int);
                }
                Some(self.entries[i].handle)
            },
            None => None,
        }
    }

    /// Adds the entry `client -> handle`. A client id that already has an
    /// entry is refused and the registry is left as it was.
    pub fn register(&mut self, client: String, handle: usize) -> (r: Result<(), RegistryError>)
        requires
            old(self).wf(),
        ensures
            final(self).wf(),
            old(self).view().contains_key(client@) ==> r == Err::<(), RegistryError>(
                RegistryError::AlreadyRegistered,
            ) && final(self).view() == old(self).view(),
            !old(self).view().contains_key(client@) ==> r is Ok && final(self).view() == old(
                self,
            ).view().insert(client@, handle),
    {
        match self.find(&client) {
            Some(i) => {
                proof {
                    self.lemma_entry(i as int);
                }
                Err(RegistryError::AlreadyRegistered)
            },
            None => {
                let ghost before = *self;
                let ghost k = client@;
                self.entries.push(Entry { client, handle });
                let ghost n = before.entries@.len() as int;
                assert(self.has_at(k, n));
                assert(self.wf()) by {
                    assert forall|i: int| 0 <= i < n implies (#[trigger] self.entries@[i]).client@ != k by {
                        assert(!before.has_at(k, i));
                    }
                }
                assert(self.view() =~= before.view().insert(k, handle)) by {
                    assert forall|q: Seq<char>| #[trigger] self.view().contains_key(q)
                        implies before.view().insert(k, handle).contains_key(q) by {
                        let i = choose|i: int| self.has_at(q, i);
                        if i < n {
                            assert(before.has_at(q, i));
                        }
                    }
                    assert forall|q: Seq<char>| before.view().insert(k, handle).contains_key(q)
                        implies #[trigger] self.view().contains_key(q) by {
                        if q != k {
                            let i = choose|i: int| before.has_at(q, i);
                            assert(self.has_at(q, i));
                        }
                    }
                    assert forall|q: Seq<char>| #[trigger] self.view().contains_key(q)
                        implies self.view()[q] == before.view().insert(k, handle)[q] by {
                        let i = choose|i: int| self.has_at(q, i);
                        self.lemma_entry(i);
                        if q != k {
                            assert(i < n);
                            before.lemma_entry(i);
                        }
                    }
                }
                Ok(())
            },
        }
    }

    /// Removes the entry of `client` and returns its handle. Removing an id
    /// with no entry changes nothing.
    pub fn unregister(&mut self, client: &String) -> (r: Option<usize>)
        requires
            old(self).wf(),
        ensures
            final(self).wf(),
            final(self).view() == old(self).view().remove(client@),
            r == (if old(self).view().contains_key(client@) {
                Some(old(self).view()[client@])
            } else {
                None::<usize>
            }),
    {
        match self.find(client) {
            Some(i) => {
                let ghost before = *self;
                let ghost k = client@;
                proof {
                    before.lemma_entry(i as int);
                }
                let e = self.entries.swap_remove(i);
                let ghost n = before.entries@.len() as int;
                assert(self.entries@ =~= before.entries@.update(i as int, before.entries@[n - 1]).drop_last());
                assert(self.wf()) by {
                    assert forall|a: int, b: int|
                        0 <= a < self.entries@.len() && 0 <= b < self.entries@.len() && a != b
                        implies (#[trigger] self.entries@[a]).client@ != (#[trigger] self.entries@[b]).client@ by {
                        let a0 = if a == i { n - 1 } else { a };
                        let b0 = if b == i { n - 1 } else { b };
                        assert(before.entries@[a0] == self.entries@[a]);
                        assert(before.entries@[b0] == self.entries@[b]);
                    }
                }
                assert(self.view() =~= before.view().remove(k)) by {
                    assert forall|q: Seq<char>| #[trigger] self.view().contains_key(q)
                        implies before.view().remove(k).contains_key(q) by {
                        let a = choose|a: int| self.has_at(q, a);
                        let a0 = if a == i { n - 1 } else { a };
                        assert(before.has_at(q, a0));
                        assert(a0 != i);
                    }
                    assert forall|q: Seq<char>| before.view().remove(k).contains_key(q)
                        implies #[trigger] self.view().contains_key(q) by {
                        let a0 = choose|a: int| before.has_at(q, a);
                        assert(a0 != i);
                        let a = if a0 == n - 1 { i as int } else { a0 };
                        assert(self.has_at(q, a));
                    }
                    assert forall|q: Seq<char>| #[trigger] self.view().contains_key(q)
                        implies self.view()[q] == before.view().remove(k)[q] by {
                        let a = choose|a: int| self.has_at(q, a);
                        self.lemma_entry(a);
                        let a0 = if a == i { n - 1 } else { a };
                        before.lemma_entry(a0);
                    }
                }
                Some(e.handle)
            },
            None => {
                assert(self.view() =~= self.view().remove(client@));
                None
            },
        }
    }
}

} // verus!
