//! An object store keyed by identifier, with optimistic concurrency: every
//! write names the resource version it read, and a write against any other
//! version is rejected with the current one, never silently applied.

use vstd::prelude::*;
use crate::crd::{ObjectId, PolicyObject};

verus! {

/// Why the store refused a request.
#[derive(Clone, Copy, PartialEq, Eq, Structural, Debug)]
pub enum StoreError {
    /// The expected resource version is stale; the current one is returned
    /// so the caller can retry against it.
    Conflict { current_version: u64 },
    NotFound,
    AlreadyExists,
}

/// No two stored objects share an identifier.
pub open spec fn unique_keys(s: Seq<PolicyObject>) -> bool {
    forall|i: int, j: int|
        0 <= i < j < s.len() ==> (#[trigger] s[i].id.key()) != (#[trigger] s[j].id.key())
}

/// Every stored object carries a resource version an accepted write gave
/// it: the counter starts at 1 and only ever increases.
pub open spec fn versions_assigned(s: Seq<PolicyObject>) -> bool {
    forall|i: int| 0 <= i < s.len() ==> (#[trigger] s[i].resource_version) >= 1
}

pub struct ObjectStore {
    objects: Vec<PolicyObject>,
}

impl ObjectStore {
    /// The stored objects, in insertion order.
    pub closed spec fn contents(&self) -> Seq<PolicyObject> {
        self.objects@
    }

    pub open spec fn wf(&self) -> bool {
        unique_keys(self.contents()) && versions_assigned(self.contents())
    }

    /// Whether some stored object has this key.
    pub open spec fn has_key(&self, k: (Seq<char>, Seq<char>)) -> bool {
        exists|i: int| 0 <= i < self.contents().len() && (#[trigger] self.contents()[i].id.key())
            == k
    }

    /// The position of the object with this key, if any.
    pub open spec fn index_of(&self, k: (Seq<char>, Seq<char>)) -> int {
        choose|i: int| 0 <= i < self.contents().len() && (#[trigger] self.contents()[i].id.key())
            == k
    }

    /// The stored object with this key, if any.
    pub open spec fn spec_get(&self, k: (Seq<char>, Seq<char>)) -> Option<PolicyObject> {
        if self.has_key(k) {
            Some(self.contents()[self.index_of(k)])
        } else {
            None
        }
    }

    pub fn new() -> (r: ObjectStore)
        ensures
            r.wf(),
            r.contents() == Seq::<PolicyObject>::empty(),
    {
        let r = ObjectStore { objects: Vec::new() };
        proof {
            assert(r.contents() =~= Seq::<PolicyObject>::empty());
        }
        r
    }

    fn find(&self, id: &ObjectId) -> (r: Option<usize>)
        ensures
            match r {
                Some(i) => i < self.contents().len() && self.contents()[i as int].id.key()
                    == id.key(),
                None => !self.has_key(id.key()),
            },
    {
        let mut i: usize = 0;
        while i < self.objects.len()
            invariant
                i <= self.contents().len(),
                forall|j: int| 0 <= j < i ==> (#[trigger] self.contents()[j].id.key()) != id.key(),
            decreases self.objects.len() - i,
        {
            if self.objects[i].id.same_as(id) {
                return Some(i);
            }
            i = i + 1;
        }
        None
    }

    /// Reads the object with this identifier; `None` exactly when no object
    /// has it.
    pub fn get(&self, id: &ObjectId) -> (r: Option<&PolicyObject>)
        requires
            self.wf(),
        ensures
            match r {
                Some(o) => self.spec_get(id.key()) == Some(*o),
                None => self.spec_get(id.key()) is None,
            },
    {
        match self.find(id) {
            Some(i) => {
                let o = &self.objects[i];
                proof {
                    let k = id.key();
                    let w = self.index_of(k);
                    assert(self.has_key(k));
                    assert(0 <= w < self.contents().len() && self.contents()[w].id.key() == k);
                    assert(w == i as int);
                }
                Some(o)
            },
            None => None,
        }
    }

    /// Accepts a create exactly when the identifier is free; the object is
    /// stored with resource version 1.
    pub fn create(&mut self, obj: PolicyObject) -> (r: Result<u64, StoreError>)
        requires
            old(self).wf(),
        ensures
            final(self).wf(),
            match r {
                Ok(v) => v == 1 && !old(self).has_key(obj.id.key()) && final(self).contents()
                    == old(self).contents().push(
                    PolicyObject { resource_version: 1u64, ..obj },
                ),
                Err(e) => e == StoreError::AlreadyExists && old(self).has_key(obj.id.key())
                    && final(self).contents() == old(self).contents(),
            },
    {
        match self.find(&obj.id) {
            Some(_) => Err(StoreError::AlreadyExists),
            None => {
                let mut stored = obj;
                stored.resource_version = 1;
                proof {
                    let olds = self.contents();
                    let k = stored.id.key();
                    assert forall|i: int, j: int|
                        0 <= i < j < olds.push(stored).len() implies (#[trigger] olds.push(
                        stored,
                    )[i].id.key()) != (#[trigger] olds.push(stored)[j].id.key()) by {
                        if j < olds.len() {
                            assert(olds[i].id.key() != olds[j].id.key());
                        } else {
                            assert(olds.push(stored)[i] == olds[i]);
                            assert(olds[i].id.key() != k);
                        }
                    }
                }
                self.objects.push(stored);
                Ok(1)
            },
        }
    }

    /// Accepts an update exactly when the identifier is present and the
    /// expected resource version is the stored one; the accepted write
    /// stores the new object under the strictly increased version. A stale
    /// expected version is rejected with the current one, and the store is
    /// untouched.
    pub fn update(&mut self, obj: PolicyObject, expected_version: u64) -> (r: Result<
        u64,
        StoreError,
    >)
        requires
            old(self).wf(),
            expected_version < u64::MAX,
        ensures
            final(self).wf(),
            match r {
                Ok(v) => {
                    &&& old(self).spec_get(obj.id.key()) matches Some(cur)
                        && cur.resource_version == expected_version
                    &&& v == expected_version + 1
                    &&& final(self).contents() == old(self).contents().update(
                        old(self).index_of(obj.id.key()),
                        PolicyObject { resource_version: v, ..obj },
                    )
                },
                Err(StoreError::NotFound) => !old(self).has_key(obj.id.key())
                    && final(self).contents() == old(self).contents(),
                Err(StoreError::Conflict { current_version }) => {
                    &&& old(self).spec_get(obj.id.key()) matches Some(cur)
                        && cur.resource_version == current_version
                    &&& current_version != expected_version
                    &&& final(self).contents() == old(self).contents()
                },
                Err(StoreError::AlreadyExists) => false,
            },
    {
        match self.find(&obj.id) {
            None => Err(StoreError::NotFound),
            Some(i) => {
                proof {
                    let k = obj.id.key();
                    assert(self.has_key(k));
                    let w = self.index_of(k);
                    assert(0 <= w < self.contents().len() && self.contents()[w].id.key() == k);
                    assert(w == i as int);
                }
                let current_version = self.objects[i].resource_version;
                if current_version != expected_version {
                    Err(StoreError::Conflict { current_version })
                } else {
                    let mut stored = obj;
                    stored.resource_version = expected_version + 1;
                    let ghost olds = self.contents();
                    let ghost news = olds.update(i as int, stored);
                    proof {
                        assert forall|a: int, b: int|
                            0 <= a < b < news.len() implies (#[trigger] news[a].id.key())
                            != (#[trigger] news[b].id.key()) by {
                            assert(news[a].id.key() == olds[a].id.key());
                            assert(news[b].id.key() == olds[b].id.key());
                            assert(olds[a].id.key() != olds[b].id.key());
                        }
                    }
                    self.objects[i] = stored;
                    Ok(expected_version + 1)
                }
            },
        }
    }

    /// Accepts a delete exactly when the identifier is present; the object
    /// leaves the store.
    pub fn delete(&mut self, id: &ObjectId) -> (r: Result<(), StoreError>)
        requires
            old(self).wf(),
        ensures
            final(self).wf(),
            match r {
                Ok(u) => old(self).has_key(id.key()) && final(self).contents()
                    == old(self).contents().remove(old(self).index_of(id.key())),
                Err(e) => e == StoreError::NotFound && !old(self).has_key(id.key())
                    && final(self).contents() == old(self).contents(),
            },
    {
        match self.find(id) {
            None => Err(StoreError::NotFound),
            Some(i) => {
                proof {
                    let k = id.key();
                    assert(self.has_key(k));
                    let w = self.index_of(k);
                    assert(0 <= w < self.contents().len() && self.contents()[w].id.key() == k);
                    assert(w == i as int);
                    let olds = self.contents();
                    let news = olds.remove(i as int);
                    assert forall|a: int, b: int|
                        0 <= a < b < news.len() implies (#[trigger] news[a].id.key())
                        != (#[trigger] news[b].id.key()) by {
                        let oa = if a < i as int {
                            a
                        } else {
                            a + 1
                        };
                        let ob = if b < i as int {
                            b
                        } else {
                            b + 1
                        };
                        assert(news[a] == olds[oa]);
                        assert(news[b] == olds[ob]);
                        assert(olds[oa].id.key() != olds[ob].id.key());
                    }
                }
                self.objects.remove(i);
                Ok(())
            },
        }
    }
}

} // verus!
