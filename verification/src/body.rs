//! References to the bodies of a world, and a registry of the bodies that a force generator
//! or an integrator acts on.
use vstd::prelude::*;

verus! {

/// The two kinds of bodies.
#[derive(Clone, Copy, PartialEq, Eq, Structural)]
pub enum BodyKind {
    Rigid,
    Soft,
}

/// A body of the world, by its key, with its kind.
#[derive(Clone, Copy, PartialEq, Eq, Structural)]
pub struct BodyRef {
    pub key: usize,
    pub kind: BodyKind,
}

/// Whether a body with this key occurs in `entries`.
pub open spec fn has_key(entries: Seq<BodyRef>, key: usize) -> bool {
    exists|i: int| 0 <= i < entries.len() && entries[i].key == key
}

/// A position in `entries` of the body with this key.
pub open spec fn position_of(entries: Seq<BodyRef>, key: usize) -> int {
    choose|i: int| 0 <= i < entries.len() && entries[i].key == key
}

/// `entries` after registering `body`: it replaces the body with the same key, or comes last.
pub open spec fn inserted(entries: Seq<BodyRef>, body: BodyRef) -> Seq<BodyRef> {
    if has_key(entries, body.key) {
        entries.update(position_of(entries, body.key), body)
    } else {
        entries.push(body)
    }
}

/// `entries` after unregistering the body with this key; the others keep their order.
pub open spec fn removed(entries: Seq<BodyRef>, key: usize) -> Seq<BodyRef> {
    if has_key(entries, key) {
        entries.remove(position_of(entries, key))
    } else {
        entries
    }
}

/// The bodies that something acts on: at most one entry per key, kept in the order in which
/// the bodies were added.
pub struct BodyRegistry {
    bodies: Vec<BodyRef>,
}

impl View for BodyRegistry {
    type V = Map<usize, BodyKind>;

    closed spec fn view(&self) -> Map<usize, BodyKind> {
        Map::new(
            |k: usize| exists|i: int| 0 <= i < self.bodies@.len() && self.bodies@[i].key == k,
            |k: usize|
                self.bodies@[choose|i: int| 0 <= i < self.bodies@.len() && self.bodies@[i].key == k].kind,
        )
    }
}

impl BodyRegistry {
    /// The registered bodies, in order.
    pub closed spec fn entries(&self) -> Seq<BodyRef> {
        self.bodies@
    }

    /// Well-formedness: no key occurs twice.
    pub open spec fn wf(&self) -> bool {
        forall|i: int, j: int|
            0 <= i < self.entries().len() && 0 <= j < self.entries().len() && i != j
                ==> #[trigger] self.entries()[i].key != #[trigger] self.entries()[j].key
    }

    /// A key is registered exactly when some entry has it.
    pub proof fn lemma_has_key(&self, key: usize)
        ensures
            self@.contains_key(key) == has_key(self.entries(), key),
    {
    }

    /// In a well-formed registry, the entry at position `i` is what the map holds for its key.
    pub proof fn lemma_entry(&self, i: int)
        requires
            self.wf(),
            0 <= i < self.entries().len(),
        ensures
            self@.contains_key(self.entries()[i].key),
            self@[self.entries()[i].key] == self.entries()[i].kind,
    {
        let k = self.bodies@[i].key;
        assert(exists|j: int| 0 <= j < self.bodies@.len() && self.bodies@[j].key == k);
    }

    /// A well-formed registry equals a map that holds each entry and has no other key.
    proof fn lemma_equals(&self, target: Map<usize, BodyKind>)
        requires
            self.wf(),
            forall|j: int|
                0 <= j < self.entries().len() ==> #[trigger] target.contains_key(
                    self.entries()[j].key,
                ) && target[self.entries()[j].key] == self.entries()[j].kind,
            forall|k: usize|
                target.contains_key(k) ==> exists|j: int|
                    0 <= j < self.entries().len() && #[trigger] self.entries()[j].key == k,
        ensures
            self@ == target,
    {
        assert forall|k: usize| self@.contains_key(k) implies target.contains_key(k) && self@[k]
            == target[k] by {
            let j = choose|i: int| 0 <= i < self.bodies@.len() && self.bodies@[i].key == k;
            self.lemma_entry(j);
        }
        assert(self@ =~= target);
    }

    /// An empty registry.
    pub fn new() -> (res: BodyRegistry)
        ensures
            res.wf(),
            res@ == Map::<usize, BodyKind>::empty(),
            res.entries().len() == 0,
    {
        let res = BodyRegistry { bodies: Vec::new() };
        assert(res@ =~= Map::<usize, BodyKind>::empty());
        res
    }

    /// The number of registered bodies.
    pub fn len(&self) -> (res: usize)
        ensures
            res == self.entries().len(),
    {
        self.bodies.len()
    }

    /// The registered body at position `i`.
    pub fn get(&self, i: usize) -> (res: BodyRef)
        requires
            i < self.entries().len(),
        ensures
            res == self.entries()[i as int],
    {
        self.bodies[i]
    }

    /// The position of the body with this key, if it is registered.
    fn position(&self, key: usize) -> (res: Option<usize>)
        requires
            self.wf(),
        ensures
            res matches Some(i) ==> i < self.entries().len() && self.entries()[i as int].key == key,
            res is None ==> !self@.contains_key(key),
    {
        let n = self.bodies.len();
        for i in 0..n
            invariant
                n == self.bodies@.len(),
                forall|j: int| 0 <= j < i ==> self.bodies@[j].key != key,
        {
            if self.bodies[i].key == key {
                return Some(i);
            }
        }
        None
    }

    /// The kind of the body with this key, if it is registered.
    pub fn kind_of(&self, key: usize) -> (res: Option<BodyKind>)
        requires
            self.wf(),
        ensures
            res == (if self@.contains_key(key) {
                Some(self@[key])
            } else {
                None
            }),
    {
        match self.position(key) {
            Some(i) => {
                proof {
                    self.lemma_entry(i as int);
                }
                Some(self.bodies[i].kind)
            },
            None => None,
        }
    }

    /// Registers `body`, replacing the entry of a body with the same key; returns whether the
    /// key was new. A new body is added after the registered ones.
    pub fn insert(&mut self, body: BodyRef) -> (res: bool)
        requires
            old(self).wf(),
        ensures
            final(self).wf(),
            final(self)@ == old(self)@.insert(body.key, body.kind),
            res == !old(self)@.contains_key(body.key),
            final(self).entries() == inserted(old(self).entries(), body),
    {
        let ghost old_map = self@;
        match self.position(body.key) {
            Some(i) => {
                proof {
                    self.lemma_entry(i as int);
                    assert(has_key(self.bodies@, body.key));
                    assert(position_of(self.bodies@, body.key) == i);
                }
                self.bodies.set(i, body);
                proof {
                    assert forall|j: int| 0 <= j < self.entries().len() implies #[trigger]
                        old_map.insert(body.key, body.kind).contains_key(self.entries()[j].key)
                        && old_map.insert(body.key, body.kind)[self.entries()[j].key]
                        == self.entries()[j].kind by {
                        if j != i {
                            old(self).lemma_entry(j);
                        }
                    }
                    assert forall|k: usize| old_map.insert(body.key, body.kind).contains_key(k)
                        implies exists|j: int|
                        0 <= j < self.entries().len() && #[trigger] self.entries()[j].key == k by {
                        if k != body.key {
                            let j = choose|j: int|
                                0 <= j < old(self).bodies@.len() && old(self).bodies@[j].key == k;
                            assert(self.entries()[j].key == k);
                        } else {
                            assert(self.entries()[i as int].key == k);
                        }
                    }
                    self.lemma_equals(old_map.insert(body.key, body.kind));
                }
                false
            },
            None => {
                self.bodies.push(body);
                proof {
                    let n = old(self).bodies@.len() as int;
                    assert forall|j: int| 0 <= j < self.entries().len() implies #[trigger]
                        old_map.insert(body.key, body.kind).contains_key(self.entries()[j].key)
                        && old_map.insert(body.key, body.kind)[self.entries()[j].key]
                        == self.entries()[j].kind by {
                        if j < n {
                            old(self).lemma_entry(j);
                        }
                    }
                    assert forall|k: usize| old_map.insert(body.key, body.kind).contains_key(k)
                        implies exists|j: int|
                        0 <= j < self.entries().len() && #[trigger] self.entries()[j].key == k by {
                        if k != body.key {
                            let j = choose|j: int|
                                0 <= j < old(self).bodies@.len() && old(self).bodies@[j].key == k;
                            assert(self.entries()[j].key == k);
                        } else {
                            assert(self.entries()[n].key == k);
                        }
                    }
                    self.lemma_equals(old_map.insert(body.key, body.kind));
                }
                true
            },
        }
    }

    /// Unregisters the body with this key, if any; returns whether it was registered. The
    /// other bodies keep their order.
    pub fn remove(&mut self, key: usize) -> (res: bool)
        requires
            old(self).wf(),
        ensures
            final(self).wf(),
            final(self)@ == old(self)@.remove(key),
            res == old(self)@.contains_key(key),
            final(self).entries() == removed(old(self).entries(), key),
            !has_key(final(self).entries(), key),
    {
        let ghost old_map = self@;
        match self.position(key) {
            Some(i) => {
                proof {
                    self.lemma_entry(i as int);
                    assert(has_key(self.bodies@, key));
                    assert(position_of(self.bodies@, key) == i);
                }
                self.bodies.remove(i);
                proof {
                    assert forall|j: int| 0 <= j < self.entries().len() implies #[trigger]
                        old_map.remove(key).contains_key(self.entries()[j].key)
                        && old_map.remove(key)[self.entries()[j].key]
                        == self.entries()[j].kind by {
                        if j < i {
                            old(self).lemma_entry(j);
                        } else {
                            old(self).lemma_entry(j + 1);
                        }
                    }
                    assert forall|k: usize| old_map.remove(key).contains_key(k)
                        implies exists|j: int|
                        0 <= j < self.entries().len() && #[trigger] self.entries()[j].key == k by {
                        let j = choose|j: int|
                            0 <= j < old(self).bodies@.len() && old(self).bodies@[j].key == k;
                        if j < i {
                            assert(self.entries()[j].key == k);
                        } else {
                            assert(self.entries()[j - 1].key == k);
                        }
                    }
                    self.lemma_equals(old_map.remove(key));
                }
                true
            },
            None => {
                assert(self@ =~= old_map.remove(key));
                false
            },
        }
    }
}

/// Registering a body that was not registered and then unregistering it leaves the registered
/// bodies, and their order, as they were.
pub proof fn lemma_register_then_unregister(entries: Seq<BodyRef>, body: BodyRef)
    requires
        !has_key(entries, body.key),
    ensures
        removed(inserted(entries, body), body.key) == entries,
{
    let e2 = entries.push(body);
    assert(e2[entries.len() as int].key == body.key);
    assert(has_key(e2, body.key));
    let p = position_of(e2, body.key);
    assert(p == entries.len()) by {
        if p < entries.len() {
            assert(entries[p].key == body.key);
        }
    }
    assert(e2.remove(p) =~= entries);
}

} // verus!
