//! Identifiers of contacts between two objects, bucketed on a grid, and a table keyed by them.
use vstd::prelude::*;

use crate::arith::{abs_int, div_defined, div_trunc, lemma_trunc_div_remainder, trunc_div};

verus! {

/// What identifies a contact: the two objects and the grid cell of the contact center.
pub type ContactKey = (usize, usize, Seq<i64>);

/// The grid cell of `center` for a grid of the given `step`: each coordinate divided by the
/// step and rounded toward zero.
pub open spec fn cell_of(center: Seq<i64>, step: i64) -> Seq<i64> {
    center.map_values(|c: i64| trunc_div(c as int, step as int) as i64)
}

/// Whether every coordinate of `center` can be divided by `step` without a fault.
pub open spec fn cell_defined(center: Seq<i64>, step: i64) -> bool {
    forall|i: int| 0 <= i < center.len() ==> div_defined(#[trigger] center[i], step)
}

/// A contact between two objects, identified by the grid cell of its center: two contacts
/// whose centers fall in the same cell of the grid are the same contact.
pub struct ContactIdentifier {
    obj1: usize,
    obj2: usize,
    ccenter: Vec<i64>,
}

impl View for ContactIdentifier {
    type V = ContactKey;

    closed spec fn view(&self) -> ContactKey {
        (self.obj1, self.obj2, self.ccenter@)
    }
}

impl ContactIdentifier {
    /// The contact between `obj1` and `obj2` whose center is `center`, on a grid of
    /// spacing `step`.
    pub fn new(obj1: usize, obj2: usize, center: Vec<i64>, step: &i64) -> (res: ContactIdentifier)
        requires
            cell_defined(center@, *step),
        ensures
            res@ == (obj1, obj2, cell_of(center@, *step)),
    {
        let mut ccenter: Vec<i64> = Vec::with_capacity(center.len());
        let n = center.len();
        for i in 0..n
            invariant
                n == center@.len(),
                cell_defined(center@, *step),
                ccenter@.len() == i,
                forall|j: int|
                    0 <= j < i ==> #[trigger] ccenter@[j] == trunc_div(
                        center@[j] as int,
                        *step as int,
                    ),
        {
            let c = div_trunc(center[i], *step);
            ccenter.push(c);
        }
        assert(ccenter@ =~= cell_of(center@, *step));
        ContactIdentifier { obj1, obj2, ccenter }
    }

    /// Whether `self` and `other` identify the same contact (same objects, same cell).
    pub fn same_contact(&self, other: &ContactIdentifier) -> (res: bool)
        ensures
            res == (self@ == other@),
    {
        if self.obj1 != other.obj1 || self.obj2 != other.obj2 {
            return false;
        }
        if self.ccenter.len() != other.ccenter.len() {
            return false;
        }
        let n = self.ccenter.len();
        for i in 0..n
            invariant
                n == self.ccenter@.len(),
                n == other.ccenter@.len(),
                forall|j: int| 0 <= j < i ==> self.ccenter@[j] == other.ccenter@[j],
        {
            if self.ccenter[i] != other.ccenter[i] {
                return false;
            }
        }
        assert(self.ccenter@ =~= other.ccenter@);
        true
    }
}

/// The map whose keys are `ks` and whose value at `ks[i]` is `vs[i]`.
pub open spec fn map_of(ks: Seq<ContactKey>, vs: Seq<(usize, usize)>) -> Map<
    ContactKey,
    (usize, usize),
> {
    Map::new(|k: ContactKey| ks.contains(k), |k: ContactKey| vs[ks.index_of(k)])
}

/// A table from contacts to pairs of indices (a contact index and an impulse offset).
/// Each contact occurs at most once; entries keep the order in which they were added.
pub struct ContactMap {
    keys: Vec<ContactIdentifier>,
    values: Vec<(usize, usize)>,
}

impl View for ContactMap {
    type V = Map<ContactKey, (usize, usize)>;

    closed spec fn view(&self) -> Map<ContactKey, (usize, usize)> {
        map_of(self.key_seq(), self.value_seq())
    }
}

impl ContactMap {
    /// The contacts of the table, in the order of its entries.
    pub closed spec fn key_seq(&self) -> Seq<ContactKey> {
        self.keys@.map_values(|k: ContactIdentifier| k@)
    }

    /// The values of the table, in the order of its entries.
    pub closed spec fn value_seq(&self) -> Seq<(usize, usize)> {
        self.values@
    }

    /// Well-formedness: one value per entry, and no contact occurs twice.
    pub closed spec fn wf(&self) -> bool {
        &&& self.keys@.len() == self.values@.len()
        &&& self.key_seq().no_duplicates()
    }

    /// In a well-formed table, the entry at position `i` is what the map holds for its key.
    pub proof fn lemma_entry(&self, i: int)
        requires
            self.wf(),
            0 <= i < self.key_seq().len(),
        ensures
            self.key_seq().len() == self.value_seq().len(),
            self@.contains_key(self.key_seq()[i]),
            self@[self.key_seq()[i]] == self.value_seq()[i],
    {
        let ks = self.key_seq();
        assert(ks.contains(ks[i]));
        let j = ks.index_of(ks[i]);
        assert(0 <= j < ks.len() && ks[j] == ks[i]);
    }

    /// The contacts of a well-formed table are exactly its keys, and its size is their number.
    pub proof fn lemma_len(&self)
        requires
            self.wf(),
        ensures
            self@.dom() == self.key_seq().to_set(),
            self@.len() == self.key_seq().len(),
    {
        assert(self@.dom() =~= self.key_seq().to_set());
        self.key_seq().unique_seq_to_set();
    }

    /// A well-formed table equals a map that holds each entry and has no other key.
    proof fn lemma_equals(&self, target: Map<ContactKey, (usize, usize)>)
        requires
            self.wf(),
            forall|j: int|
                0 <= j < self.key_seq().len() ==> #[trigger] target.contains_key(self.key_seq()[j])
                    && target[self.key_seq()[j]] == self.value_seq()[j],
            forall|k: ContactKey| target.contains_key(k) ==> self.key_seq().contains(k),
        ensures
            self@ == target,
    {
        assert forall|k: ContactKey| self@.contains_key(k) implies target.contains_key(k)
            && self@[k] == target[k] by {
            let j = self.key_seq().index_of(k);
            self.lemma_entry(j);
        }
        assert(self@ =~= target);
    }

    /// An empty table.
    pub fn new() -> (res: ContactMap)
        ensures
            res.wf(),
            res@ == Map::<ContactKey, (usize, usize)>::empty(),
            res.key_seq().len() == 0,
    {
        let res = ContactMap { keys: Vec::new(), values: Vec::new() };
        assert(res@ =~= Map::<ContactKey, (usize, usize)>::empty());
        res
    }

    /// The number of contacts in the table.
    pub fn len(&self) -> (res: usize)
        requires
            self.wf(),
        ensures
            res == self@.len(),
            res == self.key_seq().len(),
    {
        proof {
            self.lemma_len();
        }
        self.keys.len()
    }

    /// Whether the table holds no contact.
    pub fn is_empty(&self) -> (res: bool)
        requires
            self.wf(),
        ensures
            res == (self@.len() == 0),
    {
        proof {
            self.lemma_len();
        }
        self.keys.len() == 0
    }

    /// The position of the entry for `id`, if there is one.
    fn position(&self, id: &ContactIdentifier) -> (res: Option<usize>)
        requires
            self.wf(),
        ensures
            res matches Some(i) ==> i < self.key_seq().len() && self.key_seq()[i as int] == id@,
            res is None ==> !self.key_seq().contains(id@),
    {
        let n = self.keys.len();
        for i in 0..n
            invariant
                n == self.keys@.len(),
                self.wf(),
                forall|j: int| 0 <= j < i ==> self.key_seq()[j] != id@,
        {
            if self.keys[i].same_contact(id) {
                return Some(i);
            }
        }
        None
    }

    /// Whether the table holds an entry for `id`.
    pub fn contains_key(&self, id: &ContactIdentifier) -> (res: bool)
        requires
            self.wf(),
        ensures
            res == self@.contains_key(id@),
    {
        self.position(id).is_some()
    }

    /// The value that the table holds for `id`, if any.
    pub fn find(&self, id: &ContactIdentifier) -> (res: Option<(usize, usize)>)
        requires
            self.wf(),
        ensures
            res == (if self@.contains_key(id@) {
                Some(self@[id@])
            } else {
                None
            }),
    {
        match self.position(id) {
            Some(i) => {
                proof {
                    self.lemma_entry(i as int);
                }
                Some(self.values[i])
            },
            None => None,
        }
    }

    /// Sets the value for `id`, replacing the value it had; returns whether `id` was new.
    /// A new contact is added after the existing entries.
    pub fn insert(&mut self, id: ContactIdentifier, value: (usize, usize)) -> (res: bool)
        requires
            old(self).wf(),
        ensures
            final(self).wf(),
            final(self)@ == old(self)@.insert(id@, value),
            res == !old(self)@.contains_key(id@),
            res ==> final(self).key_seq() == old(self).key_seq().push(id@),
            !res ==> final(self).key_seq() == old(self).key_seq(),
    {
        let ghost old_map = self@;
        let ghost old_keys = self.key_seq();
        match self.position(&id) {
            Some(i) => {
                proof {
                    self.lemma_entry(i as int);
                }
                self.values.set(i, value);
                proof {
                    assert(self.key_seq() =~= old_keys);
                    assert forall|j: int| 0 <= j < self.key_seq().len() implies #[trigger]
                        old_map.insert(id@, value).contains_key(self.key_seq()[j])
                        && old_map.insert(id@, value)[self.key_seq()[j]]
                        == self.value_seq()[j] by {
                        old(self).lemma_entry(j);
                    }
                    self.lemma_equals(old_map.insert(id@, value));
                }
                false
            },
            None => {
                let ghost k = id@;
                self.keys.push(id);
                self.values.push(value);
                proof {
                    assert(self.key_seq() =~= old_keys.push(k));
                    assert forall|j: int| 0 <= j < self.key_seq().len() implies #[trigger]
                        old_map.insert(k, value).contains_key(self.key_seq()[j])
                        && old_map.insert(k, value)[self.key_seq()[j]]
                        == self.value_seq()[j] by {
                        if j < old_keys.len() {
                            old(self).lemma_entry(j);
                        }
                    }
                    assert forall|x: ContactKey| old_map.insert(k, value).contains_key(x)
                        implies self.key_seq().contains(x) by {
                        if x == k {
                            assert(self.key_seq()[old_keys.len() as int] == x);
                        } else {
                            let j = old_keys.index_of(x);
                            assert(self.key_seq()[j] == x);
                        }
                    }
                    self.lemma_equals(old_map.insert(k, value));
                }
                true
            },
        }
    }

    /// Removes the entry for `id`, if any; returns whether there was one.
    pub fn remove(&mut self, id: &ContactIdentifier) -> (res: bool)
        requires
            old(self).wf(),
        ensures
            final(self).wf(),
            final(self)@ == old(self)@.remove(id@),
            res == old(self)@.contains_key(id@),
            res ==> exists|i: int|
                0 <= i < old(self).key_seq().len() && old(self).key_seq()[i] == id@
                    && final(self).key_seq() == old(self).key_seq().remove(i),
            !res ==> final(self).key_seq() == old(self).key_seq(),
    {
        let ghost old_map = self@;
        let ghost old_keys = self.key_seq();
        match self.position(id) {
            Some(i) => {
                self.keys.remove(i);
                self.values.remove(i);
                proof {
                    assert(self.key_seq() =~= old_keys.remove(i as int));
                    assert forall|j: int| 0 <= j < self.key_seq().len() implies #[trigger]
                        old_map.remove(id@).contains_key(self.key_seq()[j])
                        && old_map.remove(id@)[self.key_seq()[j]] == self.value_seq()[j] by {
                        if j < i {
                            old(self).lemma_entry(j);
                            assert(old_keys[j] != old_keys[i as int]);
                        } else {
                            old(self).lemma_entry(j + 1);
                            assert(old_keys[j + 1] != old_keys[i as int]);
                        }
                    }
                    assert forall|x: ContactKey| old_map.remove(id@).contains_key(x)
                        implies self.key_seq().contains(x) by {
                        let j = old_keys.index_of(x);
                        assert(j != i);
                        if j < i {
                            assert(self.key_seq()[j] == x);
                        } else {
                            assert(self.key_seq()[j - 1] == x);
                        }
                    }
                    self.lemma_equals(old_map.remove(id@));
                }
                true
            },
            None => {
                assert(self@ =~= old_map.remove(id@));
                false
            },
        }
    }

    /// Removes every entry.
    pub fn clear(&mut self)
        ensures
            final(self).wf(),
            final(self)@ == Map::<ContactKey, (usize, usize)>::empty(),
            final(self).key_seq().len() == 0,
    {
        self.keys.clear();
        self.values.clear();
        assert(self@ =~= Map::<ContactKey, (usize, usize)>::empty());
    }

    /// The contact of the entry at position `i`.
    pub fn key_at(&self, i: usize) -> (res: &ContactIdentifier)
        requires
            self.wf(),
            i < self.key_seq().len(),
        ensures
            res@ == self.key_seq()[i as int],
    {
        &self.keys[i]
    }

    /// The value of the entry at position `i`.
    pub fn value_at(&self, i: usize) -> (res: (usize, usize))
        requires
            self.wf(),
            i < self.key_seq().len(),
        ensures
            res == self.value_seq()[i as int],
            res == self@[self.key_seq()[i as int]],
    {
        proof {
            self.lemma_entry(i as int);
        }
        self.values[i]
    }

    /// Replaces the value of the entry at position `i`.
    pub fn set_value_at(&mut self, i: usize, value: (usize, usize))
        requires
            old(self).wf(),
            i < old(self).key_seq().len(),
        ensures
            final(self).wf(),
            final(self).key_seq() == old(self).key_seq(),
            final(self).value_seq() == old(self).value_seq().update(i as int, value),
            final(self)@ == old(self)@.insert(old(self).key_seq()[i as int], value),
    {
        let ghost old_map = self@;
        let ghost k = self.key_seq()[i as int];
        proof {
            self.lemma_entry(i as int);
        }
        self.values.set(i, value);
        proof {
            assert forall|j: int| 0 <= j < self.key_seq().len() implies #[trigger]
                old_map.insert(k, value).contains_key(self.key_seq()[j])
                && old_map.insert(k, value)[self.key_seq()[j]] == self.value_seq()[j] by {
                old(self).lemma_entry(j);
            }
            self.lemma_equals(old_map.insert(k, value));
        }
    }
}

/// Two contacts are the same exactly when they join the same objects in the same order and
/// their centers fall in the same grid cell.
pub proof fn lemma_contact_identity(
    obj1: usize,
    obj2: usize,
    center1: Seq<i64>,
    other1: usize,
    other2: usize,
    center2: Seq<i64>,
    step: i64,
)
    ensures
        ((obj1, obj2, cell_of(center1, step)) == (other1, other2, cell_of(center2, step))) <==> (
        obj1 == other1 && obj2 == other2 && cell_of(center1, step) == cell_of(center2, step)),
{
}

/// Each coordinate of a cell is the coordinate of the center divided by the step and rounded
/// toward zero, sign kept: the cell times the step lies within one step of the center, on the
/// side of zero, and with a unit step the cell is the center itself.
pub proof fn lemma_cell_of_rounds_toward_zero(center: Seq<i64>, step: i64, i: int)
    requires
        cell_defined(center, step),
        0 <= i < center.len(),
    ensures
        ({
            let c = center[i] as int;
            let q = cell_of(center, step)[i] as int;
            let s = step as int;
            &&& q == trunc_div(c, s)
            &&& abs_int(c - q * s) < abs_int(s)
            &&& c >= 0 ==> 0 <= c - q * s
            &&& c < 0 ==> c - q * s <= 0
            &&& s > 0 && c >= 0 ==> q * s <= c < (q + 1) * s
            &&& s > 0 && c < 0 ==> (q - 1) * s < c <= q * s
            &&& s == 1 ==> q == c
        }),
{
    let c = center[i] as int;
    let s = step as int;
    assert(div_defined(center[i], step));
    lemma_trunc_div_remainder(c, s);
    let t = trunc_div(c, s);
    // the quotient fits in an i64
    if t > 0 {
        if c == i64::MIN as int {
            assert(s < -1);
            let x = abs_int(c);
            let y = abs_int(s);
            assert(x / y <= x / 2) by (nonlinear_arith)
                requires
                    y >= 2,
                    x >= 0,
            ;
        }
    }
    assert(i64::MIN <= t <= i64::MAX);
    assert(cell_of(center, step)[i] as int == t);
    if s > 0 {
        assert((t + 1) * s == t * s + s && (t - 1) * s == t * s - s) by (nonlinear_arith);
    }
    if s == 1 {
        assert(t * s == t);
    }
}

/// Two contacts of the same objects on a unit grid are the same exactly when their centers are.
pub proof fn lemma_unit_grid_is_exact(center1: Seq<i64>, center2: Seq<i64>)
    requires
        cell_defined(center1, 1),
        cell_defined(center2, 1),
    ensures
        (cell_of(center1, 1) == cell_of(center2, 1)) <==> (center1 == center2),
{
    assert forall|i: int| 0 <= i < center1.len() implies #[trigger] cell_of(center1, 1)[i]
        == center1[i] by {
        lemma_cell_of_rounds_toward_zero(center1, 1, i);
    }
    assert forall|i: int| 0 <= i < center2.len() implies #[trigger] cell_of(center2, 1)[i]
        == center2[i] by {
        lemma_cell_of_rounds_toward_zero(center2, 1, i);
    }
    assert(cell_of(center1, 1) =~= center1);
    assert(cell_of(center2, 1) =~= center2);
}

} // verus!
