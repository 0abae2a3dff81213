//! A cache of the impulses computed for each contact, carried from one step to the next so
//! that the constraint solver can start from the impulses of the previous step.
use vstd::prelude::*;

use crate::contact::{cell_defined, cell_of, ContactIdentifier, ContactKey, ContactMap};

verus! {

/// `n` zeros.
pub open spec fn zeros(n: nat) -> Seq<i64> {
    Seq::new(n, |i: int| 0i64)
}

/// What an impulse cache holds: the contacts and impulses of the previous step and those of
/// the step being built, the grid spacing that identifies contacts, and the number of impulses
/// reserved for each contact.
pub struct ImpulseCacheView {
    pub prev: Map<ContactKey, (usize, usize)>,
    pub prev_impulses: Seq<i64>,
    pub next: Map<ContactKey, (usize, usize)>,
    pub next_impulses: Seq<i64>,
    pub step: i64,
    pub impulse_per_contact: nat,
}

impl ImpulseCacheView {
    /// A fresh cache: no contact, and one block of zero impulses on each side.
    pub open spec fn initial(step: i64, impulse_per_contact: nat) -> ImpulseCacheView {
        ImpulseCacheView {
            prev: Map::empty(),
            prev_impulses: zeros(impulse_per_contact),
            next: Map::empty(),
            next_impulses: zeros(impulse_per_contact),
            step,
            impulse_per_contact,
        }
    }

    /// Both impulse buffers start with the reserved block: `impulse_per_contact` zeros, the
    /// impulses at offset 0 that every new contact starts from.
    pub open spec fn reserved_ok(self) -> bool {
        &&& self.prev_impulses.len() >= self.impulse_per_contact
        &&& self.next_impulses.len() >= self.impulse_per_contact
        &&& self.prev_impulses.take(self.impulse_per_contact as int) == zeros(
            self.impulse_per_contact,
        )
        &&& self.next_impulses.take(self.impulse_per_contact as int) == zeros(
            self.impulse_per_contact,
        )
    }

    /// The contact between `obj1` and `obj2` centered at `center`.
    pub open spec fn key(self, obj1: usize, obj2: usize, center: Seq<i64>) -> ContactKey {
        (obj1, obj2, cell_of(center, self.step))
    }

    /// The impulse offset that a contact had in the previous step, or 0 for a new contact.
    pub open spec fn carried_offset(self, key: ContactKey) -> usize {
        if self.prev.contains_key(key) {
            self.prev[key].1
        } else {
            0
        }
    }

    /// The cache after recording contact `cid` between `obj1` and `obj2` at `center`.
    pub open spec fn after_insert(self, cid: usize, obj1: usize, obj2: usize, center: Seq<i64>) -> ImpulseCacheView {
        let key = self.key(obj1, obj2, center);
        ImpulseCacheView { next: self.next.insert(key, (cid, self.carried_offset(key))), ..self }
    }

    /// The cache after `values` were appended to the impulses of the step being built.
    pub open spec fn after_push(self, values: Seq<i64>) -> ImpulseCacheView {
        ImpulseCacheView { next_impulses: self.next_impulses + values, ..self }
    }

    /// The cache after each block of `blocks` was pushed, in order.
    pub open spec fn after_pushes(self, blocks: Seq<Seq<i64>>) -> ImpulseCacheView
        decreases blocks.len(),
    {
        if blocks.len() == 0 {
            self
        } else {
            self.after_pushes(blocks.drop_last()).after_push(blocks.last())
        }
    }

    /// The cache after the step being built became the previous one.
    pub open spec fn after_swap(self) -> ImpulseCacheView {
        ImpulseCacheView {
            prev: self.next,
            prev_impulses: self.next_impulses,
            next: Map::empty(),
            next_impulses: if self.prev_impulses.len() > self.impulse_per_contact {
                self.prev_impulses.take(self.impulse_per_contact as int)
            } else {
                self.prev_impulses
            },
            ..self
        }
    }

    /// The cache after everything was forgotten: no contact, and `impulse_per_contact + 1`
    /// zero impulses on each side.
    pub open spec fn after_clear(self) -> ImpulseCacheView {
        ImpulseCacheView {
            prev: Map::empty(),
            prev_impulses: zeros(self.impulse_per_contact + 1),
            next: Map::empty(),
            next_impulses: zeros(self.impulse_per_contact + 1),
            ..self
        }
    }
}

/// The impulse cache of a constraint solver.
pub struct ImpulseCache {
    hash_prev: ContactMap,
    cache_prev: Vec<i64>,
    hash_next: ContactMap,
    cache_next: Vec<i64>,
    step: i64,
    impulse_per_contact: usize,
}

impl View for ImpulseCache {
    type V = ImpulseCacheView;

    closed spec fn view(&self) -> ImpulseCacheView {
        ImpulseCacheView {
            prev: self.hash_prev@,
            prev_impulses: self.cache_prev@,
            next: self.hash_next@,
            next_impulses: self.cache_next@,
            step: self.step,
            impulse_per_contact: self.impulse_per_contact as nat,
        }
    }
}

/// `n` zeros.
fn zero_impulses(n: usize) -> (res: Vec<i64>)
    ensures
        res@ == zeros(n as nat),
{
    let mut res: Vec<i64> = Vec::with_capacity(n);
    for i in 0..n
        invariant
            res@ == zeros(i as nat),
    {
        res.push(0);
        assert(res@ =~= zeros((i + 1) as nat));
    }
    res
}

impl ImpulseCache {
    /// Well-formedness: both contact tables are well-formed.
    pub closed spec fn wf(&self) -> bool {
        &&& self.hash_prev.wf()
        &&& self.hash_next.wf()
        &&& self@.reserved_ok()
    }

    /// The contacts of the step being built, in the order of its table.
    pub closed spec fn next_order(&self) -> Seq<ContactKey> {
        self.hash_next.key_seq()
    }

    /// The contacts of the previous step, in the order of its table.
    pub closed spec fn prev_order(&self) -> Seq<ContactKey> {
        self.hash_prev.key_seq()
    }

    /// A well-formed cache keeps its reserved block of zero impulses on both sides, and its
    /// impulse buffers fit in memory.
    pub proof fn lemma_reserved(&self)
        requires
            self.wf(),
        ensures
            self@.reserved_ok(),
            self@.prev_impulses.len() <= usize::MAX,
            self@.next_impulses.len() <= usize::MAX,
    {
        assert(self.cache_prev.len() == self.cache_prev@.len());
        assert(self.cache_next.len() == self.cache_next@.len());
    }

    /// A cache for contacts bucketed on a grid of spacing `step`, reserving
    /// `impulse_per_contact` impulses for each contact.
    pub fn new(step: i64, impulse_per_contact: usize) -> (res: ImpulseCache)
        ensures
            res.wf(),
            res@ == ImpulseCacheView::initial(step, impulse_per_contact as nat),
            res.next_order().len() == 0,
            res.prev_order().len() == 0,
    {
        assert(zeros(impulse_per_contact as nat).take(impulse_per_contact as int) =~= zeros(
            impulse_per_contact as nat,
        ));
        ImpulseCache {
            hash_prev: ContactMap::new(),
            cache_prev: zero_impulses(impulse_per_contact),
            hash_next: ContactMap::new(),
            cache_next: zero_impulses(impulse_per_contact),
            step,
            impulse_per_contact,
        }
    }

    /// Records contact `cid` between `obj1` and `obj2` at `center` for the step being built,
    /// with the impulse offset that the same contact had in the previous step (0 if it is new).
    pub fn insert(&mut self, cid: usize, obj1: usize, obj2: usize, center: Vec<i64>)
        requires
            old(self).wf(),
            cell_defined(center@, old(self)@.step),
        ensures
            final(self).wf(),
            final(self)@ == old(self)@.after_insert(cid, obj1, obj2, center@),
            final(self)@.prev == old(self)@.prev,
            final(self)@.next.contains_key(old(self)@.key(obj1, obj2, center@)),
            final(self)@.next[old(self)@.key(obj1, obj2, center@)] == (cid, if old(self)@.prev.contains_key(
                old(self)@.key(obj1, obj2, center@),
            ) {
                old(self)@.prev[old(self)@.key(obj1, obj2, center@)].1
            } else {
                0
            }),
            forall|k: ContactKey|
                k != old(self)@.key(obj1, obj2, center@) ==> (#[trigger] final(self)@.next.contains_key(k)
                    == old(self)@.next.contains_key(k) && (old(self)@.next.contains_key(k)
                    ==> final(self)@.next[k] == old(self)@.next[k])),
            final(self).prev_order() == old(self).prev_order(),
            final(self).next_order() == (if old(self)@.next.contains_key(
                old(self)@.key(obj1, obj2, center@),
            ) {
                old(self).next_order()
            } else {
                old(self).next_order().push(old(self)@.key(obj1, obj2, center@))
            }),
    {
        let id = ContactIdentifier::new(obj1, obj2, center, &self.step);
        let imp = match self.hash_prev.find(&id) {
            Some((_, i)) => i,
            None => 0,
        };
        self.hash_next.insert(id, (cid, imp));
    }

    /// The contacts of the step being built.
    pub fn hash(&self) -> (res: &ContactMap)
        ensures
            res@ == self@.next,
            res.key_seq() == self.next_order(),
            self.wf() ==> res.wf(),
    {
        &self.hash_next
    }

    /// The contacts of the step being built, to be updated in place.
    pub fn hash_mut(&mut self) -> (res: &mut ContactMap)
        ensures
            res@ == old(self)@.next,
            res.key_seq() == old(self).next_order(),
            final(self).next_order() == final(res).key_seq(),
            final(self).prev_order() == old(self).prev_order(),
            old(self).wf() ==> res.wf(),
            final(self)@ == (ImpulseCacheView { next: final(res)@, ..old(self)@ }),
            old(self).wf() && final(res).wf() ==> final(self).wf(),
    {
        &mut self.hash_next
    }

    /// Appends `impulse_per_contact` zero impulses to the step being built and hands them out.
    pub fn push_impulsions(&mut self) -> (res: &mut [i64])
        requires
            old(self).wf(),
        ensures
            res@ == zeros(old(self)@.impulse_per_contact),
            final(self).wf(),
            final(self)@ == old(self)@.after_push(final(res)@),
            final(self).next_order() == old(self).next_order(),
            final(self).prev_order() == old(self).prev_order(),
    {
        let begin = self.cache_next.len();
        let n = self.impulse_per_contact;
        for i in 0..n
            invariant
                self.cache_next@ == old(self).cache_next@ + zeros(i as nat),
                begin == old(self).cache_next@.len(),
                n == old(self).impulse_per_contact,
                self.hash_prev == old(self).hash_prev,
                self.hash_next == old(self).hash_next,
                self.cache_prev == old(self).cache_prev,
                self.step == old(self).step,
                self.impulse_per_contact == n,
        {
            self.cache_next.push(0);
            assert(self.cache_next@ =~= old(self).cache_next@ + zeros((i + 1) as nat));
        }
        let all = self.cache_next.as_mut_slice();
        let (head, tail) = all.split_at_mut(begin);
        assert(head@ =~= old(self).cache_next@);
        assert forall|b: Seq<i64>|
            #[trigger] (old(self).cache_next@ + b).take(n as int) == old(self).cache_next@.take(
                n as int,
            ) by {
            assert((old(self).cache_next@ + b).take(n as int) =~= old(self).cache_next@.take(
                n as int,
            ));
        }
        tail
    }

    /// The number of impulses reserved for each contact.
    pub fn reserved_impulse_offset(&self) -> (res: usize)
        ensures
            res == self@.impulse_per_contact,
    {
        self.impulse_per_contact
    }

    /// The impulses of the previous step that start at offset `at`.
    pub fn impulsions_at(&self, at: usize) -> (res: &[i64])
        requires
            at + self@.impulse_per_contact <= self@.prev_impulses.len(),
        ensures
            res@ == self@.prev_impulses.subrange(at as int, at + self@.impulse_per_contact),
    {
        let len = self.cache_prev.len();
        assert(at + self.impulse_per_contact <= len);
        let s = self.cache_prev.as_slice();
        let end = at + self.impulse_per_contact;
        &s[at..end]
    }

    /// The number of contacts of the step being built.
    pub fn len(&self) -> (res: usize)
        requires
            self.wf(),
        ensures
            res == self@.next.len(),
    {
        self.hash_next.len()
    }

    /// Forgets every contact and impulse.
    pub fn clear(&mut self)
        requires
            old(self)@.impulse_per_contact < usize::MAX,
        ensures
            final(self).wf(),
            final(self)@ == old(self)@.after_clear(),
            final(self).next_order().len() == 0,
            final(self).prev_order().len() == 0,
    {
        self.cache_prev.clear();
        self.hash_prev.clear();
        self.cache_next.clear();
        self.hash_next.clear();
        let n = self.impulse_per_contact;
        self.cache_prev = zero_impulses(n + 1);
        self.cache_next = zero_impulses(n + 1);
        assert(zeros((n + 1) as nat).take(n as int) =~= zeros(n as nat));
    }

    /// Ends a step: the step being built becomes the previous one, and a new step starts with
    /// no contact and the first block of impulses.
    pub fn swap(&mut self)
        requires
            old(self).wf(),
        ensures
            final(self).wf(),
            final(self)@ == old(self)@.after_swap(),
            final(self).prev_order() == old(self).next_order(),
            final(self).next_order().len() == 0,
    {
        std::mem::swap(&mut self.hash_prev, &mut self.hash_next);
        std::mem::swap(&mut self.cache_prev, &mut self.cache_next);
        self.hash_next.clear();
        self.cache_next.truncate(self.impulse_per_contact);
        assert(old(self).cache_prev@.take(old(self).cache_prev@.len() as int)
            =~= old(self).cache_prev@);
        let ghost k = self.impulse_per_contact as int;
        assert(self.cache_next@.take(k) =~= old(self).cache_prev@.take(k));
    }
}

/// Warm starting: whatever a contact holds when a step ends, the same contact recorded in the
/// following step gets its impulse offset; a contact that the ended step did not hold gets 0.
pub proof fn lemma_offset_carried_over_swap(
    v: ImpulseCacheView,
    cid: usize,
    obj1: usize,
    obj2: usize,
    center: Seq<i64>,
)
    ensures
        ({
            let key = v.key(obj1, obj2, center);
            let w = v.after_swap().after_insert(cid, obj1, obj2, center);
            &&& w.next.contains_key(key)
            &&& w.next[key] == (cid, if v.next.contains_key(key) {
                v.next[key].1
            } else {
                0
            })
        }),
{
}

/// Contacts whose centers fall in the same grid cell are one contact: recording the second
/// one replaces the first and adds no entry.
pub proof fn lemma_same_cell_replaces(
    v: ImpulseCacheView,
    cid1: usize,
    cid2: usize,
    obj1: usize,
    obj2: usize,
    center1: Seq<i64>,
    center2: Seq<i64>,
)
    requires
        cell_of(center1, v.step) == cell_of(center2, v.step),
    ensures
        v.after_insert(cid1, obj1, obj2, center1).after_insert(cid2, obj1, obj2, center2)
            == v.after_insert(cid2, obj1, obj2, center2),
        v.after_insert(cid1, obj1, obj2, center1).next.dom() == v.after_insert(
            cid2,
            obj1,
            obj2,
            center2,
        ).next.dom(),
{
    let a = v.after_insert(cid1, obj1, obj2, center1).after_insert(cid2, obj1, obj2, center2);
    let b = v.after_insert(cid2, obj1, obj2, center2);
    assert(a.next =~= b.next);
    assert(v.after_insert(cid1, obj1, obj2, center1).next.dom() =~= b.next.dom());
}

/// Impulses written into the block handed out by a push are read back at the offset where the
/// block started, once the step has ended.
pub proof fn lemma_pushed_impulses_read_back(v: ImpulseCacheView, values: Seq<i64>)
    requires
        values.len() == v.impulse_per_contact,
    ensures
        ({
            let begin = v.next_impulses.len() as int;
            v.after_push(values).after_swap().prev_impulses.subrange(
                begin,
                begin + v.impulse_per_contact,
            ) == values
        }),
{
    let begin = v.next_impulses.len() as int;
    assert(v.after_push(values).after_swap().prev_impulses.subrange(
        begin,
        begin + v.impulse_per_contact,
    ) =~= values);
}

/// Every operation keeps the grid step and the number of impulses reserved per contact.
pub proof fn lemma_layout_kept(
    v: ImpulseCacheView,
    cid: usize,
    obj1: usize,
    obj2: usize,
    center: Seq<i64>,
    values: Seq<i64>,
)
    ensures
        v.after_insert(cid, obj1, obj2, center).step == v.step,
        v.after_insert(cid, obj1, obj2, center).impulse_per_contact == v.impulse_per_contact,
        v.after_push(values).step == v.step,
        v.after_push(values).impulse_per_contact == v.impulse_per_contact,
        v.after_swap().step == v.step,
        v.after_swap().impulse_per_contact == v.impulse_per_contact,
        v.after_clear().step == v.step,
        v.after_clear().impulse_per_contact == v.impulse_per_contact,
{
}

/// The impulses at offset 0 of the previous step are the reserved block of zeros.
pub proof fn lemma_reserved_block_is_zero(v: ImpulseCacheView)
    requires
        v.reserved_ok(),
    ensures
        v.prev_impulses.subrange(0, v.impulse_per_contact as int) == zeros(v.impulse_per_contact),
{
    assert(v.prev_impulses.subrange(0, v.impulse_per_contact as int) =~= v.prev_impulses.take(
        v.impulse_per_contact as int,
    ));
}

/// A step starts with the reserved block alone: the first block pushed after a swap lands at
/// offset `impulse_per_contact`.
pub proof fn lemma_swap_starts_at_reserved_block(v: ImpulseCacheView)
    requires
        v.reserved_ok(),
    ensures
        v.after_swap().next_impulses == zeros(v.impulse_per_contact),
        v.after_swap().reserved_ok(),
{
    let k = v.impulse_per_contact as int;
    if v.prev_impulses.len() == k {
        assert(v.prev_impulses =~= v.prev_impulses.take(k));
    }
    assert(zeros(v.impulse_per_contact).take(k) =~= zeros(v.impulse_per_contact));
}

/// Two swaps in a row forget both steps: the cache is as freshly built.
pub proof fn lemma_two_swaps_forget(v: ImpulseCacheView)
    requires
        v.reserved_ok(),
    ensures
        v.after_swap().after_swap() == ImpulseCacheView::initial(v.step, v.impulse_per_contact),
{
    lemma_swap_starts_at_reserved_block(v);
    lemma_swap_starts_at_reserved_block(v.after_swap());
    assert(v.after_swap().after_swap().prev =~= Map::<ContactKey, (usize, usize)>::empty());
}

/// The blocks pushed in a step, starting from the reserved block alone, sit one after the
/// other behind it.
proof fn lemma_pushed_blocks_layout(v: ImpulseCacheView, blocks: Seq<Seq<i64>>)
    requires
        v.next_impulses == zeros(v.impulse_per_contact),
        forall|i: int| 0 <= i < blocks.len() ==> #[trigger] blocks[i].len() == v.impulse_per_contact,
    ensures
        v.after_pushes(blocks).next_impulses.len() == v.impulse_per_contact * (blocks.len() + 1),
        v.after_pushes(blocks).next_impulses.subrange(0, v.impulse_per_contact as int) == zeros(
            v.impulse_per_contact,
        ),
        forall|i: int|
            0 <= i < blocks.len() ==> v.after_pushes(blocks).next_impulses.subrange(
                v.impulse_per_contact * (i + 1),
                v.impulse_per_contact * (i + 2),
            ) == #[trigger] blocks[i],
    decreases blocks.len(),
{
    let k = v.impulse_per_contact as int;
    if blocks.len() == 0 {
        assert(v.next_impulses.subrange(0, k) =~= zeros(v.impulse_per_contact));
        assert(k * (blocks.len() + 1) == k) by (nonlinear_arith)
            requires
                blocks.len() == 0,
        ;
    } else {
        let n = blocks.len() - 1;
        let front = blocks.drop_last();
        assert forall|i: int| 0 <= i < front.len() implies #[trigger] front[i].len()
            == v.impulse_per_contact by {
            assert(front[i] == blocks[i]);
        }
        lemma_pushed_blocks_layout(v, front);
        let u = v.after_pushes(front).next_impulses;
        let w = v.after_pushes(blocks).next_impulses;
        assert(w == u + blocks.last());
        assert(blocks.last().len() == k) by {
            assert(blocks[n] == blocks.last());
        }
        assert(u.len() == k * (n + 1));
        assert(k * (n + 1) + k == k * (n + 2)) by (nonlinear_arith);
        assert(w.subrange(0, k) =~= u.subrange(0, k));
        assert forall|i: int| 0 <= i < blocks.len() implies w.subrange(k * (i + 1), k * (i + 2))
            == #[trigger] blocks[i] by {
            assert(k * (i + 1) + k == k * (i + 2)) by (nonlinear_arith);
            if i < n {
                assert(k * (i + 2) <= k * (n + 1)) by (nonlinear_arith)
                    requires
                        i < n,
                        k >= 0,
                ;
                assert(0 <= k * (i + 1)) by (nonlinear_arith)
                    requires
                        i >= 0,
                        k >= 0,
                ;
                assert(w.subrange(k * (i + 1), k * (i + 2)) =~= u.subrange(
                    k * (i + 1),
                    k * (i + 2),
                ));
                assert(front[i] == blocks[i]);
            } else {
                assert(i == n);
                assert(w.subrange(k * (i + 1), k * (i + 2)) =~= blocks.last());
            }
        }
    }
}

/// Blocks pushed in a step that started with the reserved block alone (a fresh cache, or
/// just after a swap) are read back after the next swap in push order, the `i`-th at offset
/// `(i + 1) * impulse_per_contact`, behind the reserved block of zeros at offset 0.
pub proof fn lemma_pushed_blocks_read_back(v: ImpulseCacheView, blocks: Seq<Seq<i64>>)
    requires
        v.next_impulses == zeros(v.impulse_per_contact),
        forall|i: int| 0 <= i < blocks.len() ==> #[trigger] blocks[i].len() == v.impulse_per_contact,
    ensures
        v.after_pushes(blocks).after_swap().prev_impulses.len() == v.impulse_per_contact * (
        blocks.len() + 1),
        v.after_pushes(blocks).after_swap().prev_impulses.subrange(
            0,
            v.impulse_per_contact as int,
        ) == zeros(v.impulse_per_contact),
        forall|i: int|
            0 <= i < blocks.len() ==> v.after_pushes(blocks).after_swap().prev_impulses.subrange(
                v.impulse_per_contact * (i + 1),
                v.impulse_per_contact * (i + 2),
            ) == #[trigger] blocks[i],
{
    lemma_pushed_blocks_layout(v, blocks);
}

/// The offset a contact is recorded with depends only on the previous step: whatever the step
/// being built already holds (other contacts recorded before it, in any order), the contact gets
/// its offset in the previous step, or 0 when the previous step does not hold it.
pub proof fn lemma_offset_depends_only_on_previous_step(
    v: ImpulseCacheView,
    w: ImpulseCacheView,
    cid: usize,
    obj1: usize,
    obj2: usize,
    center: Seq<i64>,
)
    requires
        v.prev == w.prev,
        v.step == w.step,
    ensures
        v.after_insert(cid, obj1, obj2, center).next[v.key(obj1, obj2, center)] == w.after_insert(
            cid,
            obj1,
            obj2,
            center,
        ).next[w.key(obj1, obj2, center)],
        v.after_insert(cid, obj1, obj2, center).next[v.key(obj1, obj2, center)].1 == (if v.prev.contains_key(
            v.key(obj1, obj2, center),
        ) {
            v.prev[v.key(obj1, obj2, center)].1
        } else {
            0
        }),
{
}

/// Recording another contact first does not change what a contact is recorded with.
pub proof fn lemma_insert_order_irrelevant(
    v: ImpulseCacheView,
    cid: usize,
    obj1: usize,
    obj2: usize,
    center: Seq<i64>,
    cid2: usize,
    other1: usize,
    other2: usize,
    center2: Seq<i64>,
)
    requires
        v.key(obj1, obj2, center) != v.key(other1, other2, center2),
    ensures
        v.after_insert(cid2, other1, other2, center2).after_insert(cid, obj1, obj2, center).next[v.key(
            obj1,
            obj2,
            center,
        )] == v.after_insert(cid, obj1, obj2, center).next[v.key(obj1, obj2, center)],
        v.after_insert(cid2, other1, other2, center2).after_insert(cid, obj1, obj2, center).next
            == v.after_insert(cid, obj1, obj2, center).after_insert(cid2, other1, other2, center2).next,
{
    let a = v.after_insert(cid2, other1, other2, center2).after_insert(cid, obj1, obj2, center);
    let b = v.after_insert(cid, obj1, obj2, center).after_insert(cid2, other1, other2, center2);
    assert(a.next =~= b.next);
}

} // verus!
