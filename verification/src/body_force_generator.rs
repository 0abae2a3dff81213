//! A generator that keeps a constant linear and angular acceleration on the bodies it acts on.
use vstd::prelude::*;

use crate::signal::{registered_handlers, SignalEmiter};
use crate::body::{has_key, inserted, removed, BodyKind, BodyRef, BodyRegistry};

verus! {

/// An acceleration to write into a body: both accelerations of a rigid body, or the (linear)
/// acceleration of a soft body.
pub enum AccWrite<LV, AV> {
    Rigid { body: usize, lin_acc: LV, ang_acc: AV },
    Soft { body: usize, acc: LV },
}

/// What a generator with these accelerations writes into `body`.
pub open spec fn acc_write<LV, AV>(body: BodyRef, lin_acc: LV, ang_acc: AV) -> AccWrite<LV, AV> {
    match body.kind {
        BodyKind::Rigid => AccWrite::Rigid { body: body.key, lin_acc, ang_acc },
        BodyKind::Soft => AccWrite::Soft { body: body.key, acc: lin_acc },
    }
}

/// The key of the body that a write goes to.
pub open spec fn write_target<LV, AV>(w: AccWrite<LV, AV>) -> usize {
    match w {
        AccWrite::Rigid { body, .. } => body,
        AccWrite::Soft { body, .. } => body,
    }
}

/// What a generator with these accelerations writes into each of `bodies`, in order.
pub open spec fn acc_writes<LV, AV>(bodies: Seq<BodyRef>, lin_acc: LV, ang_acc: AV) -> Seq<
    AccWrite<LV, AV>,
> {
    bodies.map_values(|b: BodyRef| acc_write(b, lin_acc, ang_acc))
}

/// Applies a linear and an angular acceleration to the bodies it acts on.
pub struct BodyForceGenerator<LV, AV> {
    objects: BodyRegistry,
    lin_acc: LV,
    ang_acc: AV,
}

impl<LV: Copy, AV: Copy> BodyForceGenerator<LV, AV> {
    /// The bodies it acts on.
    pub closed spec fn registered(&self) -> BodyRegistry {
        self.objects
    }

    /// The linear acceleration it applies.
    pub closed spec fn linear_acceleration(&self) -> LV {
        self.lin_acc
    }

    /// The angular acceleration it applies.
    pub closed spec fn angular_acceleration(&self) -> AV {
        self.ang_acc
    }

    /// Well-formedness: its registry is well-formed.
    pub open spec fn wf(&self) -> bool {
        self.registered().wf()
    }

    /// A generator of these accelerations, acting on no body yet, registered with `events` as
    /// the activation handler with key `handler`.
    pub fn new(events: &mut SignalEmiter, handler: usize, lin_acc: LV, ang_acc: AV) -> (res: Self)
        requires
            old(events).wf(),
        ensures
            final(events).wf(),
            final(events).activation_handlers() == registered_handlers(
                old(events).activation_handlers(),
                handler,
            ),
            res.wf(),
            res.registered()@ == Map::<usize, BodyKind>::empty(),
            res.registered().entries().len() == 0,
            res.linear_acceleration() == lin_acc,
            res.angular_acceleration() == ang_acc,
    {
        let res = BodyForceGenerator { objects: BodyRegistry::new(), lin_acc, ang_acc };
        events.add_body_activation_handler(handler);
        res
    }

    /// The bodies it acts on.
    pub fn bodies(&self) -> (res: &BodyRegistry)
        ensures
            *res == self.registered(),
    {
        &self.objects
    }

    /// The linear acceleration it applies.
    pub fn lin_acc(&self) -> (res: LV)
        ensures
            res == self.linear_acceleration(),
    {
        self.lin_acc
    }

    /// The angular acceleration it applies.
    pub fn ang_acc(&self) -> (res: AV)
        ensures
            res == self.angular_acceleration(),
    {
        self.ang_acc
    }

    /// What it writes into `o`.
    fn write_accs_to(&self, o: BodyRef) -> (res: AccWrite<LV, AV>)
        ensures
            res == acc_write(o, self.linear_acceleration(), self.angular_acceleration()),
    {
        match o.kind {
            BodyKind::Rigid => AccWrite::Rigid { body: o.key, lin_acc: self.lin_acc, ang_acc: self.ang_acc },
            BodyKind::Soft => AccWrite::Soft { body: o.key, acc: self.lin_acc },
        }
    }

    /// What it writes into each body it acts on, in order.
    fn write_accs_to_all(&self) -> (res: Vec<AccWrite<LV, AV>>)
        ensures
            res@ == acc_writes(
                self.registered().entries(),
                self.linear_acceleration(),
                self.angular_acceleration(),
            ),
    {
        let n = self.objects.len();
        let mut res: Vec<AccWrite<LV, AV>> = Vec::with_capacity(n);
        for i in 0..n
            invariant
                n == self.objects.entries().len(),
                res@ =~= acc_writes(self.objects.entries().take(i as int), self.lin_acc, self.ang_acc),
        {
            let o = self.objects.get(i);
            let w = self.write_accs_to(o);
            res.push(w);
            assert(self.objects.entries().take(i + 1) =~= self.objects.entries().take(i as int).push(o));
        }
        assert(self.objects.entries().take(n as int) =~= self.objects.entries());
        res
    }

    /// Changes the linear acceleration; returns what to write into each body it acts on.
    pub fn set_lin_acc(&mut self, lin_acc: LV) -> (res: Vec<AccWrite<LV, AV>>)
        ensures
            final(self).registered() == old(self).registered(),
            final(self).linear_acceleration() == lin_acc,
            final(self).angular_acceleration() == old(self).angular_acceleration(),
            old(self).wf() ==> final(self).wf(),
            res@ == acc_writes(old(self).registered().entries(), lin_acc, old(self).angular_acceleration()),
    {
        self.lin_acc = lin_acc;
        self.write_accs_to_all()
    }

    /// Changes the angular acceleration; returns what to write into each body it acts on.
    pub fn set_ang_acc(&mut self, ang_acc: AV) -> (res: Vec<AccWrite<LV, AV>>)
        ensures
            final(self).registered() == old(self).registered(),
            final(self).linear_acceleration() == old(self).linear_acceleration(),
            final(self).angular_acceleration() == ang_acc,
            old(self).wf() ==> final(self).wf(),
            res@ == acc_writes(old(self).registered().entries(), old(self).linear_acceleration(), ang_acc),
    {
        self.ang_acc = ang_acc;
        self.write_accs_to_all()
    }

    /// Starts acting on `o`; returns what to write into it.
    pub fn add(&mut self, o: BodyRef) -> (res: AccWrite<LV, AV>)
        requires
            old(self).wf(),
        ensures
            final(self).wf(),
            final(self).registered()@ == old(self).registered()@.insert(o.key, o.kind),
            final(self).registered().entries() == inserted(old(self).registered().entries(), o),
            final(self).linear_acceleration() == old(self).linear_acceleration(),
            final(self).angular_acceleration() == old(self).angular_acceleration(),
            res == acc_write(o, old(self).linear_acceleration(), old(self).angular_acceleration()),
    {
        self.objects.insert(o);
        self.write_accs_to(o)
    }

    /// Stops acting on the body with key `o`.
    pub fn remove(&mut self, o: usize)
        requires
            old(self).wf(),
        ensures
            final(self).wf(),
            final(self).registered()@ == old(self).registered()@.remove(o),
            final(self).registered().entries() == removed(old(self).registered().entries(), o),
            !has_key(final(self).registered().entries(), o),
            final(self).linear_acceleration() == old(self).linear_acceleration(),
            final(self).angular_acceleration() == old(self).angular_acceleration(),
    {
        self.objects.remove(o);
    }

    /// A time step: the accelerations are already written, so nothing changes.
    pub fn update<N>(&mut self, _dt: N)
        ensures
            *final(self) == *old(self),
    {
    }

    /// A body became active: it is acted on from now on. Returns what to write into it.
    pub fn handle_body_activated_signal<C>(&mut self, b: BodyRef, _contacts: &mut Vec<C>) -> (res:
        AccWrite<LV, AV>)
        requires
            old(self).wf(),
        ensures
            final(self).wf(),
            final(self).registered()@ == old(self).registered()@.insert(b.key, b.kind),
            final(self).registered().entries() == inserted(old(self).registered().entries(), b),
            final(self).linear_acceleration() == old(self).linear_acceleration(),
            final(self).angular_acceleration() == old(self).angular_acceleration(),
            res == acc_write(b, old(self).linear_acceleration(), old(self).angular_acceleration()),
            final(_contacts)@ == old(_contacts)@,
    {
        self.add(b)
    }

    /// A body became inactive: it is no longer acted on.
    pub fn handle_body_deactivated_signal(&mut self, b: usize)
        requires
            old(self).wf(),
        ensures
            final(self).wf(),
            final(self).registered()@ == old(self).registered()@.remove(b),
            final(self).registered().entries() == removed(old(self).registered().entries(), b),
            !has_key(final(self).registered().entries(), b),
            final(self).linear_acceleration() == old(self).linear_acceleration(),
            final(self).angular_acceleration() == old(self).angular_acceleration(),
    {
        self.remove(b)
    }
}

/// A body that is not registered receives no write, and a registered body receives exactly one.
pub proof fn lemma_writes_reach_registered_bodies_once<LV, AV>(
    bodies: Seq<BodyRef>,
    key: usize,
    lin_acc: LV,
    ang_acc: AV,
)
    requires
        forall|i: int, j: int|
            0 <= i < bodies.len() && 0 <= j < bodies.len() && i != j ==> #[trigger] bodies[i].key
                != #[trigger] bodies[j].key,
    ensures
        !has_key(bodies, key) ==> forall|i: int|
            0 <= i < bodies.len() ==> write_target(
                #[trigger] acc_writes(bodies, lin_acc, ang_acc)[i],
            ) != key,
        forall|i: int, j: int|
            0 <= i < bodies.len() && 0 <= j < bodies.len() && i != j ==> write_target(
                #[trigger] acc_writes(bodies, lin_acc, ang_acc)[i],
            ) != write_target(#[trigger] acc_writes(bodies, lin_acc, ang_acc)[j]),
{
    assert forall|i: int| 0 <= i < bodies.len() implies write_target(
        #[trigger] acc_writes(bodies, lin_acc, ang_acc)[i],
    ) == bodies[i].key by {}
    if !has_key(bodies, key) {
        assert forall|i: int| 0 <= i < bodies.len() implies write_target(
            #[trigger] acc_writes(bodies, lin_acc, ang_acc)[i],
        ) != key by {
            assert(write_target(acc_writes(bodies, lin_acc, ang_acc)[i]) == bodies[i].key);
        }
    }
    assert forall|i: int, j: int|
        0 <= i < bodies.len() && 0 <= j < bodies.len() && i != j implies write_target(
        #[trigger] acc_writes(bodies, lin_acc, ang_acc)[i],
    ) != write_target(#[trigger] acc_writes(bodies, lin_acc, ang_acc)[j]) by {
        assert(write_target(acc_writes(bodies, lin_acc, ang_acc)[i]) == bodies[i].key);
        assert(write_target(acc_writes(bodies, lin_acc, ang_acc)[j]) == bodies[j].key);
    }
}

} // verus!
