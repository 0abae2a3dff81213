//! The registry of a semi-implicit Euler integrator: which bodies each step integrates.
use vstd::prelude::*;

use crate::signal::{registered_handlers, SignalEmiter};
use crate::body::{has_key, inserted, removed, BodyKind, BodyRef, BodyRegistry};

verus! {

/// Integrates the motion of the rigid bodies it acts on with semi-implicit Euler steps.
pub struct BodySmpEulerIntegrator {
    objects: BodyRegistry,
}

impl BodySmpEulerIntegrator {
    /// The bodies it acts on.
    pub closed spec fn registered(&self) -> BodyRegistry {
        self.objects
    }

    /// Well-formedness: its registry is well-formed.
    pub open spec fn wf(&self) -> bool {
        self.registered().wf()
    }

    /// An integrator acting on no body yet, registered with `events` as the activation handler
    /// with key `handler`.
    pub fn new(events: &mut SignalEmiter, handler: usize) -> (res: Self)
        requires
            old(events).wf(),
        ensures
            final(events).wf(),
            final(events).activation_handlers() == registered_handlers(
                old(events).activation_handlers(),
                handler,
            ),
            res.wf(),
            res.registered()@ == Map::<usize, BodyKind>::empty(),
            res.registered().entries().len() == 0,
    {
        let res = BodySmpEulerIntegrator { objects: BodyRegistry::new() };
        events.add_body_activation_handler(handler);
        res
    }

    /// The bodies it acts on.
    pub fn bodies(&self) -> (res: &BodyRegistry)
        ensures
            *res == self.registered(),
    {
        &self.objects
    }

    /// Starts integrating `o`.
    pub fn add(&mut self, o: BodyRef)
        requires
            old(self).wf(),
        ensures
            final(self).wf(),
            final(self).registered()@ == old(self).registered()@.insert(o.key, o.kind),
            final(self).registered().entries() == inserted(old(self).registered().entries(), o),
    {
        self.objects.insert(o);
    }

    /// Stops integrating the body with key `o`.
    pub fn remove(&mut self, o: usize)
        requires
            old(self).wf(),
        ensures
            final(self).wf(),
            final(self).registered()@ == old(self).registered()@.remove(o),
            final(self).registered().entries() == removed(old(self).registered().entries(), o),
            !has_key(final(self).registered().entries(), o),
    {
        self.objects.remove(o);
    }

    /// The keys of the bodies that a step integrates, in order. Only rigid bodies can be
    /// integrated.
    pub fn rigid_bodies(&self) -> (res: Vec<usize>)
        requires
            forall|i: int|
                0 <= i < self.registered().entries().len() ==> #[trigger] self.registered().entries()[i].kind
                    == BodyKind::Rigid,
        ensures
            res@ == self.registered().entries().map_values(|b: BodyRef| b.key),
            self.wf() ==> res@.no_duplicates(),
            forall|key: usize| !has_key(self.registered().entries(), key) ==> !res@.contains(key),
    {
        let n = self.objects.len();
        let mut res: Vec<usize> = Vec::with_capacity(n);
        for i in 0..n
            invariant
                n == self.objects.entries().len(),
                res@ =~= self.objects.entries().take(i as int).map_values(|b: BodyRef| b.key),
        {
            let o = self.objects.get(i);
            res.push(o.key);
            assert(self.objects.entries().take(i + 1) =~= self.objects.entries().take(i as int).push(o));
        }
        assert(self.objects.entries().take(n as int) =~= self.objects.entries());
        assert forall|key: usize| !has_key(self.registered().entries(), key) implies !res@.contains(key) by {
            if res@.contains(key) {
                let j = choose|j: int| 0 <= j < res@.len() && res@[j] == key;
                assert(self.objects.entries()[j].key == key);
            }
        }
        res
    }

    /// A body became active: it is integrated from now on.
    pub fn handle_body_activated_signal<C>(&mut self, b: BodyRef, _contacts: &mut Vec<C>)
        requires
            old(self).wf(),
        ensures
            final(self).wf(),
            final(self).registered()@ == old(self).registered()@.insert(b.key, b.kind),
            final(self).registered().entries() == inserted(old(self).registered().entries(), b),
            final(_contacts)@ == old(_contacts)@,
    {
        self.add(b)
    }

    /// A body became inactive: it is no longer integrated.
    pub fn handle_body_deactivated_signal(&mut self, b: usize)
        requires
            old(self).wf(),
        ensures
            final(self).wf(),
            final(self).registered()@ == old(self).registered()@.remove(b),
            final(self).registered().entries() == removed(old(self).registered().entries(), b),
            !has_key(final(self).registered().entries(), b),
    {
        self.remove(b)
    }
}

} // verus!
