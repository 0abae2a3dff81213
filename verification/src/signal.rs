//! The emitter of body activation signals: which handlers are told when a body becomes active
//! or inactive. Handlers are known by a key; the owner of the handlers delivers the signals.
use vstd::prelude::*;

verus! {

/// `handlers` after registering the handler with this key: a handler is registered once, and a
/// new one comes last.
pub open spec fn registered_handlers(handlers: Seq<usize>, key: usize) -> Seq<usize> {
    if handlers.contains(key) {
        handlers
    } else {
        handlers.push(key)
    }
}

/// The handlers registered for body activation signals, in registration order.
pub struct SignalEmiter {
    activation_handlers: Vec<usize>,
}

impl SignalEmiter {
    /// The keys of the registered activation handlers, in order.
    pub closed spec fn activation_handlers(&self) -> Seq<usize> {
        self.activation_handlers@
    }

    /// Well-formedness: no handler is registered twice.
    pub open spec fn wf(&self) -> bool {
        self.activation_handlers().no_duplicates()
    }

    /// An emitter with no handler.
    pub fn new() -> (res: SignalEmiter)
        ensures
            res.wf(),
            res.activation_handlers() == Seq::<usize>::empty(),
    {
        SignalEmiter { activation_handlers: Vec::new() }
    }

    /// Registers the activation handler with this key.
    pub fn add_body_activation_handler(&mut self, key: usize)
        requires
            old(self).wf(),
        ensures
            final(self).wf(),
            final(self).activation_handlers() == registered_handlers(
                old(self).activation_handlers(),
                key,
            ),
    {
        let n = self.activation_handlers.len();
        for i in 0..n
            invariant
                n == self.activation_handlers@.len(),
                self.activation_handlers@ == old(self).activation_handlers@,
                old(self).wf(),
                forall|j: int| 0 <= j < i ==> self.activation_handlers@[j] != key,
        {
            if self.activation_handlers[i] == key {
                assert(old(self).activation_handlers@.contains(key));
                return;
            }
        }
        assert(!old(self).activation_handlers@.contains(key));
        self.activation_handlers.push(key);
        assert forall|a: int, b: int|
            0 <= a < self.activation_handlers@.len() && 0 <= b < self.activation_handlers@.len()
                && a != b implies self.activation_handlers@[a] != self.activation_handlers@[b] by {
            if a == n || b == n {
                if a < n {
                    assert(old(self).activation_handlers@[a] != key);
                }
                if b < n {
                    assert(old(self).activation_handlers@[b] != key);
                }
            }
        }
    }

    /// The number of registered activation handlers.
    pub fn num_activation_handlers(&self) -> (res: usize)
        ensures
            res == self.activation_handlers().len(),
    {
        self.activation_handlers.len()
    }

    /// The key of the activation handler at position `i`.
    pub fn activation_handler(&self, i: usize) -> (res: usize)
        requires
            i < self.activation_handlers().len(),
        ensures
            res == self.activation_handlers()[i as int],
    {
        self.activation_handlers[i]
    }
}

} // verus!
