//! A registry of binary operations on `u32`, looked up by name.
use vstd::prelude::*;

verus! {

/// The names under which operations are registered.
#[derive(Clone, Copy, Debug, PartialEq, Eq, Structural)]
pub enum OperationId {
    Addition,
    Multiplication,
}

/// The slot that holds the operation registered under `id`.
pub open spec fn slot_of(id: OperationId) -> int {
    match id {
        OperationId::Addition => 0,
        OperationId::Multiplication => 1,
    }
}

fn slot_index(id: OperationId) -> (r: usize)
    ensures
        r == slot_of(id),
{
    match id {
        OperationId::Addition => 0,
        OperationId::Multiplication => 1,
    }
}

/// Binary operations, at most one registered under each name; a later
/// registration under a name replaces the earlier one.
pub struct ArithmeticOperations<F: Fn(u32, u32) -> u32> {
    operation_by_id: Vec<Option<F>>,
}

impl<F: Fn(u32, u32) -> u32> ArithmeticOperations<F> {
    /// Each name has its slot.
    pub closed spec fn wf(&self) -> bool {
        self.operation_by_id@.len() == 2
    }

    /// The operation registered under `id`, if any.
    pub closed spec fn registered(&self, id: OperationId) -> Option<F> {
        self.operation_by_id@[slot_of(id)]
    }

    /// A registry with no operation.
    pub fn new() -> (r: ArithmeticOperations<F>)
        ensures
            r.wf(),
            forall|id: OperationId| #[trigger] r.registered(id) is None,
    {
        let mut operation_by_id: Vec<Option<F>> = Vec::new();
        operation_by_id.push(None);
        operation_by_id.push(None);
        ArithmeticOperations { operation_by_id }
    }

    /// Registers `code` under `operation`, replacing what was there.
    pub fn add(&mut self, operation: OperationId, code: F)
        requires
            old(self).wf(),
        ensures
            final(self).wf(),
            final(self).registered(operation) == Some(code),
            forall|id: OperationId| id != operation ==> #[trigger] final(self).registered(id)
                == old(self).registered(id),
    {
        let i = slot_index(operation);
        self.operation_by_id.set(i, Some(code));
        proof {
            assert forall|id: OperationId| id != operation implies #[trigger] self.registered(id)
                == old(self).registered(id) by {
                assert(slot_of(id) != slot_of(operation));
            }
        }
    }

    /// The operation registered under `operation_by_id` applied to `a` and
    /// `b`, or nothing where none is registered.
    pub fn execute(&self, operation_by_id: OperationId, a: u32, b: u32) -> (r: Option<u32>)
        requires
            self.wf(),
            self.registered(operation_by_id) matches Some(f) ==> f.requires((a, b)),
        ensures
            r is None <==> self.registered(operation_by_id) is None,
            r matches Some(v) ==> self.registered(operation_by_id)->Some_0.ensures((a, b), v),
    {
        let i = slot_index(operation_by_id);
        match &self.operation_by_id[i] {
            None => None,
            Some(func) => Some(func(a, b)),
        }
    }
}

} // verus!
