//! The change emitter: turns actions into the messages a connection pool
//! consumes.
use vstd::prelude::*;

use crate::address::Address;
use crate::reconcile::EndpointAction;

verus! {

/// A message to the connection pool, keyed by address. An insert carries the
/// connection descriptor built for the address.
#[derive(Debug)]
pub enum Change<D> {
    Insert(Address, D),
    Remove(Address),
}

/// `change` is the message for `action` when descriptors come from `build`.
pub open spec fn is_change_for<D, F: Fn(Address) -> D>(
    action: EndpointAction,
    change: Change<D>,
    build: F,
) -> bool {
    match action {
        EndpointAction::Insert(a) => change matches Change::Insert(k, d) && k == a && build.ensures(
            (a,),
            d,
        ),
        EndpointAction::Remove(a) => change matches Change::Remove(k) && k == a,
    }
}

/// The messages for `actions`, one each and in the same order; `build` is
/// called once for every insert.
pub fn changes_for<D, F: Fn(Address) -> D>(actions: &Vec<EndpointAction>, build: &F) -> (r: Vec<
    Change<D>,
>)
    requires
        forall|a: Address| #[trigger] build.requires((a,)),
    ensures
        r.len() == actions.len(),
        forall|i: int| 0 <= i < actions.len() ==> is_change_for(actions@[i], #[trigger] r@[i], *build),
{
    let mut r: Vec<Change<D>> = Vec::new();
    let mut i: usize = 0;
    while i < actions.len()
        invariant
            i <= actions.len(),
            r.len() == i,
            forall|a: Address| #[trigger] build.requires((a,)),
            forall|j: int| 0 <= j < i ==> is_change_for(actions@[j], #[trigger] r@[j], *build),
        decreases actions.len() - i,
    {
        let change = match actions[i] {
            EndpointAction::Insert(a) => Change::Insert(a, build(a)),
            EndpointAction::Remove(a) => Change::Remove(a),
        };
        r.push(change);
        i = i + 1;
    }
    r
}

} // verus!
