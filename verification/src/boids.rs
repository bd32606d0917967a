use vstd::prelude::*;

use crate::boid_store::{added, updated, BoidStore, Placed};
use crate::cell::Cell;

verus! {

/// Whether the flock has been put into the world yet.
#[derive(Clone, Copy, Debug, PartialEq, Eq, Structural)]
pub enum BoidInitState {
    Uninitialized,
    Initialized,
}

impl Default for BoidInitState {
    fn default() -> (s: Self)
        ensures
            s == BoidInitState::Uninitialized,
    {
        BoidInitState::Uninitialized
    }
}

impl BoidInitState {
    /// Claims the one-time setup. The first call answers `true` and every
    /// later one `false`; after any call the state is `Initialized`.
    pub fn begin(&mut self) -> (first: bool)
        ensures
            first == (*old(self) == BoidInitState::Uninitialized),
            *final(self) == BoidInitState::Initialized,
    {
        let first = match *self {
            BoidInitState::Uninitialized => true,
            BoidInitState::Initialized => false,
        };
        *self = BoidInitState::Initialized;
        first
    }
}

/// One agent as the world reports it: who it is, which cell its position
/// falls into, and its position and velocity.
#[derive(Clone, Copy, Debug, PartialEq)]
pub struct Sighting<V> {
    pub entity: u64,
    pub cell: Cell,
    pub position: V,
    pub velocity: V,
}

/// The records after every sighting of `seen` has been registered in turn.
pub open spec fn all_added<V>(m: Map<u64, Placed<V>>, seen: Seq<Sighting<V>>) -> Map<
    u64,
    Placed<V>,
>
    decreases seen.len(),
{
    if seen.len() == 0 {
        m
    } else {
        let s = seen.last();
        added(all_added(m, seen.drop_last()), s.entity, s.cell, s.position, s.velocity)
    }
}

/// The identifiers of the sightings of `seen` that could not be registered,
/// because the agent was known by the time its turn came.
pub open spec fn refused_adds<V>(m: Map<u64, Placed<V>>, seen: Seq<Sighting<V>>) -> Seq<u64>
    decreases seen.len(),
{
    if seen.len() == 0 {
        Seq::empty()
    } else {
        let before = refused_adds(m, seen.drop_last());
        if all_added(m, seen.drop_last()).contains_key(seen.last().entity) {
            before.push(seen.last().entity)
        } else {
            before
        }
    }
}

/// The records after every sighting of `seen` has been applied in turn as
/// a move.
pub open spec fn all_updated<V>(m: Map<u64, Placed<V>>, seen: Seq<Sighting<V>>) -> Map<
    u64,
    Placed<V>,
>
    decreases seen.len(),
{
    if seen.len() == 0 {
        m
    } else {
        let s = seen.last();
        updated(all_updated(m, seen.drop_last()), s.entity, s.cell, s.position, s.velocity)
    }
}

/// The identifiers of the sightings of `seen` that name no registered agent.
pub open spec fn refused_updates<V>(m: Map<u64, Placed<V>>, seen: Seq<Sighting<V>>) -> Seq<u64>
    decreases seen.len(),
{
    if seen.len() == 0 {
        Seq::empty()
    } else {
        let before = refused_updates(m, seen.drop_last());
        if all_updated(m, seen.drop_last()).contains_key(seen.last().entity) {
            before
        } else {
            before.push(seen.last().entity)
        }
    }
}

/// Registers every agent of `seen`, in order. An agent that is already
/// known is left as it is and its identifier is reported back.
pub fn track_boids<V>(boid_store: &mut BoidStore<V>, seen: Vec<Sighting<V>>) -> (refused: Vec<u64>)
    ensures
        final(boid_store)@ == all_added(old(boid_store)@, seen@),
        refused@ == refused_adds(old(boid_store)@, seen@),
        final(boid_store).well_indexed(),
{
    let mut refused: Vec<u64> = Vec::new();
    let ghost all = seen@;
    let ghost start = boid_store@;
    proof {
        use_type_invariant(&*boid_store);
        boid_store.lemma_inv_well_indexed();
    }
    for s in it: seen.into_iter()
        invariant
            it.seq() == all,
            boid_store@ == all_added(start, all.take(it.index())),
            refused@ == refused_adds(start, all.take(it.index())),
            boid_store.well_indexed(),
    {
        proof {
            let now = all.take(it.index() + 1);
            assert(now.drop_last() == all.take(it.index()));
        }
        let id = s.entity;
        match boid_store.add_boid(id, s.cell, s.position, s.velocity) {
            Ok(_) => {},
            Err(_) => {
                refused.push(id);
            },
        }
    }
    proof {
        assert(all.take(all.len() as int) == all);
    }
    refused
}

/// Applies every sighting of `changed`, in order, as a move of its agent.
/// A sighting of an agent that is not registered changes nothing and its
/// identifier is reported back.
pub fn update_stored_info<V>(store: &mut BoidStore<V>, changed: Vec<Sighting<V>>) -> (refused: Vec<
    u64,
>)
    ensures
        final(store)@ == all_updated(old(store)@, changed@),
        refused@ == refused_updates(old(store)@, changed@),
        final(store).well_indexed(),
{
    let mut refused: Vec<u64> = Vec::new();
    let ghost all = changed@;
    let ghost start = store@;
    proof {
        use_type_invariant(&*store);
        store.lemma_inv_well_indexed();
    }
    for s in it: changed.into_iter()
        invariant
            it.seq() == all,
            store@ == all_updated(start, all.take(it.index())),
            refused@ == refused_updates(start, all.take(it.index())),
            store.well_indexed(),
    {
        proof {
            let now = all.take(it.index() + 1);
            assert(now.drop_last() == all.take(it.index()));
        }
        let id = s.entity;
        match store.update_boid(id, s.cell, s.position, s.velocity) {
            Ok(_) => {},
            Err(_) => {
                refused.push(id);
            },
        }
    }
    proof {
        assert(all.take(all.len() as int) == all);
    }
    refused
}

} // verus!
