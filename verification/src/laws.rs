use vstd::prelude::*;

use crate::boid_store::{added, members, neighbors, updated, BoidStore, Placed};
use crate::boids::{all_added, all_updated, Sighting};
use crate::cell::Cell;

verus! {

/// In a store whose index agrees with its records, an identifier is in the
/// set of a cell exactly when it is registered and recorded in that cell.
pub proof fn lemma_indexed_where_recorded<V>(store: BoidStore<V>, id: u64, cell: Cell)
    requires
        store.well_indexed(),
    ensures
        store.cell_set(cell).contains(id) <==> store@.contains_key(id) && store@[id].cell == cell,
{
}

/// In a store whose index agrees with its records, no identifier is in the
/// sets of two cells, and every registered one is in the set of some cell.
pub proof fn lemma_exactly_one_cell<V>(store: BoidStore<V>, id: u64, a: Cell, b: Cell)
    requires
        store.well_indexed(),
    ensures
        store.cell_set(a).contains(id) && store.cell_set(b).contains(id) ==> a == b,
        store@.contains_key(id) ==> store.cell_set(store@[id].cell).contains(id),
        store.cell_set(a).contains(id) ==> store@.contains_key(id),
{
    lemma_indexed_where_recorded(store, id, a);
    lemma_indexed_where_recorded(store, id, b);
    if store@.contains_key(id) {
        lemma_indexed_where_recorded(store, id, store@[id].cell);
    }
}

/// The neighbours of a cell are the members of the nine cells of the block
/// around it, and of no other cell.
pub proof fn lemma_neighbors_are_block_members<V>(m: Map<u64, Placed<V>>, cell: Cell, id: u64)
    ensures
        neighbors(m, cell).contains(id) <==> exists|near: Cell|
            cell.adjacent(near) && #[trigger] members(m, near).contains(id),
{
    if neighbors(m, cell).contains(id) {
        assert(members(m, m[id].cell).contains(id));
    }
}

/// Moving an agent a second time with the arguments of the first move
/// changes nothing: the records are the same, and so is every cell's set.
pub proof fn lemma_update_twice<V>(
    m: Map<u64, Placed<V>>,
    entity: u64,
    cell: Cell,
    position: V,
    velocity: V,
)
    ensures
        updated(updated(m, entity, cell, position, velocity), entity, cell, position, velocity)
            == updated(m, entity, cell, position, velocity),
        forall|c: Cell|
            members(
                updated(
                    updated(m, entity, cell, position, velocity),
                    entity,
                    cell,
                    position,
                    velocity,
                ),
                c,
            ) == #[trigger] members(updated(m, entity, cell, position, velocity), c),
{
}

/// A move that stays in the agent's cell leaves every cell's set as it was,
/// whatever the new position and velocity are.
pub proof fn lemma_update_in_place<V>(
    m: Map<u64, Placed<V>>,
    entity: u64,
    position: V,
    velocity: V,
    c: Cell,
)
    requires
        m.contains_key(entity),
    ensures
        members(updated(m, entity, m[entity].cell, position, velocity), c) == members(m, c),
{
    assert(members(updated(m, entity, m[entity].cell, position, velocity), c) =~= members(m, c));
}

/// A move puts the agent into the set of its new cell and of no other, and
/// leaves every other agent where it was.
pub proof fn lemma_update_moves_one<V>(
    m: Map<u64, Placed<V>>,
    entity: u64,
    cell: Cell,
    position: V,
    velocity: V,
    other: u64,
    c: Cell,
)
    requires
        m.contains_key(entity),
    ensures
        members(updated(m, entity, cell, position, velocity), c).contains(entity) <==> c == cell,
        other != entity ==> (members(updated(m, entity, cell, position, velocity), c).contains(
            other,
        ) <==> members(m, c).contains(other)),
{
}

/// Registering an agent that is already known changes nothing.
pub proof fn lemma_add_known<V>(
    m: Map<u64, Placed<V>>,
    entity: u64,
    cell: Cell,
    position: V,
    velocity: V,
)
    requires
        m.contains_key(entity),
    ensures
        added(m, entity, cell, position, velocity) == m,
{
}

/// An agent with no other agent in the block around its own cell has
/// itself as its only neighbour.
pub proof fn lemma_alone_in_block<V>(m: Map<u64, Placed<V>>, entity: u64)
    requires
        m.contains_key(entity),
        forall|id: u64|
            #[trigger] m.contains_key(id) && id != entity ==> !m[entity].cell.adjacent(m[id].cell),
    ensures
        neighbors(m, m[entity].cell) == set![entity],
{
}

/// Moving agents neither registers nor forgets any: after a batch of moves
/// the registered agents are those from before.
pub proof fn lemma_all_updated_keeps_agents<V>(m: Map<u64, Placed<V>>, seen: Seq<Sighting<V>>)
    ensures
        all_updated(m, seen).dom() == m.dom(),
    decreases seen.len(),
{
    if seen.len() > 0 {
        lemma_all_updated_keeps_agents(m, seen.drop_last());
        assert(all_updated(m, seen).dom() =~= all_updated(m, seen.drop_last()).dom());
    }
}

/// After a batch of registrations every agent of the batch is registered,
/// and so is every agent that was registered before.
pub proof fn lemma_all_added_registers<V>(m: Map<u64, Placed<V>>, seen: Seq<Sighting<V>>, id: u64)
    ensures
        all_added(m, seen).contains_key(id) <==> m.contains_key(id) || exists|i: int|
            0 <= i < seen.len() && #[trigger] seen[i].entity == id,
    decreases seen.len(),
{
    if seen.len() > 0 {
        let init = seen.drop_last();
        lemma_all_added_registers(m, init, id);
        if exists|i: int| 0 <= i < init.len() && #[trigger] init[i].entity == id {
            let i = choose|i: int| 0 <= i < init.len() && #[trigger] init[i].entity == id;
            assert(seen[i].entity == id);
        }
        if exists|i: int| 0 <= i < seen.len() && #[trigger] seen[i].entity == id {
            let i = choose|i: int| 0 <= i < seen.len() && #[trigger] seen[i].entity == id;
            if i < init.len() {
                assert(init[i].entity == id);
            }
        }
    }
}

} // verus!
