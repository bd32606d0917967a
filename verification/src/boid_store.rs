use std::collections::hash_map::Entry;
use std::collections::HashMap;
use std::collections::HashSet;
use vstd::prelude::*;
use vstd::std_specs::hash::*;
use vstd::std_specs::iter::IteratorSpec;

use crate::cell::Cell;

verus! {

/// What the store hands out for one agent: its identifier and the position
/// and velocity it was last registered or moved with. The vector type `V`
/// is the caller's; the store carries such values and never reads them.
#[derive(Clone, Copy, Debug, PartialEq)]
pub struct BoidWrapper<V> {
    pub entity: u64,
    pub position: V,
    pub velocity: V,
}

/// An agent's state together with the cell it is indexed under.
#[derive(Clone, Copy, Debug, PartialEq)]
pub struct Placed<V> {
    pub cell: Cell,
    pub boid: BoidWrapper<V>,
}

/// Why the store refused an operation.
#[derive(Clone, Copy, Debug, PartialEq, Eq, Structural)]
pub enum StoreError {
    /// The agent to register is registered already.
    AlreadyPresent,
    /// The agent to move or forget is not registered.
    NotFound,
}

/// The record that `entity` has after being placed in `cell`.
pub open spec fn placed<V>(entity: u64, cell: Cell, position: V, velocity: V) -> Placed<V> {
    Placed { cell, boid: BoidWrapper { entity, position, velocity } }
}

/// The agents of `m` that lie in `cell`.
pub open spec fn members<V>(m: Map<u64, Placed<V>>, cell: Cell) -> Set<u64> {
    Set::new(|id: u64| m.contains_key(id) && m[id].cell == cell)
}

/// The agents of `m` that lie in `cell` or in one of the eight cells around it.
pub open spec fn neighbors<V>(m: Map<u64, Placed<V>>, cell: Cell) -> Set<u64> {
    Set::new(|id: u64| m.contains_key(id) && cell.adjacent(m[id].cell))
}

/// Registering an agent: a new identifier gets its record, a known one
/// leaves everything as it was.
pub open spec fn added<V>(
    m: Map<u64, Placed<V>>,
    entity: u64,
    cell: Cell,
    position: V,
    velocity: V,
) -> Map<u64, Placed<V>> {
    if m.contains_key(entity) {
        m
    } else {
        m.insert(entity, placed(entity, cell, position, velocity))
    }
}

/// Moving an agent: a known identifier gets the new record, an unknown one
/// leaves everything as it was.
pub open spec fn updated<V>(
    m: Map<u64, Placed<V>>,
    entity: u64,
    cell: Cell,
    position: V,
    velocity: V,
) -> Map<u64, Placed<V>> {
    if m.contains_key(entity) {
        m.insert(entity, placed(entity, cell, position, velocity))
    } else {
        m
    }
}

/// The agents of a flock, each with its last position and velocity, and an
/// index from grid cells to the agents that lie in them.
///
/// Seen as a map from identifiers to records (`@`), the store changes only
/// through `add_boid`, `update_boid` and `remove_boid`; the index always
/// follows, so `well_indexed` holds of every store.
pub struct BoidStore<V> {
    boids: HashMap<u64, Placed<V>>,
    positional_store: HashMap<u64, HashSet<u64>>,
}

impl<V> Default for BoidStore<V> {
    fn default() -> (s: Self)
        ensures
            s@ == Map::<u64, Placed<V>>::empty(),
            s.well_indexed(),
    {
        Self::new()
    }
}

impl<V> View for BoidStore<V> {
    type V = Map<u64, Placed<V>>;

    closed spec fn view(&self) -> Map<u64, Placed<V>> {
        self.boids@
    }
}

impl<V> BoidStore<V> {
    /// The identifiers that the index holds for `cell`.
    pub closed spec fn cell_set(&self, cell: Cell) -> Set<u64> {
        if self.positional_store@.contains_key(cell.slot()) {
            self.positional_store@[cell.slot()]@
        } else {
            Set::empty()
        }
    }

    /// The index agrees with the agents' records: a cell's set holds exactly
    /// the agents recorded in that cell, and every record carries its own key.
    pub open spec fn well_indexed(&self) -> bool {
        &&& forall|cell: Cell| #[trigger] self.cell_set(cell) == members(self@, cell)
        &&& forall|id: u64| #[trigger] self@.contains_key(id) ==> self@[id].boid.entity == id
    }

    #[verifier::type_invariant]
    pub(crate) closed spec fn inv(&self) -> bool {
        &&& forall|id: u64| #[trigger]
            self.boids@.contains_key(id) ==> {
                &&& self.boids@[id].boid.entity == id
                &&& self.positional_store@.contains_key(self.boids@[id].cell.slot())
                &&& self.positional_store@[self.boids@[id].cell.slot()]@.contains(id)
            }
        &&& forall|k: u64, id: u64|
            self.positional_store@.contains_key(k) && #[trigger] self.positional_store@[k]@.contains(
                id,
            ) ==> self.boids@.contains_key(id) && self.boids@[id].cell.slot() == k
    }

    /// What the type invariant says, read over the public model.
    pub(crate) proof fn lemma_inv_well_indexed(&self)
        requires
            self.inv(),
        ensures
            self.well_indexed(),
    {
        assert forall|cell: Cell| #[trigger] self.cell_set(cell) == members(self@, cell) by {
            assert forall|id: u64| self.cell_set(cell).contains(id) <==> members(
                self@,
                cell,
            ).contains(id) by {
                if self.cell_set(cell).contains(id) {
                    Cell::lemma_slot_injective(self.boids@[id].cell, cell);
                }
            }
        }
    }

    /// A store with no agent in it.
    pub fn new() -> (s: Self)
        ensures
            s@ == Map::<u64, Placed<V>>::empty(),
            s.well_indexed(),
    {
        let s = BoidStore { boids: HashMap::new(), positional_store: HashMap::new() };
        proof {
            s.lemma_inv_well_indexed();
        }
        s
    }

    /// Registers a new agent under `cell`. An agent that is already
    /// registered is refused and nothing changes.
    pub fn add_boid(&mut self, entity: u64, cell: Cell, position: V, velocity: V) -> (r: Result<
        (),
        StoreError,
    >)
        ensures
            r == (if old(self)@.contains_key(entity) {
                Err::<(), StoreError>(StoreError::AlreadyPresent)
            } else {
                Ok::<(), StoreError>(())
            }),
            final(self)@ == added(old(self)@, entity, cell, position, velocity),
            final(self).well_indexed(),
    {
        broadcast use group_hash_axioms;

        proof {
            use_type_invariant(&*self);
            self.lemma_inv_well_indexed();
        }
        if self.boids.contains_key(&entity) {
            return Err(StoreError::AlreadyPresent);
        }
        let mut taken = BoidStore { boids: HashMap::new(), positional_store: HashMap::new() };
        std::mem::swap(self, &mut taken);
        let BoidStore { mut boids, mut positional_store } = taken;
        boids.insert(entity, Placed { cell, boid: BoidWrapper { entity, position, velocity } });
        let k = cell.bucket();
        let set = positional_store.entry(k).or_insert(HashSet::new());
        set.insert(entity);
        *self = BoidStore { boids, positional_store };
        proof {
            self.lemma_inv_well_indexed();
        }
        Ok(())
    }

    /// Moves an agent that is already registered: its record is overwritten
    /// and its identifier leaves the set of its old cell for the set of `cell`.
    /// An agent that is not registered is refused and nothing changes.
    pub fn update_boid(&mut self, entity: u64, cell: Cell, position: V, velocity: V) -> (r: Result<
        (),
        StoreError,
    >)
        ensures
            r == (if old(self)@.contains_key(entity) {
                Ok::<(), StoreError>(())
            } else {
                Err::<(), StoreError>(StoreError::NotFound)
            }),
            final(self)@ == updated(old(self)@, entity, cell, position, velocity),
            final(self).well_indexed(),
    {
        broadcast use group_hash_axioms;

        proof {
            use_type_invariant(&*self);
            self.lemma_inv_well_indexed();
        }
        let old_k = match self.boids.get(&entity) {
            Some(p) => p.cell.bucket(),
            None => {
                return Err(StoreError::NotFound);
            },
        };
        let mut taken = BoidStore { boids: HashMap::new(), positional_store: HashMap::new() };
        std::mem::swap(self, &mut taken);
        let BoidStore { mut boids, mut positional_store } = taken;
        match positional_store.entry(old_k) {
            Entry::Occupied(mut bucket) => {
                bucket.get_mut().remove(&entity);
            },
            Entry::Vacant(_) => {},
        }
        boids.insert(entity, Placed { cell, boid: BoidWrapper { entity, position, velocity } });
        let k = cell.bucket();
        let set = positional_store.entry(k).or_insert(HashSet::new());
        set.insert(entity);
        *self = BoidStore { boids, positional_store };
        proof {
            self.lemma_inv_well_indexed();
        }
        Ok(())
    }

    /// Forgets an agent and hands back its last state.
    pub fn remove_boid(&mut self, entity: u64) -> (r: Result<BoidWrapper<V>, StoreError>)
        ensures
            r == (if old(self)@.contains_key(entity) {
                Ok::<BoidWrapper<V>, StoreError>(old(self)@[entity].boid)
            } else {
                Err::<BoidWrapper<V>, StoreError>(StoreError::NotFound)
            }),
            final(self)@ == old(self)@.remove(entity),
            final(self).well_indexed(),
    {
        broadcast use group_hash_axioms;

        proof {
            use_type_invariant(&*self);
            self.lemma_inv_well_indexed();
        }
        let mut taken = BoidStore { boids: HashMap::new(), positional_store: HashMap::new() };
        std::mem::swap(self, &mut taken);
        let BoidStore { mut boids, mut positional_store } = taken;
        match boids.remove(&entity) {
            Some(p) => {
                let k = p.cell.bucket();
                match positional_store.entry(k) {
                    Entry::Occupied(mut bucket) => {
                        bucket.get_mut().remove(&entity);
                    },
                    Entry::Vacant(_) => {},
                }
                *self = BoidStore { boids, positional_store };
                proof {
                    self.lemma_inv_well_indexed();
                }
                Ok(p.boid)
            },
            None => {
                *self = BoidStore { boids, positional_store };
                proof {
                    self.lemma_inv_well_indexed();
                }
                Err(StoreError::NotFound)
            },
        }
    }

    /// Appends to `out` the state of every agent indexed under `cell`,
    /// each once.
    fn collect_cell<'a>(&'a self, cell: Cell, out: &mut Vec<&'a BoidWrapper<V>>)
        ensures
            final(out)@.len() >= old(out)@.len(),
            final(out)@.subrange(0, old(out)@.len() as int) == old(out)@,
            forall|i: int|
                old(out)@.len() <= i < final(out)@.len() ==> {
                    &&& self@.contains_key(#[trigger] final(out)@[i].entity)
                    &&& self@[final(out)@[i].entity].cell == cell
                    &&& *final(out)@[i] == self@[final(out)@[i].entity].boid
                },
            forall|i: int, j: int|
                old(out)@.len() <= i < j < final(out)@.len() ==> final(out)@[i].entity != final(out)@[j].entity,
            forall|id: u64|
                members(self@, cell).contains(id) ==> exists|i: int|
                    old(out)@.len() <= i < final(out)@.len() && #[trigger] final(out)@[i].entity
                        == id,
    {
        broadcast use group_hash_axioms;

        proof {
            use_type_invariant(self);
            self.lemma_inv_well_indexed();
        }
        let k = cell.bucket();
        let ghost start = out@.len() as int;
        match self.positional_store.get(&k) {
            Some(set) => {
                let ghost seq = set.iter().remaining();
                for e in it: set.iter()
                    invariant
                        self.inv(),
                        self.cell_set(cell) == set@,
                        self.cell_set(cell) == members(self@, cell),
                        it.seq() == seq,
                        seq.no_duplicates(),
                        seq.unref().to_set() == set@,
                        start == old(out)@.len(),
                        out@.len() == start + it.index(),
                        out@.subrange(0, start) == old(out)@,
                        forall|i: int|
                            0 <= i < it.index() ==> {
                                &&& #[trigger] out@[start + i].entity == *seq[i]
                                &&& *out@[start + i] == self@[*seq[i]].boid
                            },
                {
                    assert(members(self@, cell).contains(*e));
                    match self.boids.get(e) {
                        Some(p) => {
                            out.push(&p.boid);
                        },
                        None => {},
                    }
                }
                proof {
                    assert forall|i: int| start <= i < out@.len() implies {
                        &&& self@.contains_key(#[trigger] out@[i].entity)
                        &&& self@[out@[i].entity].cell == cell
                        &&& *out@[i] == self@[out@[i].entity].boid
                    } by {
                        let n = i - start;
                        assert(out@[start + n].entity == *seq[n]);
                        assert(seq.unref()[n] == *seq[n]);
                        assert(seq.unref().to_set().contains(*seq[n]));
                    }
                    assert forall|i: int, j: int| start <= i < j < out@.len() implies out@[i].entity
                        != out@[j].entity by {
                        let n = i - start;
                        let m = j - start;
                        assert(out@[start + n].entity == *seq[n]);
                        assert(out@[start + m].entity == *seq[m]);
                    }
                    assert forall|id: u64| members(self@, cell).contains(id) implies exists|i: int|
                        start <= i < out@.len() && #[trigger] out@[i].entity == id by {
                        let n = choose|n: int| 0 <= n < seq.unref().len() && seq.unref()[n] == id;
                        assert(out@[start + n].entity == *seq[n]);
                    }
                }
            },
            None => {},
        }
    }

    /// The state of every agent in `cell` and in the eight cells around it,
    /// each agent once, in no particular order. An agent that sits in that
    /// block is among them even when the caller asks on its behalf.
    pub fn get_boids(&self, cell: Cell) -> (found: Vec<&BoidWrapper<V>>)
        ensures
            forall|i: int|
                0 <= i < found@.len() ==> {
                    &&& neighbors(self@, cell).contains(#[trigger] found@[i].entity)
                    &&& *found@[i] == self@[found@[i].entity].boid
                },
            forall|i: int, j: int|
                0 <= i < j < found@.len() ==> found@[i].entity != found@[j].entity,
            forall|id: u64|
                neighbors(self@, cell).contains(id) ==> exists|i: int|
                    0 <= i < found@.len() && #[trigger] found@[i].entity == id,
            found@.len() == neighbors(self@, cell).len(),
            self.well_indexed(),
    {
        proof {
            use_type_invariant(self);
            self.lemma_inv_well_indexed();
        }
        let mut found: Vec<&BoidWrapper<V>> = Vec::new();
        let mut dx: i64 = -1;
        while dx <= 1
            invariant
                -1 <= dx <= 2,
                forall|i: int|
                    0 <= i < found@.len() ==> {
                        &&& self@.contains_key(#[trigger] found@[i].entity)
                        &&& swept(cell, self@[found@[i].entity].cell, dx as int, -1)
                        &&& *found@[i] == self@[found@[i].entity].boid
                    },
                forall|i: int, j: int|
                    0 <= i < j < found@.len() ==> found@[i].entity != found@[j].entity,
                forall|id: u64|
                    self@.contains_key(id) && swept(cell, self@[id].cell, dx as int, -1)
                        ==> exists|i: int|
                        0 <= i < found@.len() && #[trigger] found@[i].entity == id,
            decreases 2 - dx,
        {
            let mut dy: i64 = -1;
            while dy <= 1
                invariant
                    -1 <= dx <= 1,
                    -1 <= dy <= 2,
                    forall|i: int|
                        0 <= i < found@.len() ==> {
                            &&& self@.contains_key(#[trigger] found@[i].entity)
                            &&& swept(cell, self@[found@[i].entity].cell, dx as int, dy as int)
                            &&& *found@[i] == self@[found@[i].entity].boid
                        },
                    forall|i: int, j: int|
                        0 <= i < j < found@.len() ==> found@[i].entity != found@[j].entity,
                    forall|id: u64|
                        self@.contains_key(id) && swept(cell, self@[id].cell, dx as int, dy as int)
                            ==> exists|i: int|
                            0 <= i < found@.len() && #[trigger] found@[i].entity == id,
                decreases 2 - dy,
            {
                let nx: i64 = cell.x as i64 + dx;
                let ny: i64 = cell.y as i64 + dy;
                if -2147483648 <= nx && nx <= 2147483647 && -2147483648 <= ny && ny <= 2147483647 {
                    let near = Cell { x: nx as i32, y: ny as i32 };
                    let ghost before = found@;
                    self.collect_cell(near, &mut found);
                    proof {
                        assert forall|i: int| 0 <= i < found@.len() implies {
                            &&& self@.contains_key(#[trigger] found@[i].entity)
                            &&& swept(cell, self@[found@[i].entity].cell, dx as int, dy + 1)
                            &&& *found@[i] == self@[found@[i].entity].boid
                        } by {
                            if i < before.len() {
                                assert(found@.subrange(0, before.len() as int)[i] == before[i]);
                            }
                        }
                        assert forall|i: int, j: int| 0 <= i < j < found@.len() implies found@[i].entity
                            != found@[j].entity by {
                            if i < before.len() {
                                assert(found@.subrange(0, before.len() as int)[i] == before[i]);
                            }
                            if j < before.len() {
                                assert(found@.subrange(0, before.len() as int)[j] == before[j]);
                            }
                        }
                        assert forall|id: u64|
                            self@.contains_key(id) && swept(
                                cell,
                                self@[id].cell,
                                dx as int,
                                dy + 1,
                            ) implies exists|i: int|
                            0 <= i < found@.len() && #[trigger] found@[i].entity == id by {
                            if self@[id].cell == near {
                                assert(members(self@, near).contains(id));
                            }
                        }
                    }
                }
                dy = dy + 1;
            }
            dx = dx + 1;
        }
        proof {
            let ids = found@.map_values(|b: &BoidWrapper<V>| b.entity);
            assert forall|id: u64| ids.to_set().contains(id) <==> neighbors(self@, cell).contains(
                id,
            ) by {
                if neighbors(self@, cell).contains(id) {
                    let i = choose|i: int| 0 <= i < found@.len() && #[trigger] found@[i].entity == id;
                    assert(ids[i] == id);
                }
            }
            assert(ids.to_set() =~= neighbors(self@, cell));
            ids.unique_seq_to_set();
        }
        found
    }

    /// The state recorded for `entity`, if it is registered.
    pub fn get(&self, entity: u64) -> (r: Option<&BoidWrapper<V>>)
        ensures
            r == (if self@.contains_key(entity) {
                Some(&self@[entity].boid)
            } else {
                None
            }),
    {
        broadcast use group_hash_axioms;

        match self.boids.get(&entity) {
            Some(p) => Some(&p.boid),
            None => None,
        }
    }

    /// The cell that `entity` is indexed under, if it is registered.
    pub fn cell_of(&self, entity: u64) -> (r: Option<Cell>)
        ensures
            r == (if self@.contains_key(entity) {
                Some(self@[entity].cell)
            } else {
                None
            }),
    {
        broadcast use group_hash_axioms;

        match self.boids.get(&entity) {
            Some(p) => Some(p.cell),
            None => None,
        }
    }

    /// Whether `entity` is registered.
    pub fn contains(&self, entity: u64) -> (r: bool)
        ensures
            r == self@.contains_key(entity),
    {
        broadcast use group_hash_axioms;

        self.boids.contains_key(&entity)
    }

    /// The number of registered agents.
    pub fn len(&self) -> (n: usize)
        ensures
            n == self@.len(),
    {
        broadcast use group_hash_axioms;

        self.boids.len()
    }
}

/// While the block around `center` is walked column by column, and each
/// column row by row, `c` has been passed once the walk stands at offset
/// (`dx`, `dy`).
spec fn swept(center: Cell, c: Cell, dx: int, dy: int) -> bool {
    &&& center.adjacent(c)
    &&& c.x - center.x < dx || (c.x - center.x == dx && c.y - center.y < dy)
}

} // verus!
