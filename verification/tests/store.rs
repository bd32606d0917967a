use flocking::boid_store::{BoidStore, BoidWrapper, StoreError};
use flocking::cell::Cell;

type P = (f32, f32);

fn cell(x: i32, y: i32) -> Cell {
    Cell { x, y }
}

fn sorted_ids(found: &[&BoidWrapper<P>]) -> Vec<u64> {
    let mut ids: Vec<u64> = found.iter().map(|b| b.entity).collect();
    ids.sort();
    ids
}

#[test]
fn default_store_is_empty() {
    let store: BoidStore<P> = BoidStore::default();
    assert_eq!(store.len(), 0);
    assert!(store.get_boids(cell(0, 0)).is_empty());
}

#[test]
fn new_store_is_empty() {
    let store: BoidStore<P> = BoidStore::new();
    assert_eq!(store.len(), 0);
    assert!(!store.contains(0));
    assert!(store.get(0).is_none());
    assert!(store.cell_of(0).is_none());
    assert!(store.get_boids(cell(0, 0)).is_empty());
}

#[test]
fn add_registers_state_and_cell() {
    let mut store: BoidStore<P> = BoidStore::new();
    assert_eq!(store.add_boid(7, cell(2, -3), (71.5, -90.25), (0.0, 50.0)), Ok(()));
    assert_eq!(store.len(), 1);
    assert!(store.contains(7));
    assert_eq!(store.cell_of(7), Some(cell(2, -3)));
    let b = store.get(7).unwrap();
    assert_eq!(b.entity, 7);
    assert_eq!(b.position, (71.5, -90.25));
    assert_eq!(b.velocity, (0.0, 50.0));
}

#[test]
fn add_twice_is_refused_and_changes_nothing() {
    let mut store: BoidStore<P> = BoidStore::new();
    assert_eq!(store.add_boid(7, cell(0, 0), (1.0, 2.0), (3.0, 4.0)), Ok(()));
    assert_eq!(
        store.add_boid(7, cell(9, 9), (320.0, 320.0), (5.0, 6.0)),
        Err(StoreError::AlreadyPresent)
    );
    assert_eq!(store.len(), 1);
    assert_eq!(store.cell_of(7), Some(cell(0, 0)));
    assert_eq!(store.get(7).unwrap().position, (1.0, 2.0));
    assert_eq!(store.get(7).unwrap().velocity, (3.0, 4.0));
    assert_eq!(sorted_ids(&store.get_boids(cell(0, 0))), vec![7]);
    assert!(store.get_boids(cell(9, 9)).is_empty());
}

#[test]
fn update_unknown_is_refused_and_changes_nothing() {
    let mut store: BoidStore<P> = BoidStore::new();
    assert_eq!(store.add_boid(1, cell(0, 0), (1.0, 1.0), (0.0, 0.0)), Ok(()));
    assert_eq!(
        store.update_boid(2, cell(0, 0), (2.0, 2.0), (0.0, 0.0)),
        Err(StoreError::NotFound)
    );
    assert_eq!(store.len(), 1);
    assert!(!store.contains(2));
    assert_eq!(sorted_ids(&store.get_boids(cell(0, 0))), vec![1]);
}

#[test]
fn remove_unknown_is_refused() {
    let mut store: BoidStore<P> = BoidStore::new();
    assert_eq!(store.remove_boid(5), Err(StoreError::NotFound));
    assert_eq!(store.add_boid(1, cell(0, 0), (1.0, 1.0), (0.0, 0.0)), Ok(()));
    assert_eq!(store.remove_boid(5), Err(StoreError::NotFound));
    assert_eq!(store.len(), 1);
}

#[test]
fn remove_hands_back_last_state() {
    let mut store: BoidStore<P> = BoidStore::new();
    assert_eq!(store.add_boid(1, cell(0, 0), (1.0, 1.0), (0.0, 0.0)), Ok(()));
    assert_eq!(store.update_boid(1, cell(1, 0), (36.0, 1.0), (7.0, 8.0)), Ok(()));
    let gone = store.remove_boid(1).unwrap();
    assert_eq!(gone, BoidWrapper { entity: 1, position: (36.0, 1.0), velocity: (7.0, 8.0) });
    assert_eq!(store.len(), 0);
    assert!(!store.contains(1));
    assert!(store.get_boids(cell(1, 0)).is_empty());
    assert!(store.get_boids(cell(0, 0)).is_empty());
    assert_eq!(store.remove_boid(1), Err(StoreError::NotFound));
}

#[test]
fn removed_agent_can_be_registered_again() {
    let mut store: BoidStore<P> = BoidStore::new();
    assert_eq!(store.add_boid(1, cell(0, 0), (1.0, 1.0), (0.0, 0.0)), Ok(()));
    assert!(store.remove_boid(1).is_ok());
    assert_eq!(store.add_boid(1, cell(5, 5), (180.0, 180.0), (1.0, 1.0)), Ok(()));
    assert_eq!(store.cell_of(1), Some(cell(5, 5)));
    assert_eq!(sorted_ids(&store.get_boids(cell(5, 5))), vec![1]);
    assert!(store.get_boids(cell(0, 0)).is_empty());
}

#[test]
fn update_moves_between_cells() {
    let mut store: BoidStore<P> = BoidStore::new();
    assert_eq!(store.add_boid(1, cell(0, 0), (1.0, 1.0), (0.0, 0.0)), Ok(()));
    assert_eq!(store.update_boid(1, cell(10, 10), (351.0, 351.0), (2.0, 3.0)), Ok(()));
    assert_eq!(store.cell_of(1), Some(cell(10, 10)));
    assert!(store.get_boids(cell(0, 0)).is_empty());
    let found = store.get_boids(cell(10, 10));
    assert_eq!(found.len(), 1);
    assert_eq!(found[0].position, (351.0, 351.0));
    assert_eq!(found[0].velocity, (2.0, 3.0));
}

#[test]
fn update_within_cell_keeps_one_entry() {
    let mut store: BoidStore<P> = BoidStore::new();
    assert_eq!(store.add_boid(1, cell(0, 0), (1.0, 1.0), (0.0, 0.0)), Ok(()));
    assert_eq!(store.update_boid(1, cell(0, 0), (2.0, 2.0), (9.0, 9.0)), Ok(()));
    let found = store.get_boids(cell(0, 0));
    assert_eq!(found.len(), 1);
    assert_eq!(found[0].position, (2.0, 2.0));
    assert_eq!(found[0].velocity, (9.0, 9.0));
    assert_eq!(store.len(), 1);
}

#[test]
fn update_twice_equals_update_once() {
    let mut once: BoidStore<P> = BoidStore::new();
    let mut twice: BoidStore<P> = BoidStore::new();
    for s in [&mut once, &mut twice] {
        assert_eq!(s.add_boid(1, cell(0, 0), (1.0, 1.0), (0.0, 0.0)), Ok(()));
        assert_eq!(s.add_boid(2, cell(1, 1), (40.0, 40.0), (0.0, 0.0)), Ok(()));
        assert_eq!(s.add_boid(3, cell(4, 4), (150.0, 150.0), (0.0, 0.0)), Ok(()));
    }
    assert_eq!(once.update_boid(1, cell(3, 3), (110.0, 110.0), (5.0, 5.0)), Ok(()));
    assert_eq!(twice.update_boid(1, cell(3, 3), (110.0, 110.0), (5.0, 5.0)), Ok(()));
    assert_eq!(twice.update_boid(1, cell(3, 3), (110.0, 110.0), (5.0, 5.0)), Ok(()));
    assert_eq!(once.len(), twice.len());
    for id in 0..5u64 {
        assert_eq!(once.get(id), twice.get(id));
        assert_eq!(once.cell_of(id), twice.cell_of(id));
    }
    for x in -2..8 {
        for y in -2..8 {
            let a = once.get_boids(cell(x, y));
            let b = twice.get_boids(cell(x, y));
            assert_eq!(a.len(), b.len());
            assert_eq!(sorted_ids(&a), sorted_ids(&b));
        }
    }
    assert_eq!(sorted_ids(&twice.get_boids(cell(3, 3))), vec![1, 3]);
    assert_eq!(sorted_ids(&twice.get_boids(cell(0, 0))), vec![2]);
}

#[test]
fn query_covers_exactly_the_block() {
    let mut store: BoidStore<P> = BoidStore::new();
    let mut id: u64 = 0;
    for x in -3..=3 {
        for y in -3..=3 {
            assert_eq!(store.add_boid(id, cell(x, y), (0.0, 0.0), (0.0, 0.0)), Ok(()));
            id += 1;
        }
    }
    let found = store.get_boids(cell(0, 0));
    assert_eq!(found.len(), 9);
    for b in found.iter() {
        let c = store.cell_of(b.entity).unwrap();
        assert!((-1..=1).contains(&c.x) && (-1..=1).contains(&c.y));
    }
    let found = store.get_boids(cell(3, -3));
    assert_eq!(found.len(), 4);
    let found = store.get_boids(cell(5, 0));
    assert_eq!(found.len(), 0);
    let found = store.get_boids(cell(4, 0));
    assert_eq!(found.len(), 3);
}

#[test]
fn query_two_cells_away_finds_nothing() {
    let mut store: BoidStore<P> = BoidStore::new();
    assert_eq!(store.add_boid(1, cell(0, 0), (34.9, 0.0), (0.0, 0.0)), Ok(()));
    assert_eq!(store.add_boid(2, cell(2, 0), (70.0, 0.0), (0.0, 0.0)), Ok(()));
    assert_eq!(sorted_ids(&store.get_boids(cell(0, 0))), vec![1]);
    assert_eq!(sorted_ids(&store.get_boids(cell(1, 0))), vec![1, 2]);
    assert_eq!(sorted_ids(&store.get_boids(cell(2, 0))), vec![2]);
}

#[test]
fn query_includes_the_asking_agent() {
    let mut store: BoidStore<P> = BoidStore::new();
    assert_eq!(store.add_boid(42, cell(0, 0), (3.0, 4.0), (1.0, 0.0)), Ok(()));
    let c = store.cell_of(42).unwrap();
    let found = store.get_boids(c);
    assert_eq!(found.len(), 1);
    assert_eq!(found[0].entity, 42);
}

#[test]
fn query_reports_each_agent_once() {
    let mut store: BoidStore<P> = BoidStore::new();
    for id in 0..50u64 {
        assert_eq!(store.add_boid(id, cell(0, 0), (1.0, 1.0), (0.0, 0.0)), Ok(()));
    }
    for id in 0..50u64 {
        assert_eq!(store.update_boid(id, cell((id % 3) as i32 - 1, 0), (1.0, 1.0), (0.0, 0.0)), Ok(()));
    }
    let ids = sorted_ids(&store.get_boids(cell(0, 0)));
    assert_eq!(ids, (0..50u64).collect::<Vec<u64>>());
}

#[test]
fn query_at_the_edges_of_the_grid() {
    let mut store: BoidStore<P> = BoidStore::new();
    assert_eq!(store.add_boid(1, cell(i32::MAX, i32::MAX), (0.0, 0.0), (0.0, 0.0)), Ok(()));
    assert_eq!(store.add_boid(2, cell(i32::MIN, i32::MIN), (0.0, 0.0), (0.0, 0.0)), Ok(()));
    assert_eq!(store.add_boid(3, cell(i32::MAX - 1, i32::MAX), (0.0, 0.0), (0.0, 0.0)), Ok(()));
    assert_eq!(store.add_boid(4, cell(i32::MIN, i32::MAX), (0.0, 0.0), (0.0, 0.0)), Ok(()));
    assert_eq!(sorted_ids(&store.get_boids(cell(i32::MAX, i32::MAX))), vec![1, 3]);
    assert_eq!(sorted_ids(&store.get_boids(cell(i32::MIN, i32::MIN))), vec![2]);
    assert_eq!(sorted_ids(&store.get_boids(cell(i32::MIN, i32::MAX))), vec![4]);
    assert_eq!(sorted_ids(&store.get_boids(cell(i32::MIN + 1, i32::MIN + 1))), vec![2]);
    assert!(store.get_boids(cell(0, 0)).is_empty());
}

#[test]
fn cells_that_share_a_sum_do_not_collide() {
    let mut store: BoidStore<P> = BoidStore::new();
    assert_eq!(store.add_boid(1, cell(5, -5), (0.0, 0.0), (0.0, 0.0)), Ok(()));
    assert_eq!(store.add_boid(2, cell(-5, 5), (0.0, 0.0), (0.0, 0.0)), Ok(()));
    assert_eq!(store.add_boid(3, cell(0, 1), (0.0, 0.0), (0.0, 0.0)), Ok(()));
    assert_eq!(store.add_boid(4, cell(1, 0), (0.0, 0.0), (0.0, 0.0)), Ok(()));
    assert_eq!(store.add_boid(5, cell(-1, -1), (0.0, 0.0), (0.0, 0.0)), Ok(()));
    assert_eq!(sorted_ids(&store.get_boids(cell(5, -5))), vec![1]);
    assert_eq!(sorted_ids(&store.get_boids(cell(-5, 5))), vec![2]);
    assert_eq!(sorted_ids(&store.get_boids(cell(2, 0))), vec![4]);
    assert_eq!(sorted_ids(&store.get_boids(cell(0, 2))), vec![3]);
    assert_eq!(sorted_ids(&store.get_boids(cell(-2, -2))), vec![5]);
}

#[test]
fn adjacency_of_cells() {
    let c = cell(0, 0);
    assert!(c.is_adjacent(&cell(0, 0)));
    assert!(c.is_adjacent(&cell(1, 1)));
    assert!(c.is_adjacent(&cell(-1, 1)));
    assert!(c.is_adjacent(&cell(-1, -1)));
    assert!(!c.is_adjacent(&cell(2, 0)));
    assert!(!c.is_adjacent(&cell(0, -2)));
    assert!(!cell(i32::MIN, 0).is_adjacent(&cell(i32::MAX, 0)));
    assert!(cell(i32::MAX, i32::MIN).is_adjacent(&cell(i32::MAX - 1, i32::MIN + 1)));
}
