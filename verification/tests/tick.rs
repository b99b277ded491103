use particle_sim::particle::Spawn;
use particle_sim::population::Population;
use std::cell::{Cell, RefCell};

fn population(bodies: &[i64]) -> Population<i64> {
    let spawns: Vec<Spawn<i64>> =
        bodies.iter().enumerate().map(|(k, &body)| Spawn { key: k as i64, body }).collect();
    let ids: Vec<usize> = (0..bodies.len()).rev().collect();
    Population::with_ids(spawns, &ids)
}

fn bodies(pop: &Population<i64>) -> Vec<i64> {
    (0..pop.len()).map(|slot| pop.particle(slot).body).collect()
}

#[test]
fn tick_of_nothing_calls_nothing() {
    let mut pop = population(&[]);
    pop.tick(|_, _| panic!("no particle to test"), |_| panic!("no particle to advance"));
    assert!(pop.is_empty());
}

#[test]
fn tick_without_collisions_advances_each_particle_once() {
    let mut pop = population(&[1, 2, 3]);
    let tests = Cell::new(0usize);
    let advances = Cell::new(0usize);
    pop.tick(
        |_, _| {
            tests.set(tests.get() + 1);
            None
        },
        |body| {
            advances.set(advances.get() + 1);
            body + 10
        },
    );
    assert_eq!(bodies(&pop), vec![11, 12, 13]);
    assert_eq!(tests.get(), 6);
    assert_eq!(advances.get(), 3);
}

#[test]
fn tick_tests_each_subject_against_the_others_in_store_order() {
    let mut pop = population(&[10, 20, 30]);
    let seen: RefCell<Vec<(i64, i64)>> = RefCell::new(Vec::new());
    pop.tick(
        |subject, other| {
            seen.borrow_mut().push((subject, other));
            None
        },
        |body| body,
    );
    assert_eq!(
        seen.into_inner(),
        vec![(10, 20), (10, 30), (20, 10), (20, 30), (30, 10), (30, 20)]
    );
}

#[test]
fn tick_never_tests_a_particle_against_itself() {
    let mut pop = population(&[7, 7, 7, 7, 7]);
    for slot in 0..pop.len() {
        pop.set_body(slot, slot as i64);
    }
    pop.tick(
        |subject, other| {
            assert_ne!(subject, other);
            None
        },
        |body| body,
    );
    assert_eq!(bodies(&pop), vec![0, 1, 2, 3, 4]);
}

#[test]
fn tick_writes_a_collision_back_at_once() {
    let mut pop = population(&[3, 1, 2]);
    pop.tick(
        |subject, other| if subject > other { Some((other, subject)) } else { None },
        |body| body * 10,
    );
    assert_eq!(bodies(&pop), vec![10, 20, 30]);
}

#[test]
fn later_subjects_see_what_earlier_turns_left() {
    let mut pop = population(&[1, 10, 100]);
    pop.tick(|subject, other| Some((subject + other, other)), |body| body);
    assert_eq!(bodies(&pop), vec![111, 221, 432]);
}

#[test]
fn the_last_collision_of_a_turn_decides() {
    let mut pop = population(&[1, 2, 3]);
    pop.tick(|_, other| Some((other, other)), |body| body);
    assert_eq!(bodies(&pop), vec![3, 3, 3]);
}

#[test]
fn a_collision_changes_the_partner_too() {
    let mut pop = population(&[1, 2]);
    pop.tick(|subject, other| Some((subject, other + 100)), |body| body);
    assert_eq!(bodies(&pop), vec![101, 102]);
}

#[test]
fn a_lone_particle_only_advances() {
    let mut pop = population(&[41]);
    pop.tick(|_, _| panic!("nothing to test against"), |body| body + 1);
    assert_eq!(bodies(&pop), vec![42]);
    pop.tick(|_, _| panic!("nothing to test against"), |body| body + 1);
    assert_eq!(bodies(&pop), vec![43]);
}

#[test]
fn tick_keeps_identities_keys_and_slots() {
    let mut pop = population(&[5, 6, 7, 8]);
    let before: Vec<(usize, i64)> =
        (0..pop.len()).map(|slot| (pop.particle(slot).id, pop.particle(slot).key)).collect();
    pop.tick(|subject, other| Some((other, subject)), |body| -body);
    let after: Vec<(usize, i64)> =
        (0..pop.len()).map(|slot| (pop.particle(slot).id, pop.particle(slot).key)).collect();
    assert_eq!(before, vec![(3, 0), (2, 1), (1, 2), (0, 3)]);
    assert_eq!(after, before);
    assert_eq!(pop.len(), 4);
}

#[test]
fn tick_carries_numeric_state() {
    let spawns = vec![
        Spawn { key: 0, body: (0.0f32, 2.0f32) },
        Spawn { key: 1, body: (100.0f32, -4.0f32) },
    ];
    let mut pop = Population::create(spawns);
    let delta = 0.5f32;
    pop.tick(|_, _| None, |(position, velocity)| (position + velocity * delta, velocity));
    assert_eq!(pop.particle(0).body, (1.0, 2.0));
    assert_eq!(pop.particle(1).body, (98.0, -4.0));
}
