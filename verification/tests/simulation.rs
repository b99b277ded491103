use particle_sim::particle::Spawn;
use particle_sim::simulation::{Directive, Phase, Simulation, Started};

fn spawns(count: usize) -> Vec<Spawn<u32>> {
    (0..count).map(|k| Spawn { key: 100 - k as i64, body: k as u32 }).collect()
}

fn snapshot(sim: &Simulation<u32>) -> Vec<(usize, i64, u32)> {
    let pop = sim.population();
    (0..pop.len())
        .map(|slot| {
            let p = pop.particle(slot);
            (p.id, p.key, p.body)
        })
        .collect()
}

#[test]
fn a_new_run_is_stopped() {
    let sim: Simulation<u32> = Simulation::new(2);
    assert_eq!(sim.target(), 2);
    assert_eq!(sim.phase(), Phase::Stopped);
    assert!(sim.population().is_empty());
}

#[test]
fn directive_follows_the_stop_flag_and_the_population() {
    let mut sim: Simulation<u32> = Simulation::new(3);
    assert_eq!(sim.directive(true), Directive::Discard);
    assert_eq!(sim.directive(false), Directive::Populate { count: 3 });
    assert_eq!(sim.start(spawns(3)), Started::Created);
    assert_eq!(sim.directive(false), Directive::Proceed);
    assert_eq!(sim.directive(true), Directive::Discard);
}

#[test]
fn start_creates_the_configured_number() {
    for count in [0usize, 1, 2, 7, 512] {
        let mut sim: Simulation<u32> = Simulation::new(count);
        assert_eq!(sim.start(spawns(count)), Started::Created);
        assert_eq!(sim.population().len(), count);
        let mut ids: Vec<usize> = snapshot(&sim).iter().map(|p| p.0).collect();
        ids.sort();
        assert_eq!(ids, (0..count).collect::<Vec<usize>>());
    }
}

#[test]
fn start_puts_the_population_in_store_order() {
    let mut sim: Simulation<u32> = Simulation::new(4);
    assert_eq!(sim.start(spawns(4)), Started::Created);
    let seen: Vec<(i64, u32)> = snapshot(&sim).iter().map(|p| (p.1, p.2)).collect();
    assert_eq!(seen, vec![(97, 3), (98, 2), (99, 1), (100, 0)]);
    assert_eq!(sim.phase(), Phase::Running);
}

#[test]
fn start_rejects_another_number_of_spawns() {
    let mut sim: Simulation<u32> = Simulation::new(3);
    assert_eq!(sim.start(spawns(2)), Started::CountMismatch);
    assert_eq!(sim.phase(), Phase::Stopped);
    assert_eq!(sim.start(spawns(4)), Started::CountMismatch);
    assert!(sim.population().is_empty());
    assert_eq!(sim.target(), 3);
}

#[test]
fn start_while_running_keeps_the_population() {
    let mut sim: Simulation<u32> = Simulation::new(5);
    assert_eq!(sim.start(spawns(5)), Started::Created);
    let before = snapshot(&sim);
    assert_eq!(sim.start(spawns(5)), Started::AlreadyRunning);
    assert_eq!(snapshot(&sim), before);
    assert_eq!(sim.start(spawns(1)), Started::AlreadyRunning);
    assert_eq!(snapshot(&sim), before);
}

#[test]
fn stop_discards_the_population() {
    let mut sim: Simulation<u32> = Simulation::new(5);
    assert_eq!(sim.start(spawns(5)), Started::Created);
    sim.stop();
    assert_eq!(sim.population().len(), 0);
    assert_eq!(sim.phase(), Phase::Stopped);
    assert_eq!(sim.target(), 5);
}

#[test]
fn stop_twice_is_stop_once() {
    let mut sim: Simulation<u32> = Simulation::new(2);
    sim.stop();
    assert!(sim.population().is_empty());
    assert_eq!(sim.start(spawns(2)), Started::Created);
    sim.stop();
    sim.stop();
    assert!(sim.population().is_empty());
    assert_eq!(sim.phase(), Phase::Stopped);
    assert_eq!(sim.target(), 2);
}

#[test]
fn a_new_start_after_stop_creates_again() {
    let mut sim: Simulation<u32> = Simulation::new(3);
    assert_eq!(sim.start(spawns(3)), Started::Created);
    sim.stop();
    assert_eq!(sim.directive(false), Directive::Populate { count: 3 });
    assert_eq!(sim.start(spawns(3)), Started::Created);
    assert_eq!(sim.population().len(), 3);
}

#[test]
fn set_target_leaves_a_running_population_alone() {
    let mut sim: Simulation<u32> = Simulation::new(4);
    assert_eq!(sim.start(spawns(4)), Started::Created);
    let before = snapshot(&sim);
    sim.set_target(9);
    assert_eq!(sim.target(), 9);
    assert_eq!(snapshot(&sim), before);
    assert_eq!(sim.directive(false), Directive::Proceed);
    sim.stop();
    assert_eq!(sim.directive(false), Directive::Populate { count: 9 });
    assert_eq!(sim.start(spawns(4)), Started::CountMismatch);
    assert_eq!(sim.start(spawns(9)), Started::Created);
    assert_eq!(sim.population().len(), 9);
}

#[test]
fn a_run_of_no_particles_stays_stopped() {
    let mut sim: Simulation<u32> = Simulation::new(0);
    assert_eq!(sim.directive(false), Directive::Populate { count: 0 });
    assert_eq!(sim.start(Vec::new()), Started::Created);
    assert_eq!(sim.phase(), Phase::Stopped);
    assert_eq!(sim.directive(false), Directive::Populate { count: 0 });
}

#[test]
fn tick_of_a_stopped_run_does_nothing() {
    let mut sim: Simulation<u32> = Simulation::new(3);
    sim.tick(|_, _| panic!("no particle to test"), |_| panic!("no particle to advance"));
    assert_eq!(sim.phase(), Phase::Stopped);
    assert_eq!(sim.target(), 3);
}

#[test]
fn tick_of_a_running_run_advances_every_particle() {
    let mut sim: Simulation<u32> = Simulation::new(4);
    assert_eq!(sim.start(spawns(4)), Started::Created);
    let before = snapshot(&sim);
    sim.tick(|_, _| None, |body| body + 1000);
    let after = snapshot(&sim);
    assert_eq!(after.len(), 4);
    for slot in 0..4 {
        assert_eq!(after[slot], (before[slot].0, before[slot].1, before[slot].2 + 1000));
    }
    assert_eq!(sim.target(), 4);
    assert_eq!(sim.phase(), Phase::Running);
}
