//! The simulation core: spatial queries, decisions, turning, predation,
//! spawning, and whole-run determinism.

use bois::boi::{Boi, Species};
use bois::game::MainState;
use bois::nest::{BoiTemplate, Nest};
use bois::spatial::SpatialIndex;
use bois::vec::Vec2;
use rand::Rng;
use rand::SeedableRng;

fn still_boi(id: u64, species: Species, x: i64, y: i64) -> Boi {
    Boi {
        id,
        species,
        position: Vec2::new(x, y),
        direction: 0,
        speed: 0,
        vision: 10_000,
        turning_speed: 0,
    }
}

fn state_of(bois: Vec<Boi>, arena_radius: i64) -> MainState {
    let mut pts = Vec::new();
    for b in &bois {
        pts.push(b.position);
    }
    MainState {
        bois,
        boi_index: SpatialIndex::build(pts),
        arena_centre: Vec2::new(0, 0),
        arena_radius,
    }
}

#[test]
fn query_radius_matches_brute_force() {
    let mut rng = rand::rngs::StdRng::seed_from_u64(99);
    for round in 0..20u64 {
        let n = 40usize;
        let mut pts: Vec<Vec2> = Vec::new();
        for _ in 0..n {
            pts.push(Vec2::new(rng.gen_range(-5000..5000), rng.gen_range(-5000..5000)));
        }
        let index = SpatialIndex::build(pts.clone());
        let centre = Vec2::new(rng.gen_range(-5000..5000), rng.gen_range(-5000..5000));
        let radius: i64 = rng.gen_range(0..8000);
        let got = index.query_radius(centre, radius);
        let mut want: Vec<usize> = Vec::new();
        for (i, p) in pts.iter().enumerate() {
            let dx = (p.x - centre.x) as i128;
            let dy = (p.y - centre.y) as i128;
            if dx * dx + dy * dy <= (radius as i128) * (radius as i128) {
                want.push(i);
            }
        }
        assert_eq!(got, want, "round {round}");
    }
}

#[test]
fn query_radius_is_inclusive_at_the_boundary() {
    let pts = vec![Vec2::new(1000, 0), Vec2::new(1001, 0)];
    let index = SpatialIndex::build(pts);
    let res = index.query_radius(Vec2::new(0, 0), 1000);
    assert_eq!(res, vec![0usize]);
}

#[test]
fn isolated_boi_keeps_its_heading() {
    // a single in-arena entity sees nobody: the decision is its own
    // heading direction vector
    let b = Boi {
        id: 0,
        species: Species::Prey,
        position: Vec2::new(5000, -2000),
        direction: 785,
        speed: 2500,
        vision: 4000,
        turning_speed: 300,
    };
    let state = state_of(vec![b], 100_000);
    let d = b.decide(&state);
    let dv = b.direction_vector();
    assert_eq!(d.x, dv.x);
    assert_eq!(d.y, dv.y);
}

#[test]
fn boi_outside_arena_steers_toward_centre() {
    // far outside the arena, the containment signal dominates: the
    // decision points back toward the centre
    let b = Boi {
        id: 0,
        species: Species::Prey,
        position: Vec2::new(200_000, 0),
        direction: 0,
        speed: 2500,
        vision: 4000,
        turning_speed: 300,
    };
    let state = state_of(vec![b], 100_000);
    let d = b.decide(&state);
    assert!(d.x < -900, "decision should point in -x, got ({}, {})", d.x, d.y);
    assert!(d.y.abs() <= 100);
}

#[test]
fn containment_weighs_like_the_other_signals() {
    // half a world unit outside the arena the containment weight is
    // 0.5^1.1 (about 0.47): one friend's separation, alignment and
    // cohesion together outweigh it, so the decision points toward the
    // flock, not back toward the centre
    let me = Boi {
        id: 0,
        species: Species::Prey,
        position: Vec2::new(100_500, 0),
        direction: 0,
        speed: 2500,
        vision: 10_000,
        turning_speed: 300,
    };
    let friend = Boi {
        id: 1,
        species: Species::Prey,
        position: Vec2::new(102_500, 0),
        direction: 0,
        speed: 2500,
        vision: 10_000,
        turning_speed: 300,
    };
    let state = state_of(vec![me, friend], 100_000);
    let d = me.decide(&state);
    // separation (-1000) + alignment (+1000) + cohesion (+1000)
    // + containment (-466) = (534, 0), renormalised
    assert_eq!(d.x, 1000);
    assert_eq!(d.y, 0);
}

#[test]
fn sub_milli_overshoot_keeps_heading() {
    // strictly outside the arena by less than a milli-unit: the rounded
    // overshoot is zero, the containment contribution rounds to
    // nothing, and the entity keeps its current heading
    let b = Boi {
        id: 0,
        species: Species::Prey,
        position: Vec2::new(100_000, 30),
        direction: 785,
        speed: 2500,
        vision: 4000,
        turning_speed: 300,
    };
    let state = state_of(vec![b], 100_000);
    let d = b.decide(&state);
    let dv = b.direction_vector();
    assert_eq!(d.x, dv.x);
    assert_eq!(d.y, dv.y);
}

#[test]
fn action_turn_is_bounded_by_rate() {
    // a target straight behind; the turn is clamped to
    // turning_speed * dt / 1000
    let mut b = still_boi(0, Species::Prey, 0, 0);
    b.turning_speed = 300;
    b.direction = 0;
    b.action(1000, &Vec2::new(-1000, 1));
    assert_eq!(b.direction, 300);

    let mut c = still_boi(1, Species::Prey, 0, 0);
    c.turning_speed = 300;
    c.direction = 0;
    // a small gap is taken in full
    c.action(1000, &Vec2::new(1000, 100));
    assert_eq!(c.direction, 100);
}

#[test]
fn action_reflected_gap_turns_negative() {
    // a target just below the +x axis wraps past a half turn and the
    // reflected correction turns the other way
    let mut b = still_boi(0, Species::Prey, 0, 0);
    b.turning_speed = 500;
    b.action(1000, &Vec2::new(0, -1000));
    assert_eq!(b.direction, -500);
}

#[test]
fn predation_within_kill_radius() {
    let pred = still_boi(0, Species::Predator, 0, 0);
    let prey = still_boi(1, Species::Prey, 500, 0);
    let mut state = state_of(vec![pred, prey], 100_000);
    state.update(1000);
    assert_eq!(state.population(), 1);
    assert!(matches!(state.bois[0].species, Species::Predator));
    assert_eq!(state.bois[0].id, 0);
}

#[test]
fn predation_at_the_exact_kill_radius() {
    let pred = still_boi(0, Species::Predator, 0, 0);
    let prey = still_boi(1, Species::Prey, 1000, 0);
    let mut state = state_of(vec![pred, prey], 100_000);
    state.update(1000);
    assert_eq!(state.population(), 1);
}

#[test]
fn no_predation_beyond_kill_radius() {
    let pred = still_boi(0, Species::Predator, 0, 0);
    let prey = still_boi(1, Species::Prey, 1500, 0);
    let mut state = state_of(vec![pred, prey], 100_000);
    state.update(1000);
    assert_eq!(state.population(), 2);
}

#[test]
fn prey_pair_does_not_predate() {
    let a = still_boi(0, Species::Prey, 0, 0);
    let b = still_boi(1, Species::Prey, 200, 0);
    let mut state = state_of(vec![a, b], 100_000);
    state.update(1000);
    assert_eq!(state.population(), 2);
}

#[test]
fn template_spawn_samples_within_ranges() {
    let template = BoiTemplate {
        speed_lo: 2000,
        speed_hi: 3000,
        vision_lo: 2000,
        vision_hi: 10_000,
        turning_lo: 100,
        turning_hi: 500,
    };
    let mut rng = rand::rngs::StdRng::seed_from_u64(5);
    let pos = Vec2::new(10, -10);
    for id in 0..200u64 {
        let b = template.spawn(&mut rng, &pos, 1234, id);
        assert_eq!(b.id, id);
        assert_eq!(b.position.x, 10);
        assert_eq!(b.position.y, -10);
        assert_eq!(b.direction, 1234);
        assert!(2000 <= b.speed && b.speed < 3000);
        assert!(2000 <= b.vision && b.vision < 10_000);
        assert!(100 <= b.turning_speed && b.turning_speed < 500);
    }
}

#[test]
fn nest_spawn_samples_within_ranges() {
    let mut nest = Nest {
        rng: rand::rngs::StdRng::seed_from_u64(11),
        pos_lo: -100_000,
        pos_hi: 100_000,
        dir_lo: 0,
        dir_hi: 6283,
        template: BoiTemplate {
            speed_lo: 2000,
            speed_hi: 3000,
            vision_lo: 2000,
            vision_hi: 10_000,
            turning_lo: 100,
            turning_hi: 500,
        },
    };
    for id in 0..200u64 {
        let b = nest.spawn(id);
        assert_eq!(b.id, id);
        assert!(-100_000 <= b.position.x && b.position.x < 100_000);
        assert!(-100_000 <= b.position.y && b.position.y < 100_000);
        assert!(0 <= b.direction && b.direction < 6283);
    }
}

#[test]
fn species_ratio_is_one_in_six() {
    let template = BoiTemplate {
        speed_lo: 2000,
        speed_hi: 3000,
        vision_lo: 2000,
        vision_hi: 10_000,
        turning_lo: 100,
        turning_hi: 500,
    };
    let pos = Vec2::new(0, 0);
    let mut total_predators = 0u64;
    for seed in 0..3u64 {
        let mut rng = rand::rngs::StdRng::seed_from_u64(seed);
        let mut predators = 0u64;
        for id in 0..6000u64 {
            let b = template.spawn(&mut rng, &pos, 0, id);
            if matches!(b.species, Species::Predator) {
                predators += 1;
            }
        }
        // expected 1000 of 6000, standard deviation about 29
        assert!(
            850 <= predators && predators <= 1150,
            "seed {seed}: {predators} predators out of 6000"
        );
        total_predators += predators;
    }
    assert!(2550 <= total_predators && total_predators <= 3450);
}

#[test]
fn identically_seeded_runs_are_identical() {
    let mut a = MainState::new(100_000, 60, 424242);
    let mut b = MainState::new(100_000, 60, 424242);
    assert_eq!(a.population(), 60);
    a.run_ticks(200, 25);
    b.run_ticks(200, 25);
    assert_eq!(a.population(), b.population());
    for i in 0..a.population() {
        let x = a.bois[i];
        let y = b.bois[i];
        assert_eq!(x.id, y.id);
        assert_eq!(x.position.x, y.position.x);
        assert_eq!(x.position.y, y.position.y);
        assert_eq!(x.direction, y.direction);
        assert_eq!(x.speed, y.speed);
        assert_eq!(x.vision, y.vision);
        assert_eq!(x.turning_speed, y.turning_speed);
        assert!(x.species == y.species);
    }
}

#[test]
fn differently_seeded_runs_differ() {
    let a = MainState::new(100_000, 40, 1);
    let b = MainState::new(100_000, 40, 2);
    let mut same = true;
    for i in 0..40 {
        if a.bois[i].position.x != b.bois[i].position.x {
            same = false;
        }
    }
    assert!(!same);
}

#[test]
fn survivors_keep_relative_order() {
    // two predators bracketing two prey: the prey fall, the predators
    // stay in order
    let bois = vec![
        still_boi(0, Species::Predator, 0, 0),
        still_boi(1, Species::Prey, 300, 0),
        still_boi(2, Species::Prey, 90_000, 0),
        still_boi(3, Species::Predator, 90_200, 0),
    ];
    let mut state = state_of(bois, 100_000);
    state.update(1000);
    assert_eq!(state.population(), 2);
    assert_eq!(state.bois[0].id, 0);
    assert_eq!(state.bois[1].id, 3);
}
