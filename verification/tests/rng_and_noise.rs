use owr::perlin::{lattice_index, perlin_generate_perm, permute, POINT_COUNT};
use owr::types::{example_params, RaytracerParams};
use owr::utils::{det_rand_u32, rand_u32, seed_rand, RandState};

#[test]
fn fresh_state_starts_both_streams_at_one() {
    let mut a = RandState::new();
    let mut b = RandState::new();
    assert_eq!(rand_u32(&mut a), 16838);
    assert_eq!(det_rand_u32(&mut b), 16838);
}

#[test]
fn seeded_stream_matches_known_values() {
    let mut state = RandState::new();
    seed_rand(&mut state, 1);
    let drawn: Vec<u32> = (0..8).map(|_| rand_u32(&mut state)).collect();
    assert_eq!(drawn, vec![16838, 5758, 10113, 17515, 31051, 5627, 23010, 7419]);
}

#[test]
fn outputs_stay_below_modulus() {
    let mut state = RandState::new();
    seed_rand(&mut state, 0xFFFF_FFFF);
    for _ in 0..1000 {
        assert!(rand_u32(&mut state) < 32768);
        assert!(det_rand_u32(&mut state) < 32768);
    }
}

#[test]
fn seeding_leaves_deterministic_stream_alone() {
    let mut state = RandState::new();
    seed_rand(&mut state, 987654321);
    assert_eq!(det_rand_u32(&mut state), 16838);
}

#[test]
fn same_seed_reproduces_stream() {
    let mut a = RandState::new();
    let mut b = RandState::new();
    seed_rand(&mut a, 42);
    seed_rand(&mut b, 42);
    for _ in 0..100 {
        assert_eq!(rand_u32(&mut a), rand_u32(&mut b));
    }
}

#[test]
fn stream_may_be_handed_between_phases() {
    // one run draws everything in one phase
    let mut whole = RandState::new();
    seed_rand(&mut whole, 7);
    let all: Vec<u32> = (0..20).map(|_| rand_u32(&mut whole)).collect();

    // another run draws in two phases, handing the state across
    let mut first = RandState::new();
    seed_rand(&mut first, 7);
    let mut drawn: Vec<u32> = (0..9).map(|_| rand_u32(&mut first)).collect();
    let mut second = RandState::new();
    seed_rand(&mut second, 0);
    second.next_rand = first.next_rand;
    drawn.extend((0..11).map(|_| rand_u32(&mut second)));

    assert_eq!(all, drawn);
}

#[test]
fn permute_keeps_contents() {
    let mut values: Vec<u32> = (0..10).collect();
    let mut state = RandState::new();
    seed_rand(&mut state, 3);
    permute(&mut values, &mut state);
    let mut sorted = values.clone();
    sorted.sort();
    assert_eq!(sorted, (0..10).collect::<Vec<u32>>());
}

#[test]
fn permute_draws_the_documented_order() {
    // each slot from the last downward swaps with a drawn slot at or below it
    let mut values: Vec<u32> = (0..10).collect();
    let mut state = RandState::new();
    seed_rand(&mut state, 3);
    permute(&mut values, &mut state);
    assert_eq!(values, vec![7, 9, 1, 4, 0, 6, 2, 5, 3, 8]);
}

#[test]
fn permute_is_reproducible() {
    let mut a: Vec<u32> = (0..10).collect();
    let mut b: Vec<u32> = (0..10).collect();
    let mut sa = RandState::new();
    let mut sb = RandState::new();
    seed_rand(&mut sa, 11);
    seed_rand(&mut sb, 11);
    permute(&mut a, &mut sa);
    permute(&mut b, &mut sb);
    assert_eq!(a, b);
}

#[test]
fn permute_handles_tiny_tables() {
    let mut state = RandState::new();
    let mut empty: Vec<u32> = vec![];
    permute(&mut empty, &mut state);
    assert!(empty.is_empty());
    let mut single: Vec<u32> = vec![9];
    permute(&mut single, &mut state);
    assert_eq!(single, vec![9]);
    // neither table asked the generator for anything
    assert_eq!(state.next_rand, 1);
}

#[test]
fn generated_table_is_a_permutation() {
    let mut state = RandState::new();
    seed_rand(&mut state, 5);
    let perm = perlin_generate_perm(&mut state);
    assert_eq!(perm.len(), POINT_COUNT);
    let mut sorted = perm.clone();
    sorted.sort();
    assert_eq!(sorted, (0..POINT_COUNT as u32).collect::<Vec<u32>>());
}

#[test]
fn lattice_index_folds_table_entries() {
    let identity: Vec<u32> = (0..POINT_COUNT as u32).collect();
    assert_eq!(lattice_index(&identity, &identity, &identity, 1, 2, 3), 1 ^ 2 ^ 3);
    assert_eq!(lattice_index(&identity, &identity, &identity, -1, 0, 0), 255);
    assert_eq!(lattice_index(&identity, &identity, &identity, 256, 0, 0), 0);
    let mut state = RandState::new();
    let px = perlin_generate_perm(&mut state);
    let py = perlin_generate_perm(&mut state);
    let pz = perlin_generate_perm(&mut state);
    for i in -4i32..4i32 {
        for j in -4i32..4i32 {
            assert!(lattice_index(&px, &py, &pz, i, j, 17) < POINT_COUNT);
        }
    }
}

#[test]
fn example_params_are_exact() {
    let p = example_params();
    assert_eq!(
        p,
        RaytracerParams {
            aspect_numer: 3,
            aspect_denom: 2,
            image_width: 320,
            image_height: 213,
            samples_per_pixel: 500,
            max_depth: 50,
        }
    );
}
