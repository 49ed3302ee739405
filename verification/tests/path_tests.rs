use raytrace::path::{light_slot, plan_bounce, BouncePlan, LightSlot, MAX_DEPTH};

#[test]
fn first_bounces_escape_roulette() {
    assert_eq!(plan_bounce(0), BouncePlan::Continue { roulette: false, next_depth: 1 });
    assert_eq!(plan_bounce(1), BouncePlan::Continue { roulette: false, next_depth: 2 });
    assert_eq!(plan_bounce(2), BouncePlan::Continue { roulette: false, next_depth: 3 });
    assert_eq!(plan_bounce(3), BouncePlan::Continue { roulette: true, next_depth: 4 });
}

#[test]
fn paths_stop_at_the_depth_limit() {
    assert_eq!(plan_bounce(49), BouncePlan::Continue { roulette: true, next_depth: 50 });
    assert_eq!(plan_bounce(50), BouncePlan::Stop);
    assert_eq!(plan_bounce(51), BouncePlan::Stop);
    assert_eq!(plan_bounce(u32::MAX), BouncePlan::Stop);
}

#[test]
fn camera_path_has_at_most_fifty_hits() {
    let mut depth = 0;
    let mut hits = 0;
    let mut roulette = 0;
    while let BouncePlan::Continue { roulette: r, next_depth } = plan_bounce(depth) {
        hits += 1;
        if r {
            roulette += 1;
        }
        depth = next_depth;
    }
    assert_eq!(hits, MAX_DEPTH);
    assert_eq!(roulette, MAX_DEPTH - 3);
}

#[test]
fn light_slot_inside_the_table() {
    assert_eq!(light_slot(0, 3), LightSlot { slot: 0, previous: None });
    assert_eq!(light_slot(1, 3), LightSlot { slot: 1, previous: Some(0) });
    assert_eq!(light_slot(2, 3), LightSlot { slot: 2, previous: Some(1) });
}

#[test]
fn light_slot_past_the_end_takes_the_last_light() {
    assert_eq!(light_slot(3, 3), LightSlot { slot: 2, previous: Some(1) });
    assert_eq!(light_slot(usize::MAX, 3), LightSlot { slot: 2, previous: Some(1) });
    assert_eq!(light_slot(1, 1), LightSlot { slot: 0, previous: None });
}
