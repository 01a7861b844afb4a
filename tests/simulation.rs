use circle_packing::circle::Circle;
use circle_packing::CircleDrawer;

fn quiet_drawer() -> CircleDrawer {
    let mut d = CircleDrawer::new();
    d.set_iter_per_sec(1);
    d.set_speed(1);
    d
}

#[test]
fn lone_particle_grows_five_ticks() {
    let mut d = quiet_drawer();
    assert!(d.put_circle_at(500, 500, 500));
    d.circles[0].grow(10);
    for _ in 0..5 {
        d.tick();
        d.advance();
    }
    assert_eq!(d.circles.len(), 1);
    assert_eq!(d.circles[0].r, 15);
    assert!(d.circles[0].is_active);
    assert!(d.is_still_growing);
    assert_eq!(d.circles[0].life_length, 5);
}

#[test]
fn two_particles_meet_at_sum_of_radii() {
    let mut d = quiet_drawer();
    assert!(d.put_circle_at(495, 500, 500));
    assert!(d.put_circle_at(505, 500, 500));
    for step in 1..=4u32 {
        d.tick();
        d.advance();
        assert_eq!(d.circles[0].r, step);
        assert!(d.circles[0].is_active && d.circles[1].is_active);
    }
    d.tick();
    d.advance();
    assert_eq!(d.circles[0].r + d.circles[1].r, 10);
    assert!(!d.circles[0].is_active);
    assert!(!d.circles[1].is_active);
    // Frozen from then on.
    d.tick();
    d.advance();
    assert_eq!(d.circles[0].r, 5);
    assert_eq!(d.circles[1].r, 5);
    assert!(!d.circles[0].is_active && !d.circles[1].is_active);
    assert!(!d.is_still_growing);
}

#[test]
fn placement_refuses_overlap() {
    let mut d = quiet_drawer();
    assert!(d.put_circle_at(500, 500, 500));
    d.circles[0].grow(10);
    assert!(!d.put_circle_at(505, 500, 500));
    assert!(!d.put_circle_at(510, 500, 500));
    assert!(d.put_circle_at(511, 500, 500));
    assert_eq!(d.circles.len(), 2);
    assert_eq!(d.circles[1].id, 1);
    assert_eq!(d.circles[1].r, 0);
    assert_eq!(d.next_circle_id, 2);
}

#[test]
fn saturated_domain_stops_the_run() {
    let mut d = quiet_drawer();
    assert!(d.put_circle_at(500, 500, 500));
    d.circles[0].grow(2000);
    assert!(!d.is_finished());
    d.draw();
    assert_eq!(d.circles.len(), 1);
    assert!(d.is_time_passed());
    assert!(d.is_finished());
}

#[test]
fn draw_spawns_and_samples() {
    let mut d = quiet_drawer();
    d.set_gen_S(true);
    d.set_gen_N(true);
    d.set_gen_T(true);
    d.draw();
    assert_eq!(d.circles.len(), 1);
    let c = d.circles[0];
    assert!(c.x <= 1000 && c.y <= 1000);
    assert_eq!(c.z, 500);
    assert_eq!(c.id, 0);
    assert_eq!(c.r, 1);
    assert_eq!(d.get_data_N().clone(), vec![1usize]);
    assert_eq!(d.get_data_S().clone(), vec![1u128]);
    assert_eq!(d.get_data_T().clone(), vec![1u64]);
}

#[test]
fn one_dimension_pins_other_axes() {
    let mut d = quiet_drawer();
    assert!(d.set_dimensions(1).is_ok());
    d.draw();
    d.draw();
    assert_eq!(d.circles.len(), 2);
    for c in d.circles.iter() {
        assert!(c.x <= 1000);
        assert_eq!(c.y, 500);
        assert_eq!(c.z, 500);
    }
}

#[test]
fn three_dimensions_keep_depth_order() {
    let mut d = quiet_drawer();
    assert!(d.set_dimensions(3).is_ok());
    assert!(d.put_circle_at(100, 100, 100));
    assert!(d.put_circle_at(300, 300, 900));
    assert!(d.put_circle_at(600, 600, 400));
    let zs: Vec<u32> = d.circles.iter().map(|c| c.z).collect();
    assert_eq!(zs, vec![900, 400, 100]);
}

#[test]
fn invalid_dimensions_refused() {
    let mut d = quiet_drawer();
    assert!(d.set_dimensions(0).is_err());
    assert!(d.set_dimensions(4).is_err());
    assert_eq!(d.dimensions.as_i32(), 2);
}

#[test]
fn growth_is_exact_over_seconds() {
    let mut d = quiet_drawer();
    d.set_iter_per_sec(4);
    d.set_speed(3);
    assert!(d.put_circle_at(500, 500, 500));
    let mut radii = Vec::new();
    for _ in 0..8 {
        d.tick();
        d.advance();
        radii.push(d.circles[0].r);
    }
    assert_eq!(radii, vec![0, 1, 2, 3, 3, 4, 5, 6]);
}

#[test]
fn second_boundary_every_iter_per_sec_ticks() {
    let mut d = quiet_drawer();
    d.set_iter_per_sec(3);
    let mut marks = Vec::new();
    for _ in 0..6 {
        d.tick();
        marks.push(d.is_second_finished());
    }
    assert_eq!(marks, vec![false, false, true, false, false, true]);
}

#[test]
fn finished_waits_for_growth() {
    let mut d = quiet_drawer();
    d.set_time(1);
    d.set_should_wait_until_end(true);
    d.tick();
    assert!(d.is_time_passed());
    assert!(!d.is_finished());
    d.set_should_wait_until_end(false);
    assert!(d.is_finished());
}

#[test]
fn bounded_deactivates_past_edge() {
    let mut d = quiet_drawer();
    d.set_bounded(true);
    assert!(d.put_circle_at(3, 500, 500));
    assert!(d.put_circle_at(500, 500, 500));
    for _ in 0..3 {
        d.tick();
        d.advance();
    }
    assert!(d.circles[0].is_active);
    d.tick();
    d.advance();
    assert!(!d.circles[0].is_active);
    assert_eq!(d.circles[0].r, 4);
    assert!(d.circles[1].is_active);
}

#[test]
fn hungry_removes_jammed() {
    let mut d = quiet_drawer();
    d.set_hungry(true);
    d.set_neighbour_limit(2);
    assert!(d.put_circle_at(500, 500, 500));
    assert!(d.put_circle_at(510, 500, 500));
    assert!(d.put_circle_at(520, 500, 500));
    assert!(d.put_circle_at(900, 900, 500));
    for _ in 0..5 {
        d.tick();
        d.advance();
    }
    // The middle particle touched both others and left; the outer two had one
    // neighbour each and stay, inactive.
    let ids: Vec<u64> = d.circles.iter().map(|c| c.id).collect();
    assert_eq!(ids, vec![0, 2, 3]);
    assert!(!d.circles[0].is_active);
    assert_eq!(d.circles[0].n_neighbours, 1);
    assert!(d.circles[2].is_active);
    // Next step the outer two are apart and come back to life.
    d.tick();
    d.advance();
    assert!(d.circles[0].is_active);
    assert!(d.circles[1].is_active);
    assert_eq!(d.circles[0].n_neighbours, 0);
}

#[test]
fn hungry_reactivates_free() {
    let mut d = quiet_drawer();
    d.set_hungry(true);
    assert!(d.put_circle_at(500, 500, 500));
    d.circles[0].deactivate();
    d.tick();
    d.advance();
    assert!(d.circles[0].is_active);
    assert_eq!(d.circles[0].r, 0);
}

#[test]
fn clear_resets_run() {
    let mut d = quiet_drawer();
    d.set_gen_N(true);
    d.draw();
    d.clear();
    assert_eq!(d.circles.len(), 0);
    assert_eq!(d.clock, 0);
    assert_eq!(d.next_circle_id, 0);
    assert!(d.get_data_N().is_empty());
}

#[test]
fn size_distribution_sorted() {
    let mut d = quiet_drawer();
    assert!(d.put_circle_at(100, 100, 500));
    assert!(d.put_circle_at(500, 500, 500));
    assert!(d.put_circle_at(900, 900, 500));
    d.circles[0].grow(3);
    d.circles[1].grow(1);
    d.circles[2].grow(2);
    assert_eq!(d.get_data_size_distrib(), vec![1u128, 4, 9]);
}

#[test]
fn direct_circle_insert_equivalent() {
    let c = Circle::new(0, 500, 500, 500, 0);
    let mut d = quiet_drawer();
    assert!(d.put_circle_at(500, 500, 500));
    assert!(d.circles[0] == c);
}

#[test]
fn random_spawns_spread() {
    let mut d = quiet_drawer();
    assert!(d.set_dimensions(1).is_ok());
    for _ in 0..5 {
        d.draw();
    }
    assert_eq!(d.circles.len(), 5);
    assert!(!d.is_finished());
    let first = d.circles[0].x;
    assert!(d.circles.iter().any(|c| c.x != first));
    let ids: Vec<u64> = d.circles.iter().map(|c| c.id).collect();
    assert_eq!(ids, vec![0, 1, 2, 3, 4]);
}

/// A run whose time is up but which waits for growth: `draw` spawns nothing
/// and only grows and resolves.
fn draining_drawer() -> CircleDrawer {
    let mut d = quiet_drawer();
    d.set_time(0);
    d.set_should_wait_until_end(true);
    d
}

#[test]
fn lone_particle_grows_through_draw() {
    let mut d = draining_drawer();
    assert!(d.put_circle_at(500, 500, 500));
    d.circles[0].grow(10);
    for _ in 0..5 {
        d.draw();
    }
    assert_eq!(d.circles.len(), 1);
    assert_eq!(d.circles[0].r, 15);
    assert!(d.circles[0].is_active);
    assert!(!d.is_finished());
}

#[test]
fn two_particles_meet_through_draw() {
    let mut d = draining_drawer();
    assert!(d.put_circle_at(495, 500, 500));
    assert!(d.put_circle_at(505, 500, 500));
    for k in 1..=7u32 {
        d.draw();
        assert_eq!(d.circles.len(), 2);
        assert_eq!(d.circles[0].r, k.min(5));
        assert_eq!(d.circles[1].r, k.min(5));
        assert_eq!(d.circles[0].is_active, k < 5);
        assert_eq!(d.circles[1].is_active, k < 5);
    }
    // Nothing grows any more, so the run is over.
    assert!(d.is_finished());
}

#[test]
fn series_sampled_after_resolution() {
    let mut d = quiet_drawer();
    d.set_gen_N(true);
    d.set_gen_S(true);
    assert!(d.put_circle_at(495, 500, 500));
    assert!(d.put_circle_at(505, 500, 500));
    for _ in 0..5 {
        d.tick();
        d.advance();
    }
    assert_eq!(d.get_data_N().clone(), vec![2usize, 2, 2, 2, 0]);
    assert_eq!(d.get_data_S().clone(), vec![2u128, 8, 18, 32, 50]);
    assert!(!d.is_still_growing);
}

#[test]
fn hungry_series_skip_removed() {
    let mut d = quiet_drawer();
    d.set_gen_S(true);
    d.set_gen_N(true);
    d.set_hungry(true);
    d.set_neighbour_limit(1);
    assert!(d.put_circle_at(495, 500, 500));
    assert!(d.put_circle_at(505, 500, 500));
    for _ in 0..5 {
        d.tick();
        d.advance();
    }
    assert_eq!(d.circles.len(), 0);
    assert_eq!(d.get_data_S()[4], 0);
    assert_eq!(d.get_data_N()[4], 0);
}
