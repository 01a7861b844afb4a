use circle_packing::circle::{Circle, Dimensions, InvalidDimension};

#[test]
fn grow_adds_to_active_radius() {
    let mut c = Circle::new(0, 500, 500, 500, 10);
    for _ in 0..5 {
        c.grow(1);
    }
    assert_eq!(c.r, 15);
    assert!(c.is_active);
}

#[test]
fn grow_leaves_inactive_radius() {
    let mut c = Circle::new(0, 500, 500, 500, 10);
    c.deactivate();
    c.grow(7);
    assert_eq!(c.r, 10);
}

#[test]
fn grow_saturates_at_largest_radius() {
    let mut c = Circle::new(0, 1, 1, 1, u32::MAX - 1);
    c.grow(5);
    assert_eq!(c.r, u32::MAX);
}

#[test]
fn grow_older_counts_active_time_only() {
    let mut c = Circle::default(3);
    c.grow_older(4);
    assert_eq!(c.life_length, 4);
    c.deactivate();
    c.grow_older(4);
    assert_eq!(c.life_length, 4);
}

#[test]
fn deactivate_twice_equals_once() {
    let mut once = Circle::new(1, 2, 3, 4, 5);
    once.deactivate();
    let mut twice = Circle::new(1, 2, 3, 4, 5);
    twice.deactivate();
    twice.deactivate();
    assert!(!once.is_active);
    assert_eq!(once.is_active, twice.is_active);
    assert_eq!(once.r, twice.r);
    assert_eq!(once.life_length, twice.life_length);
    assert_eq!(once.n_neighbours, twice.n_neighbours);
    assert_eq!(once.id, twice.id);
    assert!(once == twice);
}

#[test]
fn activate_restores_flag() {
    let mut c = Circle::new(1, 2, 3, 4, 5);
    c.deactivate();
    c.activate();
    c.activate();
    assert!(c.is_active);
}

#[test]
fn intersects_at_exact_contact() {
    let a = Circle::new(0, 495, 500, 500, 5);
    let b = Circle::new(1, 505, 500, 500, 5);
    assert!(a.intersects(&b));
    assert!(b.intersects(&a));
    let c = Circle::new(2, 505, 500, 500, 4);
    assert!(!a.intersects(&c));
}

#[test]
fn intersects_uses_all_axes() {
    // 3-4-5 triangle in the x-y plane, 12 along z: distance 13.
    let a = Circle::new(0, 100, 100, 100, 6);
    let b = Circle::new(1, 103, 104, 112, 7);
    assert!(a.intersects(&b));
    let c = Circle::new(2, 103, 104, 112, 6);
    assert!(!a.intersects(&c));
}

#[test]
fn out_of_bounds_only_past_edge() {
    let c = Circle::new(0, 5, 500, 500, 5);
    assert!(!c.out_of_bounds(1000));
    let d = Circle::new(0, 5, 500, 500, 6);
    assert!(d.out_of_bounds(1000));
    let e = Circle::new(0, 990, 500, 500, 10);
    assert!(!e.out_of_bounds(1000));
    let f = Circle::new(0, 990, 500, 500, 11);
    assert!(f.out_of_bounds(1000));
    // Pinned axes at the midpoint leave only together with the used one.
    let g = Circle::new(0, 500, 500, 500, 500);
    assert!(!g.out_of_bounds(1000));
}

#[test]
fn size_formulas() {
    let c = Circle::new(0, 500, 500, 500, 5);
    let l = c.length();
    assert_eq!(l.dims, Dimensions::One);
    assert_eq!(l.base, 10);
    let a = c.area();
    assert_eq!(a.dims, Dimensions::Two);
    assert_eq!(a.base, 25);
    let v = c.volume();
    assert_eq!(v.dims, Dimensions::Three);
    assert_eq!(v.base, 125);
    assert_eq!(c.get_size(1), Ok(l));
    assert_eq!(c.get_size(2), Ok(a));
    assert_eq!(c.get_size(3), Ok(v));
}

#[test]
fn size_of_largest_radius() {
    let c = Circle::new(0, 0, 0, 0, u32::MAX);
    let m = u32::MAX as u128;
    assert_eq!(c.volume().base, m * m * m);
}

#[test]
fn size_rejects_invalid_dimensions() {
    let c = Circle::new(0, 500, 500, 500, 5);
    assert_eq!(c.get_size(0), Err(InvalidDimension { value: 0 }));
    assert_eq!(c.get_size(4), Err(InvalidDimension { value: 4 }));
    assert_eq!(c.get_size(-1), Err(InvalidDimension { value: -1 }));
}

#[test]
fn neighbour_bookkeeping() {
    let mut c = Circle::default(0);
    assert!(c.is_free());
    c.add_neighbour();
    c.add_neighbour();
    assert_eq!(c.n_neighbours, 2);
    assert!(!c.is_free());
    assert!(c.is_jammed(2));
    assert!(!c.is_jammed(3));
    c.clear_neighbours();
    assert!(c.is_free());
}

#[test]
fn equality_is_geometric() {
    let a = Circle::new(0, 1, 2, 3, 4);
    let mut b = Circle::new(9, 1, 2, 3, 4);
    b.deactivate();
    assert!(a == b);
    let c = Circle::new(0, 1, 2, 3, 5);
    assert!(a != c);
}

#[test]
fn dimensions_round_trip() {
    assert_eq!(Dimensions::from_i32(3), Ok(Dimensions::Three));
    assert_eq!(Dimensions::Two.as_i32(), 2);
    assert_eq!(Dimensions::from_i32(5), Err(InvalidDimension { value: 5 }));
}
