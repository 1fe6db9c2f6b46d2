use rtiow::sweep::{nearest_hit, pick_root};

#[test]
fn the_nearer_root_is_taken_first() {
    assert_eq!(pick_root(Some((5, 15)), 1, 100), Some(5));
    assert_eq!(pick_root(Some((5, 15)), 5, 5), Some(5));
}

#[test]
fn the_farther_root_is_taken_from_inside() {
    assert_eq!(pick_root(Some((-5, 15)), 1, 100), Some(15));
    assert_eq!(pick_root(Some((-5, 15)), 1, 15), Some(15));
    assert_eq!(pick_root(Some((0, 1)), 1, 100), Some(1));
}

#[test]
fn roots_outside_the_window_are_a_miss() {
    assert_eq!(pick_root(Some((-5, 0)), 1, 100), None);
    assert_eq!(pick_root(Some((101, 200)), 1, 100), None);
    assert_eq!(pick_root(Some((-5, 101)), 1, 100), None);
    assert_eq!(pick_root(Some((5, 15)), 1, 4), None);
    assert_eq!(pick_root(None, 1, 100), None);
    assert_eq!(pick_root(Some((5, 15)), 10, 1), None);
}

#[test]
fn the_ends_of_the_window_count() {
    assert_eq!(pick_root(Some((1, 50)), 1, 100), Some(1));
    assert_eq!(pick_root(Some((100, 150)), 1, 100), Some(100));
    assert_eq!(pick_root(Some((i64::MIN, i64::MAX)), i64::MIN, i64::MAX), Some(i64::MIN));
}

#[test]
fn an_empty_scene_is_a_miss() {
    assert_eq!(nearest_hit(&vec![], 1, i64::MAX), None);
}

#[test]
fn a_scene_that_the_ray_misses_is_a_miss() {
    let scene = vec![None, Some((-9, -3)), None, Some((-2, 0))];
    assert_eq!(nearest_hit(&scene, 1, i64::MAX), None);
}

#[test]
fn the_nearest_surface_wins_whatever_the_order() {
    let scene = vec![Some((30, 40)), Some((10, 20)), Some((50, 60))];
    assert_eq!(nearest_hit(&scene, 1, i64::MAX), Some((1, 10)));
    let scene = vec![Some((50, 60)), Some((30, 40)), Some((10, 20))];
    assert_eq!(nearest_hit(&scene, 1, i64::MAX), Some((2, 10)));
    let scene = vec![Some((10, 20)), Some((30, 40)), Some((50, 60))];
    assert_eq!(nearest_hit(&scene, 1, i64::MAX), Some((0, 10)));
}

#[test]
fn the_last_of_equal_roots_wins() {
    let scene = vec![Some((10, 20)), Some((10, 30)), Some((-4, 10)), Some((11, 12))];
    assert_eq!(nearest_hit(&scene, 1, i64::MAX), Some((2, 10)));
}

#[test]
fn a_surface_around_the_origin_is_met_at_its_far_root() {
    let scene = vec![Some((30, 40)), Some((-10, 20)), None];
    assert_eq!(nearest_hit(&scene, 1, i64::MAX), Some((1, 20)));
}

#[test]
fn a_far_root_beyond_a_nearer_hit_is_pruned() {
    let scene = vec![Some((15, 40)), Some((-10, 20))];
    assert_eq!(nearest_hit(&scene, 1, i64::MAX), Some((0, 15)));
}

#[test]
fn the_window_bounds_the_sweep() {
    let scene = vec![Some((30, 40)), Some((10, 20))];
    assert_eq!(nearest_hit(&scene, 1, 9), None);
    assert_eq!(nearest_hit(&scene, 11, 25), Some((1, 20)));
    assert_eq!(nearest_hit(&scene, 21, 100), Some((0, 30)));
    assert_eq!(nearest_hit(&scene, 1, 10), Some((1, 10)));
}
