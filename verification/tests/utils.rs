use pathtrace::utils::{clamp_t, find_interval};

#[test]
fn clamp_inside_is_unchanged() {
    assert_eq!(clamp_t(5, 0, 10), 5);
    assert_eq!(clamp_t(0, 0, 10), 0);
    assert_eq!(clamp_t(10, 0, 10), 10);
}

#[test]
fn clamp_outside_goes_to_the_bound() {
    assert_eq!(clamp_t(-3, 0, 10), 0);
    assert_eq!(clamp_t(11, 0, 10), 10);
    assert_eq!(clamp_t(2.5, 0.0, 1.0), 1.0);
    assert_eq!(clamp_t(-2.5, 0.0, 1.0), 0.0);
}

#[test]
fn clamp_prefers_the_lower_bound_when_bounds_cross() {
    // low > high: a value below low is reported as low
    assert_eq!(clamp_t(1, 5, 3), 5);
    // a value that is not below low but above high is reported as high
    assert_eq!(clamp_t(7, 5, 3), 3);
}

#[test]
fn find_interval_on_a_step() {
    // the predicate holds on 0, 1, 2 and fails from 3 on
    assert_eq!(find_interval(8, |i| i < 3), 2);
    assert_eq!(find_interval(8, |i| i < 1), 0);
    assert_eq!(find_interval(8, |i| i < 5), 4);
}

#[test]
fn find_interval_clamps_at_both_ends() {
    // never true: the boundary is before the first element
    assert_eq!(find_interval(8, |_| false), 0);
    // always true: the boundary is after the last element, clamped to size - 2
    assert_eq!(find_interval(8, |_| true), 6);
    assert_eq!(find_interval(2, |_| true), 0);
}

#[test]
fn find_interval_on_small_sizes() {
    assert_eq!(find_interval(0, |_| true), 0);
    assert_eq!(find_interval(1, |_| false), 0);
    // one element, and the boundary behind it: 0 is clamped to size - 2
    assert_eq!(find_interval(1, |_| true), -1);
    assert_eq!(find_interval(-4, |_| true), 0);
}

#[test]
fn find_interval_over_a_table() {
    let nodes = [0, 10, 20, 30, 40];
    let locate = |x: i32| find_interval(nodes.len() as i32, |i| nodes[i as usize] <= x);
    assert_eq!(locate(-5), 0);
    assert_eq!(locate(0), 0);
    assert_eq!(locate(9), 0);
    assert_eq!(locate(10), 1);
    assert_eq!(locate(35), 3);
    assert_eq!(locate(40), 3);
    assert_eq!(locate(400), 3);
}
