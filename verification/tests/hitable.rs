use pathtrace::hitable::{closer, Hit, Hitable, T_MAX};

// A surface that answers every ray with a fixed distance, or with nothing.
struct Fixed(Option<i64>, &'static str);

// Each `spec_` function names what its twin computes: here, the twin itself.
impl Hitable for Fixed {
    type Ray = ();
    type Detail = &'static str;

    fn spec_hit(&self, r: &()) -> Option<Hit<&'static str>> {
        self.hit(r)
    }

    fn hit(&self, _r: &()) -> Option<Hit<&'static str>> {
        self.0.map(|t| Hit { t, detail: self.1 })
    }
}

#[test]
fn closer_keeps_the_nearer_hit() {
    let kept = closer(Some(Hit { t: 5, detail: 'a' }), Some(Hit { t: 3, detail: 'b' })).unwrap();
    assert_eq!((kept.t, kept.detail), (3, 'b'));
    let kept = closer(Some(Hit { t: 5, detail: 'a' }), Some(Hit { t: 7, detail: 'b' })).unwrap();
    assert_eq!((kept.t, kept.detail), (5, 'a'));
    let kept = closer(Some(Hit { t: 5, detail: 'a' }), None).unwrap();
    assert_eq!((kept.t, kept.detail), (5, 'a'));
    let kept = closer(None, Some(Hit { t: 7, detail: 'b' })).unwrap();
    assert_eq!((kept.t, kept.detail), (7, 'b'));
    assert!(closer::<char>(None, None).is_none());
}

#[test]
fn closer_keeps_the_earlier_of_two_equal_hits() {
    let kept = closer(Some(Hit { t: 5, detail: 'a' }), Some(Hit { t: 5, detail: 'b' })).unwrap();
    assert_eq!(kept.detail, 'a');
}

#[test]
fn a_hit_at_the_far_bound_does_not_count() {
    assert!(closer(None, Some(Hit { t: T_MAX, detail: 'a' })).is_none());
    let kept = closer(None, Some(Hit { t: T_MAX - 1, detail: 'a' })).unwrap();
    assert_eq!(kept.t, T_MAX - 1);
}

#[test]
fn list_reports_the_nearest_member() {
    let list = vec![Fixed(Some(9), "far"), Fixed(None, "miss"), Fixed(Some(2), "near"), Fixed(Some(2), "late")];
    let hit = list.hit(&()).unwrap();
    assert_eq!((hit.t, hit.detail), (2, "near"));
}

#[test]
fn list_of_misses_is_a_miss() {
    let list = vec![Fixed(None, "a"), Fixed(None, "b")];
    assert!(list.hit(&()).is_none());
    let empty: Vec<Fixed> = Vec::new();
    assert!(empty.hit(&()).is_none());
}
