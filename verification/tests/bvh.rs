use pathtrace::bounds::Bounds3;
use pathtrace::bvh_accel::{BVHAccel, BVHLinearNode, BVHSplitMethod};
use pathtrace::hitable::{Hit, Hitable};
use pathtrace::primitive::Primitive;
use pathtrace::ray::Probe;
use pathtrace::vec3::{Vec3, Vec3Axis};

// A small scene of spheres in floating point, seen by the index through the
// grid boxes that enclose them.

struct Ray {
    origin: [f64; 3],
    direction: [f64; 3],
}

#[derive(Clone)]
struct Sphere {
    id: usize,
    center: [f64; 3],
    radius: f64,
}

fn axis_index(axis: Vec3Axis) -> usize {
    match axis {
        Vec3Axis::X => 0,
        Vec3Axis::Y => 1,
        Vec3Axis::Z => 2,
    }
}

fn slab(ray: &Ray, b: &Bounds3) -> bool {
    let lo = [b.pmin.x() as f64, b.pmin.y() as f64, b.pmin.z() as f64];
    let hi = [b.pmax.x() as f64, b.pmax.y() as f64, b.pmax.z() as f64];
    let mut t0 = 0.0;
    let mut t1 = f64::MAX;
    for a in 0..3 {
        let inv = 1.0 / ray.direction[a];
        let mut near = (lo[a] - ray.origin[a]) * inv;
        let mut far = (hi[a] - ray.origin[a]) * inv;
        if near > far {
            std::mem::swap(&mut near, &mut far);
        }
        far *= 1.0 + 2.0 * (3.0 * f64::EPSILON) / (1.0 - 3.0 * f64::EPSILON);
        if near > t0 {
            t0 = near;
        }
        if far < t1 {
            t1 = far;
        }
        if t0 > t1 {
            return false;
        }
    }
    true
}

// Each `spec_` function names what its twin computes: here, the twin itself.
impl Probe for Ray {
    fn spec_dir_is_neg(&self, axis: Vec3Axis) -> bool {
        self.dir_is_neg(axis)
    }

    fn dir_is_neg(&self, axis: Vec3Axis) -> bool {
        1.0 / self.direction[axis_index(axis)] < 0.0
    }

    fn spec_intersect_p(&self, bounds: Bounds3) -> bool {
        self.intersect_p(&bounds)
    }

    fn intersect_p(&self, bounds: &Bounds3) -> bool {
        slab(self, bounds)
    }
}

// A positive distance as an integer that orders as the distance does.
fn key(t: f64) -> i64 {
    t.to_bits() as i64
}

impl Hitable for Sphere {
    type Ray = Ray;
    type Detail = usize;

    fn spec_hit(&self, r: &Ray) -> Option<Hit<usize>> {
        self.hit(r)
    }

    fn hit(&self, r: &Ray) -> Option<Hit<usize>> {
        let oc = [
            r.origin[0] - self.center[0],
            r.origin[1] - self.center[1],
            r.origin[2] - self.center[2],
        ];
        let dot = |a: &[f64; 3], b: &[f64; 3]| a[0] * b[0] + a[1] * b[1] + a[2] * b[2];
        let a = dot(&r.direction, &r.direction);
        let b = dot(&oc, &r.direction);
        let c = dot(&oc, &oc) - self.radius * self.radius;
        let discriminant = b * b - a * c;
        if discriminant > 0.0 {
            for t in [(-b - discriminant.sqrt()) / a, (-b + discriminant.sqrt()) / a] {
                if t > 1e-5 && t < f64::MAX {
                    return Some(Hit { t: key(t), detail: self.id });
                }
            }
        }
        None
    }
}

impl Primitive for Sphere {
    fn spec_world_bound(&self) -> Bounds3 {
        self.world_bound()
    }

    fn world_bound(&self) -> Bounds3 {
        let lo = |a: usize| (self.center[a] - self.radius).floor() as i32;
        let hi = |a: usize| (self.center[a] + self.radius).ceil() as i32;
        Bounds3::new(Vec3::new(lo(0), lo(1), lo(2)), Vec3::new(hi(0), hi(1), hi(2)))
    }
}

fn sphere(id: usize, x: f64, y: f64, z: f64, radius: f64) -> Sphere {
    Sphere { id, center: [x, y, z], radius }
}

fn build(shapes: Vec<Sphere>) -> BVHAccel<Sphere> {
    BVHAccel::new(1, BVHSplitMethod::Equal, shapes).build()
}

struct Lcg(u64);

impl Lcg {
    fn next(&mut self) -> f64 {
        self.0 = self.0.wrapping_mul(6364136223846793005).wrapping_add(1442695040888963407);
        ((self.0 >> 11) as f64) / ((1u64 << 53) as f64)
    }

    fn between(&mut self, lo: f64, hi: f64) -> f64 {
        lo + (hi - lo) * self.next()
    }
}

fn random_scene(seed: u64, n: usize) -> Vec<Sphere> {
    let mut rng = Lcg(seed);
    let mut shapes = Vec::new();
    for id in 0..n {
        let x = rng.between(-100.0, 100.0);
        let y = rng.between(-100.0, 100.0);
        let z = rng.between(-100.0, 100.0);
        let r = rng.between(0.5, 12.0);
        shapes.push(sphere(id, x, y, z, r));
    }
    shapes
}

fn union_all(shapes: &[Sphere]) -> Bounds3 {
    let mut u = shapes[0].world_bound();
    for s in &shapes[1..] {
        u = Bounds3::union(&u, &s.world_bound());
    }
    u
}

fn same(a: &Bounds3, b: &Bounds3) -> bool {
    a.pmin.0 == b.pmin.0
        && a.pmin.1 == b.pmin.1
        && a.pmin.2 == b.pmin.2
        && a.pmax.0 == b.pmax.0
        && a.pmax.1 == b.pmax.1
        && a.pmax.2 == b.pmax.2
}

// Walks the array from `at` and returns the index after the subtree, its
// depth, and checks the layout on the way.
fn check_subtree(nodes: &[BVHLinearNode], shapes: &[Sphere], at: usize, seen: &mut Vec<bool>) -> (usize, usize, Bounds3) {
    let node = &nodes[at];
    if node.n_primitives > 0 {
        let mut u = shapes[node.offset].world_bound();
        for k in node.offset..node.offset + node.n_primitives {
            assert!(!seen[k]);
            seen[k] = true;
            u = Bounds3::union(&u, &shapes[k].world_bound());
        }
        assert!(same(&u, &node.bounds));
        (at + 1, 1, u)
    } else {
        let (after_first, d1, b1) = check_subtree(nodes, shapes, at + 1, seen);
        assert_eq!(node.offset, after_first);
        let (after_second, d2, b2) = check_subtree(nodes, shapes, node.offset, seen);
        let u = Bounds3::union(&b1, &b2);
        assert!(same(&u, &node.bounds));
        (after_second, 1 + d1.max(d2), u)
    }
}

#[test]
fn empty_collection_always_misses() {
    let bvh = build(Vec::new());
    assert_eq!(bvh.nodes().len(), 0);
    assert_eq!(bvh.shapes().len(), 0);
    let ray = Ray { origin: [0.0, 0.0, 0.0], direction: [0.0, 1.0, 0.0] };
    assert!(bvh.intersect(&ray).is_none());
}

#[test]
fn unbuilt_index_has_no_nodes() {
    let bvh = BVHAccel::new(1, BVHSplitMethod::SAH, vec![sphere(0, 0.0, 0.0, 0.0, 1.0)]);
    assert_eq!(bvh.nodes().len(), 0);
    assert_eq!(bvh.shapes().len(), 1);
}

#[test]
fn single_surface_is_one_leaf() {
    let bvh = build(vec![sphere(0, 1.0, 2.0, 3.0, 1.0)]);
    assert_eq!(bvh.nodes().len(), 1);
    let leaf = &bvh.nodes()[0];
    assert_eq!(leaf.n_primitives, 1);
    assert_eq!(leaf.offset, 0);
    assert!(same(&leaf.bounds, &Bounds3::new(Vec3::new(0, 1, 2), Vec3::new(2, 3, 4))));
}

#[test]
fn coinciding_centroids_make_one_leaf() {
    let shapes = vec![
        sphere(0, 5.0, 5.0, 5.0, 1.0),
        sphere(1, 5.0, 5.0, 5.0, 2.0),
        sphere(2, 5.0, 5.0, 5.0, 3.0),
    ];
    let bvh = build(shapes);
    assert_eq!(bvh.nodes().len(), 1);
    assert_eq!(bvh.nodes()[0].n_primitives, 3);
    assert_eq!(bvh.nodes()[0].offset, 0);
    let ids: Vec<usize> = bvh.shapes().iter().map(|s| s.id).collect();
    assert_eq!(ids, vec![0, 1, 2]);
}

#[test]
fn two_surfaces_split_along_the_widest_axis() {
    let bvh = build(vec![sphere(0, 0.0, 40.0, 0.0, 1.0), sphere(1, 3.0, -40.0, 1.0, 1.0)]);
    let nodes = bvh.nodes();
    assert_eq!(nodes.len(), 3);
    assert_eq!(nodes[0].n_primitives, 0);
    assert!(matches!(nodes[0].axis, Vec3Axis::Y));
    assert_eq!(nodes[0].offset, 2);
    assert_eq!((nodes[1].n_primitives, nodes[1].offset), (1, 0));
    assert_eq!((nodes[2].n_primitives, nodes[2].offset), (1, 1));
    // the lower centroid comes first
    let ids: Vec<usize> = bvh.shapes().iter().map(|s| s.id).collect();
    assert_eq!(ids, vec![1, 0]);
}

#[test]
fn median_split_orders_the_halves() {
    // centroids along x in descending order: the selection has to move them
    let shapes: Vec<Sphere> = (0..9).map(|i| sphere(i, 90.0 - 10.0 * i as f64, 0.0, 0.0, 1.0)).collect();
    let bvh = build(shapes);
    let xs: Vec<f64> = bvh.shapes().iter().map(|s| s.center[0]).collect();
    // every leaf holds one surface, so the leaves are sorted along x
    assert_eq!(xs, vec![10.0, 20.0, 30.0, 40.0, 50.0, 60.0, 70.0, 80.0, 90.0]);
    assert_eq!(bvh.nodes().len(), 17);
    // the root splits nine surfaces into four and five
    assert_eq!(bvh.nodes()[0].offset, 8);
}

#[test]
fn reordered_surfaces_are_a_permutation() {
    for n in [1usize, 2, 3, 7, 64, 100] {
        let bvh = build(random_scene(7 + n as u64, n));
        let mut seen = vec![false; n];
        for s in bvh.shapes() {
            assert!(!seen[s.id]);
            seen[s.id] = true;
        }
        assert!(seen.iter().all(|&b| b));
    }
}

#[test]
fn root_box_is_the_union_of_all_boxes() {
    for n in [1usize, 2, 5, 33, 200] {
        let shapes = random_scene(1000 + n as u64, n);
        let expected = union_all(&shapes);
        let bvh = build(shapes);
        assert!(same(&bvh.nodes()[0].bounds, &expected));
        assert!(same(&union_all(bvh.shapes()), &expected));
    }
}

#[test]
fn array_is_the_tree_in_pre_order() {
    for n in [1usize, 2, 3, 10, 257] {
        let bvh = build(random_scene(99 + n as u64, n));
        let mut seen = vec![false; n];
        let (after, depth, _) = check_subtree(bvh.nodes(), bvh.shapes(), 0, &mut seen);
        assert_eq!(after, bvh.nodes().len());
        assert!(seen.iter().all(|&b| b));
        // equal-count splits halve the range at every level
        let mut levels = 1;
        while (1usize << (levels - 1)) < n {
            levels += 1;
        }
        assert!(depth <= levels);
        assert!(depth <= 65);
    }
}

#[test]
fn intersect_finds_the_nearest_of_two() {
    let bvh = build(vec![sphere(0, 0.0, 0.0, 20.0, 2.0), sphere(1, 0.0, 0.0, 10.0, 2.0)]);
    let ray = Ray { origin: [0.0, 0.0, 0.0], direction: [0.0, 0.0, 1.0] };
    let hit = bvh.intersect(&ray).unwrap();
    assert_eq!(hit.detail, 1);
    assert_eq!(hit.t, key(8.0));
    let back = Ray { origin: [0.0, 0.0, 30.0], direction: [0.0, 0.0, -1.0] };
    let hit = bvh.intersect(&back).unwrap();
    assert_eq!(hit.detail, 0);
    assert_eq!(hit.t, key(8.0));
    let away = Ray { origin: [0.0, 0.0, 0.0], direction: [0.0, 1.0, 0.0] };
    assert!(bvh.intersect(&away).is_none());
}

#[test]
fn intersect_agrees_with_a_linear_scan() {
    for (seed, n) in [(1u64, 1usize), (2, 2), (3, 17), (4, 150)] {
        let shapes = random_scene(seed, n);
        let list = shapes.clone();
        let bvh = build(shapes);
        let mut rng = Lcg(seed * 7919);
        let mut hits = 0;
        for _ in 0..400 {
            let ray = Ray {
                origin: [rng.between(-150.0, 150.0), rng.between(-150.0, 150.0), rng.between(-150.0, 150.0)],
                direction: [rng.between(-1.0, 1.0), rng.between(-1.0, 1.0), rng.between(-1.0, 1.0)],
            };
            let fast = bvh.intersect(&ray);
            let slow = list.hit(&ray);
            assert_eq!(fast.is_some(), slow.is_some());
            if let (Some(f), Some(s)) = (fast, slow) {
                assert_eq!(f.t, s.t);
                hits += 1;
            }
        }
        if n >= 17 {
            assert!(hits > 0);
        }
    }
}

// The same spheres, met by rays that live on the grid.

struct Ball(Sphere);

impl Hitable for Ball {
    type Ray = pathtrace::ray::Ray;
    type Detail = usize;

    fn spec_hit(&self, r: &pathtrace::ray::Ray) -> Option<Hit<usize>> {
        self.hit(r)
    }

    fn hit(&self, r: &pathtrace::ray::Ray) -> Option<Hit<usize>> {
        let float = Ray {
            origin: [r.origin.x() as f64, r.origin.y() as f64, r.origin.z() as f64],
            direction: [r.direction.x() as f64, r.direction.y() as f64, r.direction.z() as f64],
        };
        self.0.hit(&float)
    }
}

impl Primitive for Ball {
    fn spec_world_bound(&self) -> Bounds3 {
        self.world_bound()
    }

    fn world_bound(&self) -> Bounds3 {
        self.0.world_bound()
    }
}

fn grid_ray(origin: (i32, i32, i32), direction: (i32, i32, i32)) -> pathtrace::ray::Ray {
    pathtrace::ray::Ray::new(
        Vec3::new(origin.0, origin.1, origin.2),
        Vec3::new(direction.0, direction.1, direction.2),
    )
}

fn cube(lo: i32, hi: i32) -> Bounds3 {
    Bounds3::new(Vec3::new(lo, lo, lo), Vec3::new(hi, hi, hi))
}

#[test]
fn grid_ray_against_a_box() {
    let b = cube(2, 4);
    // along the diagonal, into the box
    assert!(b.intersect_p(&grid_ray((0, 0, 0), (1, 1, 1)), &10));
    // the box is entered at t = 2
    assert!(b.intersect_p(&grid_ray((0, 0, 0), (1, 1, 1)), &2));
    assert!(!b.intersect_p(&grid_ray((0, 0, 0), (1, 1, 1)), &1));
    // away from the box
    assert!(!b.intersect_p(&grid_ray((0, 0, 0), (-1, -1, -1)), &10));
    // from inside
    assert!(b.intersect_p(&grid_ray((3, 3, 3), (0, 0, 1)), &0));
    // past a corner
    assert!(!b.intersect_p(&grid_ray((0, 0, 0), (1, 3, 1)), &100));
    // entered between two grid points: x in [2, 4] for t in [2/3, 4/3]
    assert!(b.intersect_p(&grid_ray((0, 3, 3), (3, 0, 0)), &1));
    assert!(!b.intersect_p(&grid_ray((0, 3, 3), (3, 0, 0)), &0));
}

#[test]
fn grid_ray_along_a_face() {
    let b = cube(2, 4);
    // in the plane of the face x = 4, across the box
    assert!(b.intersect_p(&grid_ray((4, 0, 3), (0, 1, 0)), &10));
    // parallel to that face, just outside
    assert!(!b.intersect_p(&grid_ray((5, 0, 3), (0, 1, 0)), &10));
    // a ray that does not move stays where it is
    assert!(b.intersect_p(&grid_ray((3, 3, 3), (0, 0, 0)), &10));
    assert!(!b.intersect_p(&grid_ray((0, 3, 3), (0, 0, 0)), &10));
    // no parameter is admitted
    assert!(!b.intersect_p(&grid_ray((3, 3, 3), (0, 0, 1)), &-1));
}

#[test]
fn grid_ray_against_a_box_that_is_inside_out() {
    let b = Bounds3::new(Vec3::new(4, 4, 4), Vec3::new(2, 2, 2));
    assert!(!b.intersect_p(&grid_ray((0, 0, 0), (1, 1, 1)), &10));
    assert!(!b.intersect_p(&grid_ray((3, 3, 3), (0, 0, 0)), &10));
}

#[test]
fn grid_ray_at_the_limits_of_the_grid() {
    let b = Bounds3::new(
        Vec3::new(i32::MIN, i32::MIN, i32::MIN),
        Vec3::new(i32::MAX, i32::MAX, i32::MAX),
    );
    let r = grid_ray((i32::MAX, i32::MIN, 0), (i32::MIN, i32::MAX, i32::MIN));
    assert!(b.intersect_p(&r, &i64::MAX));
    let p = r.point_at_paramter(i64::MAX);
    assert_eq!(p.x(), i32::MAX as i128 + i64::MAX as i128 * i32::MIN as i128);
    let p = grid_ray((1, 2, 3), (4, -5, 6)).point_at_paramter(-2);
    assert_eq!((p.x(), p.y(), p.z()), (-7, 12, -9));
}

#[test]
fn grid_rays_agree_with_a_linear_scan() {
    for (seed, n) in [(11u64, 3usize), (12, 40), (13, 120)] {
        let list: Vec<Ball> = random_scene(seed, n).into_iter().map(Ball).collect();
        let shapes: Vec<Ball> = random_scene(seed, n).into_iter().map(Ball).collect();
        let bvh = BVHAccel::new(1, BVHSplitMethod::Equal, shapes).build();
        let mut rng = Lcg(seed * 104729);
        let mut hits = 0;
        for _ in 0..400 {
            let mut c = || rng.between(-150.0, 150.0) as i32;
            let origin = (c(), c(), c());
            let direction = (c() / 10, c() / 10, c() / 10);
            let ray = grid_ray(origin, direction);
            let fast = bvh.intersect(&ray);
            let slow = list.hit(&ray);
            assert_eq!(fast.is_some(), slow.is_some());
            if let (Some(f), Some(s)) = (fast, slow) {
                assert_eq!(f.t, s.t);
                hits += 1;
            }
        }
        if n >= 40 {
            assert!(hits > 0);
        }
    }
}

fn centroid(s: &Sphere, axis: Vec3Axis) -> i32 {
    s.world_bound().centroid().get_axis(axis)
}

// Checks, below the node at `at`, that no centroid of a first half lies
// beyond one of the second half along the axis of the split, and that the
// halves are of equal size, the second one larger by one where they cannot
// be. Returns the range of primitives below the node.
fn check_splits(nodes: &[BVHLinearNode], shapes: &[Sphere], at: usize) -> (usize, usize) {
    let node = &nodes[at];
    if node.n_primitives > 0 {
        return (node.offset, node.offset + node.n_primitives);
    }
    let (start, mid) = check_splits(nodes, shapes, at + 1);
    let (mid2, end) = check_splits(nodes, shapes, node.offset);
    assert_eq!(mid, mid2);
    assert_eq!(mid, (start + end) / 2);
    let highest = shapes[start..mid].iter().map(|s| centroid(s, node.axis)).max().unwrap();
    let lowest = shapes[mid..end].iter().map(|s| centroid(s, node.axis)).min().unwrap();
    assert!(highest <= lowest);
    (start, end)
}

#[test]
fn every_split_is_at_the_median() {
    for n in [2usize, 3, 50, 601, 3000] {
        let bvh = build(random_scene(31 * n as u64, n));
        let (start, end) = check_splits(bvh.nodes(), bvh.shapes(), 0);
        assert_eq!((start, end), (0, n));
        let mut seen = vec![false; n];
        for s in bvh.shapes() {
            assert!(!seen[s.id]);
            seen[s.id] = true;
        }
    }
}

#[test]
fn many_equal_centroids_are_split_like_any_others() {
    // two clusters of coinciding centroids, interleaved in the collection
    let shapes: Vec<Sphere> = (0..700)
        .map(|i| sphere(i, if i % 2 == 0 { -50.0 } else { 50.0 }, 0.0, 0.0, 1.0 + (i % 7) as f64))
        .collect();
    let bvh = build(shapes);
    let (start, end) = check_splits(bvh.nodes(), bvh.shapes(), 0);
    assert_eq!((start, end), (0, 700));
    // the root separates the clusters, and each cluster is one leaf
    assert_eq!(bvh.nodes().len(), 3);
    assert!(bvh.shapes()[..350].iter().all(|s| s.center[0] < 0.0));
    assert!(bvh.shapes()[350..].iter().all(|s| s.center[0] > 0.0));
}

// Boxes on the grid as surfaces, met by rays on the grid: no part of the
// scene is in floating point.

#[test]
fn a_box_is_hit_where_the_ray_enters_it() {
    let b = cube(2, 4);
    let hit = b.hit(&grid_ray((0, 0, 0), (1, 1, 1))).unwrap();
    assert_eq!(hit.t, 2);
    // entered after two thirds of a step
    assert_eq!(b.hit(&grid_ray((0, 3, 3), (3, 0, 0))).unwrap().t, 0);
    // entered after ten steps along y, though x and z are inside from the start
    assert_eq!(b.hit(&grid_ray((3, -18, 3), (0, 2, 0))).unwrap().t, 10);
    // from inside
    assert_eq!(b.hit(&grid_ray((3, 3, 3), (0, 0, 1))).unwrap().t, 0);
    // towards smaller coordinates
    assert_eq!(b.hit(&grid_ray((3, 3, 11), (0, 0, -2))).unwrap().t, 3);
    assert!(b.hit(&grid_ray((0, 0, 0), (-1, -1, -1))).is_none());
    assert!(b.hit(&grid_ray((0, 0, 0), (1, 3, 1))).is_none());
    assert!(same(&b.world_bound(), &b));
}

fn random_boxes(seed: u64, n: usize) -> Vec<Bounds3> {
    let mut rng = Lcg(seed);
    let mut boxes = Vec::new();
    for _ in 0..n {
        let mut c = || rng.between(-200.0, 200.0) as i32;
        let (x, y, z) = (c(), c(), c());
        let mut e = || rng.between(0.0, 30.0) as i32;
        boxes.push(Bounds3::new(Vec3::new(x, y, z), Vec3::new(x + e(), y + e(), z + e())));
    }
    boxes
}

#[test]
fn index_over_boxes_agrees_with_a_scan() {
    for (seed, n) in [(21u64, 1usize), (22, 2), (23, 30), (24, 700)] {
        let list = random_boxes(seed, n);
        let bvh = BVHAccel::new(1, BVHSplitMethod::Equal, random_boxes(seed, n)).build();
        assert_eq!(bvh.shapes().len(), n);
        let mut rng = Lcg(seed * 15485863);
        let mut hits = 0;
        for _ in 0..500 {
            let mut c = || rng.between(-250.0, 250.0) as i32;
            let origin = (c(), c(), c());
            let direction = (c() / 25, c() / 25, c() / 25);
            let ray = grid_ray(origin, direction);
            let fast = bvh.intersect(&ray).map(|h| h.t);
            let slow = list.hit(&ray).map(|h| h.t);
            assert_eq!(fast, slow);
            if fast.is_some() {
                hits += 1;
            }
        }
        if n >= 30 {
            assert!(hits > 0);
        }
    }
}
