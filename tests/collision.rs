use broadphase::geometry::{test_aabb_aabb, world_aabb, Axis, Transform, Vec2, AABB};
use broadphase::snapshot::{aabb_bundle, collect_aabbs_system, update_aabbs_system, AabbEntry, Body, EntityId};
use broadphase::sort::sort_by_axis;
use broadphase::sweep::{select_axis, sweep, CenterStats, CollisionEvent};
use broadphase::tag::{tags_permit, CollisionTag};
use broadphase::world::{sort_sweep_system, CollisionPlugin, CollisionWorld, Collisions};

fn boxed(x0: i32, y0: i32, x1: i32, y1: i32) -> AABB {
    AABB::new(Vec2::new(x0, y0), Vec2::new(x1, y1))
}

fn identity() -> Transform {
    Transform { pos: Vec2::new(0, 0), scale: Vec2::new(1, 1) }
}

fn id(index: u32) -> EntityId {
    EntityId { index, generation: 0 }
}

fn body(index: u32, aabb: AABB, src: u8, dst: u8) -> Body {
    aabb_bundle(id(index), identity(), aabb, CollisionTag::new(src, dst))
}

fn world_with_axis(axis: Axis) -> CollisionWorld {
    let mut world = CollisionPlugin.build();
    world.axis = axis;
    world
}

fn entry(index: u32, aabb: AABB, src: u8, dst: u8) -> AabbEntry {
    AabbEntry { id: id(index), aabb, tag: CollisionTag::new(src, dst) }
}

fn run(bodies: Vec<Body>, axis: Axis) -> (Vec<CollisionEvent>, Axis) {
    let mut world = world_with_axis(axis);
    let mut bodies = bodies;
    world.tick(&mut bodies);
    (world.events().clone(), world.axis())
}

#[test]
fn scenario_overlapping_pair_reported() {
    let a = boxed(-1, -1, 1, 1);
    let b = boxed(0, 0, 2, 2);
    for axis in [Axis::X, Axis::Y] {
        let (events, _) = run(vec![body(1, a, 1, 2), body(2, b, 2, 1)], axis);
        assert_eq!(events.len(), 1);
        let (events, _) = run(vec![body(2, b, 2, 1), body(1, a, 1, 2)], axis);
        assert_eq!(events.len(), 1);
        let e = events[0];
        let mut ids = [e.entity_1.index, e.entity_2.index];
        ids.sort();
        assert_eq!(ids, [1, 2]);
    }
}

#[test]
fn scenario_disjoint_pair_not_reported() {
    let a = boxed(-5, -5, -3, -3);
    let b = boxed(3, 3, 5, 5);
    for axis in [Axis::X, Axis::Y] {
        let (events, _) = run(vec![body(1, a, 1, 2), body(2, b, 2, 1)], axis);
        assert!(events.is_empty());
    }
}

#[test]
fn scenario_incompatible_tags_not_reported() {
    let a = boxed(-1, -1, 1, 1);
    let b = boxed(0, 0, 2, 2);
    for axis in [Axis::X, Axis::Y] {
        let (events, _) = run(vec![body(1, a, 1, 2), body(2, b, 4, 8)], axis);
        assert!(events.is_empty());
    }
}

#[test]
fn axis_follows_wider_spread() {
    // Centres at x = -10 and 10 (variance 100) and y = -1 and 1 (variance 1).
    let wide_x = vec![body(1, boxed(-10, -1, -10, -1), 1, 0), body(2, boxed(10, 1, 10, 1), 1, 0)];
    let (_, axis) = run(wide_x, Axis::Y);
    assert_eq!(axis, Axis::X);
    let wide_y = vec![body(1, boxed(-1, -10, -1, -10), 1, 0), body(2, boxed(1, 10, 1, 10), 1, 0)];
    let (_, axis) = run(wide_y, Axis::X);
    assert_eq!(axis, Axis::Y);
}

#[test]
fn empty_population_keeps_axis() {
    for axis in [Axis::X, Axis::Y] {
        let (events, next) = run(Vec::new(), axis);
        assert!(events.is_empty());
        assert_eq!(next, axis);
    }
}

#[test]
fn bodies_without_tag_are_skipped() {
    let mut untagged = body(2, boxed(0, 0, 2, 2), 2, 1);
    untagged.tag = None;
    let (events, _) = run(vec![body(1, boxed(-1, -1, 1, 1), 1, 2), untagged], Axis::X);
    assert!(events.is_empty());
}

#[test]
fn sweep_matches_brute_force_on_a_grid() {
    // Boxes of size 3 on a grid of step 2: each overlaps its neighbours.
    let mut bodies = Vec::new();
    let mut n: u32 = 0;
    for gx in 0..6 {
        for gy in 0..5 {
            let x = gx * 2 - (gy % 3);
            let y = gy * 2 + (gx % 2);
            bodies.push(body(n, boxed(x, y, x + 3, y + 3), 1, 1));
            n += 1;
        }
    }
    let mut expected = 0;
    for i in 0..bodies.len() {
        for j in i + 1..bodies.len() {
            let a = bodies[i].global.unwrap();
            let b = bodies[j].global.unwrap();
            if a.max.x >= b.min.x && b.max.x >= a.min.x && a.max.y >= b.min.y && b.max.y >= a.min.y {
                expected += 1;
            }
        }
    }
    for axis in [Axis::X, Axis::Y] {
        let (events, _) = run(bodies.clone(), axis);
        assert_eq!(events.len(), expected);
    }
}

#[test]
fn sort_orders_by_min_on_axis() {
    let mut entries = vec![
        entry(1, boxed(5, 0, 6, 1), 1, 1),
        entry(2, boxed(-3, 9, 0, 10), 1, 1),
        entry(3, boxed(2, -4, 3, 0), 1, 1),
        entry(4, boxed(2, 4, 8, 5), 1, 1),
    ];
    sort_by_axis(&mut entries, Axis::X);
    let xs: Vec<i32> = entries.iter().map(|e| e.aabb.min.x).collect();
    assert_eq!(xs, vec![-3, 2, 2, 5]);
    sort_by_axis(&mut entries, Axis::Y);
    let ys: Vec<u32> = entries.iter().map(|e| e.id.index).collect();
    assert_eq!(ys, vec![3, 1, 4, 2]);
}

#[test]
fn sweep_reports_in_sort_order_and_sums_centres() {
    let entries = vec![
        entry(1, boxed(0, 0, 4, 4), 1, 1),
        entry(2, boxed(1, 1, 2, 2), 1, 1),
        entry(3, boxed(3, 3, 6, 6), 1, 1),
        entry(4, boxed(10, 0, 12, 2), 1, 1),
    ];
    let mut events = Vec::new();
    let stats = sweep(&entries, Axis::X, &mut events);
    let pairs: Vec<(u32, u32)> = events.iter().map(|e| (e.entity_1.index, e.entity_2.index)).collect();
    assert_eq!(pairs, vec![(1, 2), (1, 3)]);
    assert_eq!(stats, CenterStats { count: 4, sum_x: 4 + 3 + 9 + 22, sum_y: 4 + 3 + 9 + 2, sum_sq_x: 16 + 9 + 81 + 484, sum_sq_y: 16 + 9 + 81 + 4 });
}

#[test]
fn select_axis_compares_spread() {
    let stats = CenterStats { count: 2, sum_x: 0, sum_y: 0, sum_sq_x: 800, sum_sq_y: 8 };
    assert_eq!(select_axis(&stats, Axis::Y), Axis::X);
    let stats = CenterStats { count: 2, sum_x: 0, sum_y: 0, sum_sq_x: 8, sum_sq_y: 800 };
    assert_eq!(select_axis(&stats, Axis::X), Axis::Y);
    let stats = CenterStats { count: 2, sum_x: 0, sum_y: 0, sum_sq_x: 8, sum_sq_y: 8 };
    assert_eq!(select_axis(&stats, Axis::Y), Axis::X);
    let empty = CenterStats { count: 0, sum_x: 0, sum_y: 0, sum_sq_x: 0, sum_sq_y: 0 };
    assert_eq!(select_axis(&empty, Axis::Y), Axis::Y);
}

#[test]
fn sort_sweep_system_clears_old_events() {
    let mut buffer = vec![entry(1, boxed(0, 0, 1, 1), 1, 1), entry(2, boxed(1, 1, 2, 2), 1, 1)];
    let mut axis = Axis::X;
    let stale = CollisionEvent { entity_1: id(7), tag1: CollisionTag::new(1, 1), entity_2: id(8), tag2: CollisionTag::new(1, 1) };
    let mut collisions = Collisions(vec![stale, stale]);
    sort_sweep_system(&mut buffer, &mut axis, &mut collisions);
    assert_eq!(collisions.0.len(), 1);
    assert_eq!(collisions.0[0].entity_1.index, 1);
    assert_eq!(collisions.0[0].entity_2.index, 2);
    let fresh = Collisions::default();
    assert!(fresh.0.is_empty());
}

#[test]
fn overlap_test_counts_touching_edges() {
    let a = boxed(0, 0, 1, 1);
    assert!(test_aabb_aabb(&a, &boxed(1, 1, 2, 2)));
    assert!(test_aabb_aabb(&boxed(1, 1, 2, 2), &a));
    assert!(!test_aabb_aabb(&a, &boxed(2, 0, 3, 1)));
    assert!(!test_aabb_aabb(&a, &boxed(0, 2, 1, 3)));
}

#[test]
fn malformed_box_overlap_cases() {
    let bad = boxed(1, 1, -1, -1);
    assert!(!test_aabb_aabb(&bad, &boxed(0, 0, 0, 0)));
    assert!(!test_aabb_aabb(&boxed(-1, -1, 0, 0), &bad));
    assert!(!test_aabb_aabb(&bad, &bad));
}

#[test]
fn layer_permission_is_either_direction() {
    let asteroid = CollisionTag::new(1, 0xFE);
    let bullet = CollisionTag::new(2, 1);
    let player = CollisionTag::new(4, 1);
    assert!(tags_permit(&asteroid, &bullet));
    assert!(tags_permit(&bullet, &asteroid));
    assert!(tags_permit(&player, &asteroid));
    assert!(!tags_permit(&bullet, &player));
    assert!(!tags_permit(&player, &bullet));
    // one side alone granting permission is enough
    assert!(tags_permit(&CollisionTag::new(1, 0), &CollisionTag::new(0, 1)));
    assert!(tags_permit(&CollisionTag::new(0, 1), &CollisionTag::new(1, 0)));
}

#[test]
fn projection_scales_and_translates() {
    let local = boxed(-1, -2, 3, 4);
    let tr = Transform { pos: Vec2::new(10, -10), scale: Vec2::new(2, 3) };
    assert_eq!(world_aabb(&local, &tr), Some(boxed(8, -16, 16, 2)));
    let flip = Transform { pos: Vec2::new(0, 0), scale: Vec2::new(-1, 1) };
    assert_eq!(world_aabb(&local, &flip), Some(boxed(1, -2, -3, 4)));
}

#[test]
fn projection_out_of_range_is_none() {
    let local = boxed(-1, -1, 1, 1);
    let tr = Transform { pos: Vec2::new(i32::MAX, 0), scale: Vec2::new(1, 1) };
    assert_eq!(world_aabb(&local, &tr), None);
    let big = Transform { pos: Vec2::new(0, 0), scale: Vec2::new(i32::MAX, 1) };
    assert_eq!(world_aabb(&boxed(-1, 0, 1, 0), &big), Some(boxed(-i32::MAX, 0, i32::MAX, 0)));
    assert_eq!(world_aabb(&boxed(-2, 0, 1, 0), &big), None);
}

#[test]
fn update_refreshes_world_boxes() {
    let mut bodies = vec![body(1, boxed(-1, -1, 1, 1), 1, 1)];
    bodies[0].transform = Transform { pos: Vec2::new(5, 6), scale: Vec2::new(2, 2) };
    update_aabbs_system(&mut bodies);
    assert_eq!(bodies[0].global, Some(boxed(3, 4, 7, 8)));
    let mut buffer = vec![entry(9, boxed(0, 0, 0, 0), 1, 1)];
    collect_aabbs_system(&mut buffer, &bodies);
    assert_eq!(buffer.len(), 1);
    assert_eq!(buffer[0].id.index, 1);
    assert_eq!(buffer[0].aabb, boxed(3, 4, 7, 8));
}

#[test]
fn moved_bodies_stop_colliding() {
    let mut world = world_with_axis(Axis::X);
    let mut bodies = vec![body(1, boxed(-1, -1, 1, 1), 1, 2), body(2, boxed(-1, -1, 1, 1), 2, 1)];
    world.tick(&mut bodies);
    assert_eq!(world.events().len(), 1);
    bodies[1].transform.pos = Vec2::new(100, 0);
    world.tick(&mut bodies);
    assert!(world.events().is_empty());
}

#[test]
fn around_origin_centres_the_box() {
    assert_eq!(AABB::around_origin(Vec2::new(4, 6)), boxed(-2, -3, 2, 3));
    assert_eq!(AABB::around_origin(Vec2::new(5, -3)), boxed(-2, 1, 2, -1));
}

struct Lcg(u64);

impl Lcg {
    fn next(&mut self, bound: i32) -> i32 {
        self.0 = self.0.wrapping_mul(6364136223846793005).wrapping_add(1442695040888963407);
        ((self.0 >> 33) % (bound as u64)) as i32
    }
}

fn unordered(a: u32, b: u32) -> (u32, u32) {
    if a < b { (a, b) } else { (b, a) }
}

#[test]
fn sweep_matches_brute_force_on_random_sets() {
    let mut rng = Lcg(12345);
    for &count in &[0usize, 1, 2, 17, 120, 500] {
        let mut bodies = Vec::new();
        for k in 0..count {
            let x = rng.next(400) - 200;
            let y = rng.next(400) - 200;
            let w = rng.next(30);
            let h = rng.next(30);
            let src = 1u8 << rng.next(3);
            let dst = rng.next(8) as u8;
            let mut b = body(k as u32, boxed(x, y, x + w, y + h), src, dst);
            b.transform = Transform { pos: Vec2::new(rng.next(20) - 10, rng.next(20) - 10), scale: Vec2::new(1 + rng.next(2), 1 + rng.next(2)) };
            bodies.push(b);
        }
        let mut projected = bodies.clone();
        update_aabbs_system(&mut projected);
        let mut expected = Vec::new();
        for i in 0..projected.len() {
            for j in i + 1..projected.len() {
                let (a, b) = (&projected[i], &projected[j]);
                let (ga, gb) = (a.global.unwrap(), b.global.unwrap());
                let (ta, tb) = (a.tag.unwrap(), b.tag.unwrap());
                let layers = (ta.src & tb.dst) != 0 || (tb.src & ta.dst) != 0;
                let overlap = ga.max.x >= gb.min.x && gb.max.x >= ga.min.x && ga.max.y >= gb.min.y && gb.max.y >= ga.min.y;
                if layers && overlap {
                    expected.push(unordered(a.id.index, b.id.index));
                }
            }
        }
        expected.sort();
        for axis in [Axis::X, Axis::Y] {
            let (events, _) = run(bodies.clone(), axis);
            let mut got: Vec<(u32, u32)> = events.iter().map(|e| unordered(e.entity_1.index, e.entity_2.index)).collect();
            got.sort();
            assert_eq!(got, expected);
        }
    }
}
