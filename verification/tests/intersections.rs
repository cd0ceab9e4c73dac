use rtc_rs::intersections::Intersection;
use rtc_rs::intersections::Intersections;
use rtc_rs::shape::ShapeIdAllocator;

/// Order-encode a ray distance: keys compare as the distances do, and a key
/// is non-negative exactly when the distance is.
fn t_key(t: f32) -> i64 {
    let v = if t == 0.0 { 0.0 } else { t };
    let bits = v.to_bits();
    if bits & 0x8000_0000 == 0 {
        bits as i64
    } else {
        -((bits & 0x7fff_ffff) as i64)
    }
}

#[test]
fn intersection_encapsulates_t_value_and_object() {
    let mut ids = ShapeIdAllocator::new();
    let s = ids.fresh();
    let i = Intersection::new(t_key(3.5), s);

    assert_eq!(i.t, t_key(3.5));
    assert_eq!(i.shape, s);
}

#[test]
fn aggregating_intersections() {
    let mut ids = ShapeIdAllocator::new();
    let s = ids.fresh();
    let i1 = Intersection::new(t_key(1.0), s);
    let i2 = Intersection::new(t_key(2.0), s);
    let xs_data_for_creation = vec![i1, i2];
    let xs = Intersections::new(xs_data_for_creation);

    assert_eq!(xs.data.len(), 2);
    assert_eq!(xs.data[0].t, t_key(1.0));
    assert_eq!(xs.data[0].shape, s);
    assert_eq!(xs.data[1].t, t_key(2.0));
    assert_eq!(xs.data[1].shape, s);
}

#[test]
fn the_hit_when_all_intersections_have_positive_t_value() {
    let mut ids = ShapeIdAllocator::new();
    let s = ids.fresh();
    let i1 = Intersection::new(t_key(1.0), s);
    let i2 = Intersection::new(t_key(2.0), s);
    let xs = Intersections::new(vec![i2, i1]);

    let i = xs.hit();

    assert_eq!(i, Some(i1));
}

#[test]
fn the_hit_when_some_intersections_have_negative_t_value() {
    let mut ids = ShapeIdAllocator::new();
    let s = ids.fresh();
    let i1 = Intersection::new(t_key(-1.0), s);
    let i2 = Intersection::new(t_key(1.0), s);
    let xs = Intersections::new(vec![i2, i1]);

    let i = xs.hit();

    assert_eq!(i, Some(i2));
}

#[test]
fn the_hit_when_all_intersections_have_negative_t_value() {
    let mut ids = ShapeIdAllocator::new();
    let s = ids.fresh();
    let i1 = Intersection::new(t_key(-2.0), s);
    let i2 = Intersection::new(t_key(-1.0), s);
    let xs = Intersections::new(vec![i2, i1]);

    let i = xs.hit();

    assert_eq!(i, None);
}

#[test]
fn the_hit_is_always_the_lowest_nonnegative_intersection() {
    let mut ids = ShapeIdAllocator::new();
    let s = ids.fresh();
    let i1 = Intersection::new(t_key(5.0), s);
    let i2 = Intersection::new(t_key(7.0), s);
    let i3 = Intersection::new(t_key(-3.0), s);
    let i4 = Intersection::new(t_key(2.0), s);
    let xs = Intersections::new(vec![i1, i2, i3, i4]);

    let i = xs.hit();

    assert_eq!(i, Some(i4));
}

#[test]
fn the_hit_includes_a_distance_of_zero_even_with_a_negative_sign() {
    let mut ids = ShapeIdAllocator::new();
    let s = ids.fresh();
    let i1 = Intersection::new(t_key(-0.0), s);
    let i2 = Intersection::new(t_key(4.0), s);
    let xs = Intersections::new(vec![i2, i1]);

    let i = xs.hit();

    assert_eq!(i, Some(Intersection::new(0, s)));
}

#[test]
fn sorting_keeps_intersections_with_equal_distances() {
    let mut ids = ShapeIdAllocator::new();
    let a = ids.fresh();
    let b = ids.fresh();
    let i1 = Intersection::new(t_key(5.0), a);
    let i2 = Intersection::new(t_key(5.0), b);
    let i3 = Intersection::new(t_key(1.0), b);
    let xs = Intersections::new(vec![i1, i2, i3]);

    assert_eq!(xs.data.len(), 3);
    assert_eq!(xs.data[0], i3);
    let mut shapes: Vec<usize> = vec![xs.data[1].shape, xs.data[2].shape];
    shapes.sort();
    assert_eq!(shapes, vec![a, b]);
    assert_eq!(xs.data[1].t, t_key(5.0));
    assert_eq!(xs.data[2].t, t_key(5.0));
}

#[test]
fn distance_keys_order_as_the_distances_do() {
    let ts = vec![-6.0f32, -4.0, -3.0, -1.0, -0.5, -0.0, 0.0, 0.5, 1.0, 2.0, 4.0, 5.0, 6.0, 7.0];
    for a in 0..ts.len() {
        for b in 0..ts.len() {
            assert_eq!(t_key(ts[a]) < t_key(ts[b]), ts[a] < ts[b]);
            assert_eq!(t_key(ts[a]) >= 0, ts[a] >= 0.0);
        }
    }
}

#[test]
fn shape_ids_are_unique_and_sequential() {
    let mut ids = ShapeIdAllocator::new();
    let s1 = ids.fresh();
    let s2 = ids.fresh();
    let s3 = ids.fresh();

    assert_eq!(s1, 1);
    assert_eq!(s2, s1 + 1);
    assert_eq!(s3, s1 + 2);
}
