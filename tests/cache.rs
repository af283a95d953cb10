use triangle_sides::cache::{Kind, PropertyCache, Quantity};

fn q(kind: Kind, index: usize) -> Quantity {
    Quantity { kind, index }
}

const KINDS: [Kind; 10] = [
    Kind::Perimeter,
    Kind::Area,
    Kind::Inradius,
    Kind::Circumradius,
    Kind::Height,
    Kind::Median,
    Kind::Sine,
    Kind::Cosine,
    Kind::Angle,
    Kind::Tangent,
];

fn all_quantities() -> Vec<Quantity> {
    let mut v = Vec::new();
    for k in KINDS {
        let n = match k {
            Kind::Perimeter | Kind::Area | Kind::Inradius | Kind::Circumradius => 1,
            _ => 3,
        };
        for i in 0..n {
            v.push(q(k, i));
        }
    }
    v
}

/// A stand-in formula: a value that depends on the quantity alone.
fn formula(x: Quantity) -> u64 {
    let k = KINDS.iter().position(|k| *k == x.kind).unwrap() as u64;
    100 * k + x.index as u64
}

/// Forces `target` the way a mutating accessor does; answers its value.
fn force(c: &mut PropertyCache<u64>, target: Quantity) -> Option<u64> {
    while let Some(d) = c.next_to_fill(target) {
        assert!(c.fill(d, formula(d)).is_some());
    }
    c.get(target)
}

#[test]
fn new_cache_is_empty() {
    let c: PropertyCache<u64> = PropertyCache::new();
    for x in all_quantities() {
        assert_eq!(c.get(x), None);
    }
    assert_eq!(c.next_unfilled(), Some(q(Kind::Perimeter, 0)));
}

#[test]
fn area_needs_perimeter_first() {
    let mut c: PropertyCache<u64> = PropertyCache::new();
    assert_eq!(c.next_to_fill(q(Kind::Area, 0)), Some(q(Kind::Perimeter, 0)));
    assert_eq!(c.fill(q(Kind::Area, 0), 6), None);
    assert_eq!(c.get(q(Kind::Area, 0)), None);
    assert_eq!(c.fill(q(Kind::Perimeter, 0), 12), Some(12));
    assert_eq!(c.next_to_fill(q(Kind::Area, 0)), Some(q(Kind::Area, 0)));
    assert_eq!(c.fill(q(Kind::Area, 0), 6), Some(6));
    assert_eq!(c.next_to_fill(q(Kind::Area, 0)), None);
    assert_eq!(c.get(q(Kind::Area, 0)), Some(6));
}

#[test]
fn inradius_reads_area_and_perimeter() {
    let mut c: PropertyCache<u64> = PropertyCache::new();
    let mut order = Vec::new();
    while let Some(d) = c.next_to_fill(q(Kind::Inradius, 0)) {
        order.push(d);
        c.fill(d, formula(d));
    }
    assert_eq!(
        order,
        vec![q(Kind::Perimeter, 0), q(Kind::Area, 0), q(Kind::Inradius, 0)]
    );
    assert_eq!(c.get(q(Kind::Height, 0)), None);
    assert_eq!(c.get(q(Kind::Cosine, 0)), None);
}

#[test]
fn tangent_goes_through_cosine_and_angle() {
    let mut c: PropertyCache<u64> = PropertyCache::new();
    let mut order = Vec::new();
    while let Some(d) = c.next_to_fill(q(Kind::Tangent, 1)) {
        order.push(d);
        c.fill(d, formula(d));
    }
    assert_eq!(
        order,
        vec![q(Kind::Cosine, 1), q(Kind::Angle, 1), q(Kind::Tangent, 1)]
    );
    assert_eq!(c.get(q(Kind::Perimeter, 0)), None);
    assert_eq!(c.get(q(Kind::Angle, 0)), None);
}

#[test]
fn median_and_cosine_need_only_sides() {
    let c: PropertyCache<u64> = PropertyCache::new();
    assert_eq!(c.next_to_fill(q(Kind::Median, 2)), Some(q(Kind::Median, 2)));
    assert_eq!(c.next_to_fill(q(Kind::Cosine, 0)), Some(q(Kind::Cosine, 0)));
}

#[test]
fn a_second_fill_keeps_the_first_value() {
    let mut c: PropertyCache<u64> = PropertyCache::new();
    assert_eq!(c.fill(q(Kind::Perimeter, 0), 12), Some(12));
    assert_eq!(c.fill(q(Kind::Perimeter, 0), 99), Some(12));
    assert_eq!(c.get(q(Kind::Perimeter, 0)), Some(12));
    assert_eq!(force(&mut c, q(Kind::Height, 2)), Some(formula(q(Kind::Height, 2))));
    assert_eq!(force(&mut c, q(Kind::Height, 2)), Some(formula(q(Kind::Height, 2))));
    assert_eq!(c.next_to_fill(q(Kind::Height, 2)), None);
}

#[test]
fn index_past_two_has_no_slot() {
    let mut c: PropertyCache<u64> = PropertyCache::new();
    for k in [Kind::Height, Kind::Median, Kind::Sine, Kind::Cosine, Kind::Angle, Kind::Tangent] {
        assert_eq!(c.next_to_fill(q(k, 3)), None);
        assert_eq!(c.fill(q(k, 3), 1), None);
        assert_eq!(c.get(q(k, 3)), None);
    }
    assert!(c.is_ready(q(Kind::Median, 0)));
}

#[test]
fn single_valued_kinds_ignore_the_index() {
    let mut c: PropertyCache<u64> = PropertyCache::new();
    assert_eq!(c.fill(q(Kind::Perimeter, 7), 12), Some(12));
    assert_eq!(c.get(q(Kind::Perimeter, 0)), Some(12));
}

#[test]
fn eager_filling_caches_every_quantity() {
    let mut c: PropertyCache<u64> = PropertyCache::new();
    let mut steps: usize = 0;
    while let Some(d) = c.next_unfilled() {
        assert!(c.is_ready(d));
        assert_eq!(c.fill(d, formula(d)), Some(formula(d)));
        steps += 1;
    }
    assert_eq!(steps, 22);
    for x in all_quantities() {
        assert_eq!(c.get(x), Some(formula(x)));
    }
}

#[test]
fn lazy_and_eager_filling_agree() {
    let mut eager: PropertyCache<u64> = PropertyCache::new();
    while let Some(d) = eager.next_unfilled() {
        eager.fill(d, formula(d));
    }
    let mut lazy: PropertyCache<u64> = PropertyCache::new();
    let mut order = all_quantities();
    order.reverse();
    for x in order {
        force(&mut lazy, x);
    }
    assert_eq!(lazy.next_unfilled(), None);
    for x in all_quantities() {
        assert_eq!(lazy.get(x), eager.get(x));
    }
}

#[test]
fn holds_floating_point_values() {
    let mut c: PropertyCache<f64> = PropertyCache::new();
    assert_eq!(c.fill(q(Kind::Perimeter, 0), 12.0), Some(12.0));
    assert_eq!(c.fill(q(Kind::Area, 0), 6.0), Some(6.0));
    assert_eq!(c.fill(q(Kind::Height, 2), 2.4), Some(2.4));
    assert_eq!(c.get(q(Kind::Height, 2)), Some(2.4));
}

#[test]
fn readiness_follows_dependencies() {
    let mut c: PropertyCache<u64> = PropertyCache::new();
    assert!(!c.is_ready(q(Kind::Area, 0)));
    assert!(!c.is_ready(q(Kind::Height, 3)));
    assert!(c.is_ready(q(Kind::Perimeter, 0)));
    c.fill(q(Kind::Perimeter, 0), 12);
    assert!(c.is_ready(q(Kind::Area, 0)));
    assert!(!c.is_ready(q(Kind::Inradius, 0)));
    c.fill(q(Kind::Area, 0), 6);
    assert!(c.is_ready(q(Kind::Inradius, 0)));
    assert!(!c.is_ready(q(Kind::Angle, 1)));
}
