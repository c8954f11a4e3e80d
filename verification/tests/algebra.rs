//! Point and free-vector algebra.

use raytracer::point::Point;
use raytracer::vec3::FreeVec3;
use raytracer::SCALE;

fn fx(units: i64) -> i64 {
    units * SCALE
}

#[test]
fn point_arithmetics() {
    assert_eq!(
        Point::new(fx(3), fx(3), fx(3)).add(FreeVec3::new(0, fx(1), fx(2))),
        Point::new(fx(3), fx(4), fx(5))
    );
    assert_eq!(
        Point::new(fx(3), fx(3), fx(3)).sub(FreeVec3::new(0, fx(1), fx(2))),
        Point::new(fx(3), fx(2), fx(1))
    );
    assert_eq!(
        Point::new(fx(3), fx(3), fx(3)).sub_point(Point::new(0, fx(1), fx(2))),
        FreeVec3::new(fx(3), fx(2), fx(1))
    );
}

#[test]
fn free_arithmmetics() {
    let mut a1 = FreeVec3::new(0, fx(1), fx(2));
    a1 = a1.add(FreeVec3::new(0, fx(1), fx(2)));
    assert_eq!(a1, FreeVec3::new(0, fx(2), fx(4)));

    let mut s1 = FreeVec3::new(0, fx(1), fx(2));
    s1 = s1.sub(FreeVec3::new(0, fx(1), fx(2)));
    assert_eq!(s1, FreeVec3::new(0, 0, 0));

    let mut m1 = FreeVec3::new(0, fx(1), fx(2));
    m1 = m1.mul(fx(2));
    assert_eq!(m1, FreeVec3::new(0, fx(2), fx(4)));

    let mut d1 = FreeVec3::new(0, fx(1), fx(2));
    d1 = d1.div(fx(2));
    assert_eq!(d1, FreeVec3::new(0, 500_000_000, fx(1)));

    assert_eq!(
        FreeVec3::new(0, fx(1), fx(2)).mul(fx(2)),
        FreeVec3::new(0, fx(2), fx(4))
    );
    assert_eq!(
        FreeVec3::new(0, fx(1), fx(2)).div(fx(2)),
        FreeVec3::new(0, 500_000_000, fx(1))
    );
}

#[test]
fn bound_arithm() {
    assert_eq!(
        Point::new(fx(3), fx(3), fx(3)).add(FreeVec3::new(0, fx(1), fx(2))),
        Point::new(fx(3), fx(4), fx(5))
    );
    assert_eq!(
        Point::new(fx(3), fx(3), fx(3)).sub(FreeVec3::new(0, fx(1), fx(2))),
        Point::new(fx(3), fx(2), fx(1))
    );
    assert_eq!(
        Point::new(fx(3), fx(3), fx(3)).sub_point(Point::new(0, fx(1), fx(2))),
        FreeVec3::new(fx(3), fx(2), fx(1))
    );
}

#[test]
fn free_arithm() {
    let mut a1 = FreeVec3::new(0, fx(1), fx(2));
    a1 = a1.add(FreeVec3::new(0, fx(1), fx(2)));
    assert_eq!(a1, FreeVec3::new(0, fx(2), fx(4)));

    let mut s1 = FreeVec3::new(0, fx(1), fx(2));
    s1 = s1.sub(FreeVec3::new(0, fx(1), fx(2)));
    assert_eq!(s1, FreeVec3::new(0, 0, 0));

    let mut m1 = FreeVec3::new(0, fx(1), fx(2));
    m1 = m1.mul(fx(2));
    assert_eq!(m1, FreeVec3::new(0, fx(2), fx(4)));

    let mut d1 = FreeVec3::new(0, fx(1), fx(2));
    d1 = d1.div(fx(2));
    assert_eq!(d1, FreeVec3::new(0, 500_000_000, fx(1)));

    assert_eq!(
        FreeVec3::new(0, fx(1), fx(2)).mul(fx(2)),
        FreeVec3::new(0, fx(2), fx(4))
    );
    assert_eq!(
        FreeVec3::new(0, fx(1), fx(2)).div(fx(2)),
        FreeVec3::new(0, 500_000_000, fx(1))
    );
}

#[test]
fn round_trips() {
    let p = Point::new(fx(7), -fx(2), fx(11));
    let q = Point::new(-fx(1), fx(5), fx(3));
    let a = FreeVec3::new(fx(4), -fx(9), fx(6));
    assert_eq!(p.add(a).sub(a), p);
    assert_eq!(q.add(p.sub_point(q)), p);
}

#[test]
fn dot_and_cross() {
    let a = FreeVec3::new(fx(1), fx(2), fx(3));
    let b = FreeVec3::new(fx(4), fx(5), fx(6));
    assert_eq!(a.dot(&b), fx(32));
    assert_eq!(a.cross(&b), FreeVec3::new(-fx(3), fx(6), -fx(3)));
    assert_eq!(a.length_squared(), fx(14));
    assert_eq!(a.neg(), FreeVec3::new(-fx(1), -fx(2), -fx(3)));
    assert_eq!(FreeVec3::new(fx(3), fx(4), 0).length(), fx(5));
}
