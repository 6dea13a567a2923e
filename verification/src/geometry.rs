//! The plane geometry that the scene carries: shapes, points and
//! transforms of `kurbo`, held opaquely and computed by `kurbo` itself.
use vstd::prelude::*;
use kurbo::{Arc, BezPath, Circle, Line, Point, Rect, RoundedRect, Size, TranslateScale, Vec2};

verus! {

#[verifier::external_type_specification]
#[verifier::external_body]
pub struct ExLine(Line);

#[verifier::external_type_specification]
#[verifier::external_body]
pub struct ExRect(Rect);

#[verifier::external_type_specification]
#[verifier::external_body]
pub struct ExRoundedRect(RoundedRect);

#[verifier::external_type_specification]
#[verifier::external_body]
pub struct ExCircle(Circle);

#[verifier::external_type_specification]
#[verifier::external_body]
pub struct ExArc(Arc);

#[verifier::external_type_specification]
#[verifier::external_body]
pub struct ExBezPath(BezPath);

#[verifier::external_type_specification]
#[verifier::external_body]
pub struct ExPoint(Point);

#[verifier::external_type_specification]
#[verifier::external_body]
pub struct ExVec2(Vec2);

#[verifier::external_type_specification]
#[verifier::external_body]
pub struct ExSize(Size);

#[verifier::external_type_specification]
#[verifier::external_body]
pub struct ExTranslateScale(TranslateScale);

/// `kurbo` derives `Clone` for `Line`: the clone equals the original.
pub assume_specification[ <kurbo::Line as Clone>::clone ](x: &kurbo::Line) -> (r: kurbo::Line)
    ensures
        r == *x,
;

/// `kurbo` derives `Clone` for `Rect`: the clone equals the original.
pub assume_specification[ <kurbo::Rect as Clone>::clone ](x: &kurbo::Rect) -> (r: kurbo::Rect)
    ensures
        r == *x,
;

/// `kurbo` derives `Clone` for `RoundedRect`: the clone equals the original.
pub assume_specification[ <kurbo::RoundedRect as Clone>::clone ](x: &kurbo::RoundedRect) -> (r: kurbo::RoundedRect)
    ensures
        r == *x,
;

/// `kurbo` derives `Clone` for `Circle`: the clone equals the original.
pub assume_specification[ <kurbo::Circle as Clone>::clone ](x: &kurbo::Circle) -> (r: kurbo::Circle)
    ensures
        r == *x,
;

/// `kurbo` derives `Clone` for `Arc`: the clone equals the original.
pub assume_specification[ <kurbo::Arc as Clone>::clone ](x: &kurbo::Arc) -> (r: kurbo::Arc)
    ensures
        r == *x,
;

/// `kurbo` derives `Clone` for `BezPath`: the clone equals the original.
pub assume_specification[ <kurbo::BezPath as Clone>::clone ](x: &kurbo::BezPath) -> (r: kurbo::BezPath)
    ensures
        r == *x,
;

/// `kurbo` derives `Clone` for `Point`: the clone equals the original.
pub assume_specification[ <kurbo::Point as Clone>::clone ](x: &kurbo::Point) -> (r: kurbo::Point)
    ensures
        r == *x,
;

/// `kurbo` derives `Clone` for `Vec2`: the clone equals the original.
pub assume_specification[ <kurbo::Vec2 as Clone>::clone ](x: &kurbo::Vec2) -> (r: kurbo::Vec2)
    ensures
        r == *x,
;

/// `kurbo` derives `Clone` for `Size`: the clone equals the original.
pub assume_specification[ <kurbo::Size as Clone>::clone ](x: &kurbo::Size) -> (r: kurbo::Size)
    ensures
        r == *x,
;

/// `kurbo` derives `Clone` for `TranslateScale`: the clone equals the original.
pub assume_specification[ <kurbo::TranslateScale as Clone>::clone ](x: &kurbo::TranslateScale) -> (r: kurbo::TranslateScale)
    ensures
        r == *x,
;

/// What `kurbo`'s product of two transforms (`a * b`, apply `b` first,
/// then `a`) returns for the given factors.
pub uninterp spec fn ts_product(a: TranslateScale, b: TranslateScale) -> TranslateScale;

/// Calls `<TranslateScale as Mul>::mul`; the result is named by
/// `ts_product` of the two factors, which is all that is claimed.
#[verifier::external_body]
pub fn compose(a: TranslateScale, b: TranslateScale) -> (r: TranslateScale)
    ensures
        r == ts_product(a, b),
{
    a * b
}

/// What `kurbo`'s `TranslateScale::scale` returns for an integral factor.
pub uninterp spec fn ts_uniform_scale(s: u32) -> TranslateScale;

/// Calls `TranslateScale::scale` on the factor converted to a float;
/// the result is named by `ts_uniform_scale`.
#[verifier::external_body]
pub fn uniform_scale(s: u32) -> (r: TranslateScale)
    ensures
        r == ts_uniform_scale(s),
{
    TranslateScale::scale(s.into())
}

/// The center of a circle, as `kurbo` keeps it.
pub uninterp spec fn circle_center(c: Circle) -> Point;

/// Reads the `center` field of a `kurbo` circle; the result is named by
/// `circle_center`.
#[verifier::external_body]
pub fn center_of(c: &Circle) -> (p: Point)
    ensures
        p == circle_center(*c),
{
    c.center
}

/// What `kurbo`'s `Point + Vec2` returns: the point moved by the vector.
pub uninterp spec fn point_plus(p: Point, v: Vec2) -> Point;

/// Calls `<Point as Add<Vec2>>::add`; the result is named by `point_plus`.
#[verifier::external_body]
pub fn offset_point(p: Point, v: Vec2) -> (r: Point)
    ensures
        r == point_plus(p, v),
{
    p + v
}

/// What `kurbo`'s `Point + Vec2::ZERO` returns: the point moved by the
/// zero vector.
pub uninterp spec fn point_plus_zero(p: Point) -> Point;

/// Calls `<Point as Add<Vec2>>::add` with `kurbo`'s `Vec2::ZERO`; the
/// result is named by `point_plus_zero`.
#[verifier::external_body]
pub fn offset_by_zero(p: Point) -> (r: Point)
    ensures
        r == point_plus_zero(p),
{
    p + Vec2::ZERO
}

/// What `kurbo`'s `TranslateScale * Point` returns: the image of the
/// point under the transform.
pub uninterp spec fn ts_image(ts: TranslateScale, p: Point) -> Point;

/// Calls `<TranslateScale as Mul<Point>>::mul`; the result is named by
/// `ts_image`.
#[verifier::external_body]
pub fn image_of(ts: TranslateScale, p: Point) -> (r: Point)
    ensures
        r == ts_image(ts, p),
{
    ts * p
}

/// What `kurbo`'s `TranslateScale * Point::ORIGIN` returns: the image of
/// the origin (the default point) under the transform.
pub uninterp spec fn ts_origin_image(ts: TranslateScale) -> Point;

/// Applies the transform to `kurbo`'s `Point::ORIGIN`; the result is named
/// by `ts_origin_image`.
#[verifier::external_body]
pub fn origin_image(ts: TranslateScale) -> (r: Point)
    ensures
        r == ts_origin_image(ts),
{
    ts * Point::ORIGIN
}

/// What `kurbo`'s `Circle::new` returns for a center and an integral
/// radius.
pub uninterp spec fn circle_at(center: Point, radius: u32) -> Circle;

/// Calls `Circle::new` with the radius converted to a float; the result is
/// named by `circle_at`, and `kurbo` keeps the center as given.
#[verifier::external_body]
pub fn circle_of(center: Point, radius: u32) -> (c: Circle)
    ensures
        c == circle_at(center, radius),
        circle_center(c) == center,
{
    Circle::new(center, radius.into())
}

/// The elements of `v` in reverse order (so that popping yields them in
/// their original order).
pub fn reversed<T>(v: Vec<T>) -> (r: Vec<T>)
    ensures
        r@ == v@.reverse(),
{
    let ghost all = v@;
    let mut v = v;
    let mut r: Vec<T> = Vec::new();
    while v.len() > 0
        invariant
            v@.len() <= all.len(),
            r@ == all.subrange(v@.len() as int, all.len() as int).reverse(),
            v@ == all.subrange(0, v@.len() as int),
        decreases v@.len(),
    {
        let ghost m = v@.len();
        let x = v.pop().unwrap();
        assert(v@ =~= all.subrange(0, v@.len() as int));
        assert(x == all[m - 1]);
        r.push(x);
        assert(all.subrange(v@.len() as int, all.len() as int).reverse() =~= all.subrange(
            (v@.len() + 1) as int,
            all.len() as int,
        ).reverse().push(x));
    }
    assert(all.subrange(0, all.len() as int) =~= all);
    r
}

} // verus!
