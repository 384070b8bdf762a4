//! Vector geometries over a point type of the caller's choice.

use vstd::prelude::*;
use vstd::std_specs::convert::FromSpec;

verus! {

/// A geometry: a point, a line string, a polygon (rings of points), or a collection of
/// one of these.
#[derive(Clone, Debug, PartialEq)]
pub enum Geometry<P> {
    Point(P),
    LineString(Vec<P>),
    Polygon(Vec<Vec<P>>),
    MultiPoint(Vec<P>),
    MultiLineString(Vec<Vec<P>>),
    MultiPolygon(Vec<Vec<Vec<P>>>),
}

impl<P> Geometry<P> {
    /// A point.
    pub fn new_point(geometry: P) -> (r: Self)
        ensures
            r == Geometry::Point(geometry),
    {
        Geometry::Point(geometry)
    }

    /// A line string.
    pub fn new_line_string(geometry: Vec<P>) -> (r: Self)
        ensures
            r == Geometry::LineString(geometry),
    {
        Geometry::LineString(geometry)
    }

    /// A polygon.
    pub fn new_polygon(geometry: Vec<Vec<P>>) -> (r: Self)
        ensures
            r == Geometry::Polygon(geometry),
    {
        Geometry::Polygon(geometry)
    }

    /// Several points.
    pub fn new_multi_point(geometry: Vec<P>) -> (r: Self)
        ensures
            r == Geometry::MultiPoint(geometry),
    {
        Geometry::MultiPoint(geometry)
    }

    /// Several line strings.
    pub fn new_multi_line_string(geometry: Vec<Vec<P>>) -> (r: Self)
        ensures
            r == Geometry::MultiLineString(geometry),
    {
        Geometry::MultiLineString(geometry)
    }

    /// Several polygons.
    pub fn new_multi_polygon(geometry: Vec<Vec<Vec<P>>>) -> (r: Self)
        ensures
            r == Geometry::MultiPolygon(geometry),
    {
        Geometry::MultiPolygon(geometry)
    }

    /// The name of the geometry's kind.
    pub fn get_type(&self) -> (r: &'static str)
        ensures
            r@ == match self {
                Geometry::Point(_) => "Point"@,
                Geometry::LineString(_) => "LineString"@,
                Geometry::Polygon(_) => "Polygon"@,
                Geometry::MultiPoint(_) => "MultiPoint"@,
                Geometry::MultiLineString(_) => "MultiLineString"@,
                Geometry::MultiPolygon(_) => "MultiPolygon"@,
            },
    {
        proof {
            reveal_strlit("Point");
            reveal_strlit("LineString");
            reveal_strlit("Polygon");
            reveal_strlit("MultiPoint");
            reveal_strlit("MultiLineString");
            reveal_strlit("MultiPolygon");
        }
        match self {
            Geometry::Point(_) => "Point",
            Geometry::LineString(_) => "LineString",
            Geometry::Polygon(_) => "Polygon",
            Geometry::MultiPoint(_) => "MultiPoint",
            Geometry::MultiLineString(_) => "MultiLineString",
            Geometry::MultiPolygon(_) => "MultiPolygon",
        }
    }

    /// The same geometry as a collection: a single point, line string or polygon becomes
    /// a collection of one; a collection stays as it is.
    pub fn into_multi(self) -> (r: Self)
        ensures
            match self {
                Geometry::Point(g) => r matches Geometry::MultiPoint(v) && v@ == seq![g],
                Geometry::LineString(g) => r matches Geometry::MultiLineString(v) && v@ == seq![g],
                Geometry::Polygon(g) => r matches Geometry::MultiPolygon(v) && v@ == seq![g],
                _ => r == self,
            },
    {
        match self {
            Geometry::Point(g) => Geometry::MultiPoint(vec![g]),
            Geometry::LineString(g) => Geometry::MultiLineString(vec![g]),
            Geometry::Polygon(g) => Geometry::MultiPolygon(vec![g]),
            Geometry::MultiPoint(g) => Geometry::MultiPoint(g),
            Geometry::MultiLineString(g) => Geometry::MultiLineString(g),
            Geometry::MultiPolygon(g) => Geometry::MultiPolygon(g),
        }
    }
}

/// Points converted from their plain form, in order.
pub fn parse1<I, P: From<I>>(value: Vec<I>) -> (r: Vec<P>)
    ensures
        r@.len() == value@.len(),
        P::obeys_from_spec() ==> forall|i: int|
            0 <= i < r@.len() ==> #[trigger] r@[i] == P::from_spec(value@[i]),
{
    let n = value.len();
    let mut rest = value;
    let mut reversed: Vec<P> = Vec::new();
    while rest.len() > 0
        invariant
            rest@.len() + reversed@.len() == n,
            n == value@.len(),
            rest@ == value@.subrange(0, rest@.len() as int),
            P::obeys_from_spec() ==> forall|k: int|
                0 <= k < reversed@.len() ==> #[trigger] reversed@[k] == P::from_spec(value@[n - 1 - k]),
        decreases rest@.len(),
    {
        match rest.pop() {
            Some(x) => reversed.push(P::from(x)),
            None => {},
        }
    }
    let mut r: Vec<P> = Vec::new();
    while reversed.len() > 0
        invariant
            reversed@.len() + r@.len() == n,
            n == value@.len(),
            P::obeys_from_spec() ==> forall|k: int|
                0 <= k < reversed@.len() ==> #[trigger] reversed@[k] == P::from_spec(value@[n - 1 - k]),
            P::obeys_from_spec() ==> forall|k: int|
                0 <= k < r@.len() ==> #[trigger] r@[k] == P::from_spec(value@[k]),
        decreases reversed@.len(),
    {
        match reversed.pop() {
            Some(x) => r.push(x),
            None => {},
        }
    }
    r
}

/// Lines of points converted from their plain form, in order.
pub fn parse2<I, P: From<I>>(value: Vec<Vec<I>>) -> (r: Vec<Vec<P>>)
    ensures
        r@.len() == value@.len(),
        forall|i: int| 0 <= i < r@.len() ==> (#[trigger] r@[i])@.len() == value@[i]@.len(),
        P::obeys_from_spec() ==> forall|i: int, j: int|
            0 <= i < r@.len() && 0 <= j < r@[i]@.len() ==> #[trigger] r@[i]@[j] == P::from_spec(
                value@[i]@[j],
            ),
{
    let n = value.len();
    let mut rest = value;
    let mut reversed: Vec<Vec<P>> = Vec::new();
    while rest.len() > 0
        invariant
            rest@.len() + reversed@.len() == n,
            n == value@.len(),
            rest@ == value@.subrange(0, rest@.len() as int),
            forall|k: int|
                0 <= k < reversed@.len() ==> (#[trigger] reversed@[k])@.len() == value@[n - 1 - k]@.len(),
            P::obeys_from_spec() ==> forall|k: int, j: int|
                0 <= k < reversed@.len() && 0 <= j < reversed@[k]@.len() ==> #[trigger] reversed@[k]@[j]
                    == P::from_spec(value@[n - 1 - k]@[j]),
        decreases rest@.len(),
    {
        match rest.pop() {
            Some(x) => reversed.push(parse1(x)),
            None => {},
        }
    }
    let mut r: Vec<Vec<P>> = Vec::new();
    while reversed.len() > 0
        invariant
            reversed@.len() + r@.len() == n,
            n == value@.len(),
            forall|k: int|
                0 <= k < reversed@.len() ==> (#[trigger] reversed@[k])@.len() == value@[n - 1 - k]@.len(),
            P::obeys_from_spec() ==> forall|k: int, j: int|
                0 <= k < reversed@.len() && 0 <= j < reversed@[k]@.len() ==> #[trigger] reversed@[k]@[j]
                    == P::from_spec(value@[n - 1 - k]@[j]),
            forall|k: int| 0 <= k < r@.len() ==> (#[trigger] r@[k])@.len() == value@[k]@.len(),
            P::obeys_from_spec() ==> forall|k: int, j: int|
                0 <= k < r@.len() && 0 <= j < r@[k]@.len() ==> #[trigger] r@[k]@[j] == P::from_spec(
                    value@[k]@[j],
                ),
        decreases reversed@.len(),
    {
        match reversed.pop() {
            Some(x) => r.push(x),
            None => {},
        }
    }
    r
}

/// Polygons, rings of points, converted from their plain form, in order.
pub fn parse3<I, P: From<I>>(value: Vec<Vec<Vec<I>>>) -> (r: Vec<Vec<Vec<P>>>)
    ensures
        r@.len() == value@.len(),
        forall|i: int| 0 <= i < r@.len() ==> (#[trigger] r@[i])@.len() == value@[i]@.len(),
{
    let n = value.len();
    let mut rest = value;
    let mut reversed: Vec<Vec<Vec<P>>> = Vec::new();
    while rest.len() > 0
        invariant
            rest@.len() + reversed@.len() == n,
            n == value@.len(),
            rest@ == value@.subrange(0, rest@.len() as int),
            forall|k: int|
                0 <= k < reversed@.len() ==> (#[trigger] reversed@[k])@.len() == value@[n - 1 - k]@.len(),
        decreases rest@.len(),
    {
        match rest.pop() {
            Some(x) => reversed.push(parse2(x)),
            None => {},
        }
    }
    let mut r: Vec<Vec<Vec<P>>> = Vec::new();
    while reversed.len() > 0
        invariant
            reversed@.len() + r@.len() == n,
            n == value@.len(),
            forall|k: int|
                0 <= k < reversed@.len() ==> (#[trigger] reversed@[k])@.len() == value@[n - 1 - k]@.len(),
            forall|k: int| 0 <= k < r@.len() ==> (#[trigger] r@[k])@.len() == value@[k]@.len(),
        decreases reversed@.len(),
    {
        match reversed.pop() {
            Some(x) => r.push(x),
            None => {},
        }
    }
    r
}

} // verus!
