use versatiles::geometry::{parse1, parse2, parse3, Geometry};

#[derive(Clone, Debug, PartialEq)]
struct PointGeometry {
    x: f64,
    y: f64,
}

impl From<[f64; 2]> for PointGeometry {
    fn from(value: [f64; 2]) -> Self {
        PointGeometry { x: value[0], y: value[1] }
    }
}

#[test]
fn test_new_point() {
    let point = PointGeometry { x: 1.0, y: 2.0 };
    let geometry = Geometry::new_point(point.clone());
    assert_eq!(geometry, Geometry::Point(point));
}

#[test]
fn test_new_line_string() {
    let line_string = vec![PointGeometry { x: 1.0, y: 2.0 }, PointGeometry { x: 3.0, y: 4.0 }];
    let geometry = Geometry::new_line_string(line_string.clone());
    assert_eq!(geometry, Geometry::LineString(line_string));
}

#[test]
fn test_new_polygon() {
    let polygon: Vec<Vec<PointGeometry>> =
        parse2(vec![vec![[0.0, 0.0], [5.0, 0.0], [2.5, 4.0], [0.0, 0.0]]]);
    let geometry = Geometry::new_polygon(polygon.clone());
    assert_eq!(geometry, Geometry::Polygon(polygon));
}

#[test]
fn test_new_multi_point() {
    let multi_point = vec![PointGeometry { x: 1.0, y: 2.0 }, PointGeometry { x: 3.0, y: 4.0 }];
    let geometry = Geometry::new_multi_point(multi_point.clone());
    assert_eq!(geometry, Geometry::MultiPoint(multi_point));
}

#[test]
fn test_new_multi_line_string() {
    let multi_line_string = vec![
        vec![PointGeometry { x: 1.0, y: 2.0 }, PointGeometry { x: 3.0, y: 4.0 }],
        vec![PointGeometry { x: 5.0, y: 6.0 }, PointGeometry { x: 7.0, y: 8.0 }],
    ];
    let geometry = Geometry::new_multi_line_string(multi_line_string.clone());
    assert_eq!(geometry, Geometry::MultiLineString(multi_line_string));
}

#[test]
fn test_new_multi_polygon() {
    let multi_polygon: Vec<Vec<Vec<PointGeometry>>> = parse3(vec![
        vec![vec![[0.0, 0.0], [5.0, 0.0], [2.5, 4.0], [0.0, 0.0]]],
        vec![vec![[6.0, 0.0], [9.0, 0.0], [9.0, 4.0], [6.0, 4.0], [6.0, 0.0]]],
    ]);
    let geometry = Geometry::new_multi_polygon(multi_polygon.clone());
    assert_eq!(geometry, Geometry::MultiPolygon(multi_polygon));
}

#[test]
fn test_into_multi() {
    let point = PointGeometry { x: 1.0, y: 2.0 };
    let geometry = Geometry::new_point(point.clone()).into_multi();
    assert_eq!(geometry, Geometry::MultiPoint(vec![point]));

    let line_string = vec![PointGeometry { x: 1.0, y: 2.0 }, PointGeometry { x: 3.0, y: 4.0 }];
    let geometry = Geometry::new_line_string(line_string.clone()).into_multi();
    assert_eq!(geometry, Geometry::MultiLineString(vec![line_string]));

    let polygon: Vec<Vec<PointGeometry>> =
        parse2(vec![vec![[0.0, 0.0], [5.0, 0.0], [2.5, 4.0], [0.0, 0.0]]]);
    let geometry = Geometry::new_polygon(polygon.clone()).into_multi();
    assert_eq!(geometry, Geometry::MultiPolygon(vec![polygon]));
}

#[test]
fn parse1_keeps_order() {
    let points: Vec<PointGeometry> = parse1(vec![[1.0, 2.0], [3.0, 4.0], [5.0, 6.0]]);
    assert_eq!(
        points,
        vec![
            PointGeometry { x: 1.0, y: 2.0 },
            PointGeometry { x: 3.0, y: 4.0 },
            PointGeometry { x: 5.0, y: 6.0 }
        ]
    );
}

#[test]
fn geometry_type_names() {
    let p = Geometry::new_point(PointGeometry { x: 0.0, y: 0.0 });
    assert_eq!(p.get_type(), "Point");
    assert_eq!(p.into_multi().get_type(), "MultiPoint");
    let l: Geometry<PointGeometry> = Geometry::new_multi_line_string(vec![]);
    assert_eq!(l.get_type(), "MultiLineString");
}
