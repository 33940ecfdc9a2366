use distance_cartogram::errors::Error;
use distance_cartogram::geometry::bounding_vertices;
use distance_cartogram::geometry::interpolate_geom;
use distance_cartogram::geometry::interpolate_layer;
use distance_cartogram::geometry::interpolate_polygon;
use distance_cartogram::geometry::interpolate_ring;
use distance_cartogram::geometry::interpolate_rings;
use distance_cartogram::geometry::Geometry;
use distance_cartogram::geometry::Polygon;
use geo_types::Coord;

fn at(x: f64, y: f64) -> Coord {
    Coord { x, y }
}

/// Doubles the abscissa and shifts the ordinate by one.
fn warp(p: Coord) -> Coord {
    Coord { x: 2. * p.x, y: p.y + 1. }
}

fn square_with_hole() -> Polygon<Coord> {
    Polygon {
        exterior: vec![at(0., 0.), at(10., 0.), at(10., 10.), at(0., 10.)],
        interiors: vec![vec![at(4., 4.), at(6., 4.), at(5., 6.)]],
    }
}

#[test]
fn ring_is_mapped_point_by_point() {
    let ring = vec![at(1., 2.), at(3., 4.)];
    assert_eq!(interpolate_ring(&ring, &warp), vec![at(2., 3.), at(6., 5.)]);
    assert_eq!(interpolate_ring(&Vec::new(), &warp), Vec::<Coord>::new());
}

#[test]
fn rings_keep_their_number_and_their_lengths() {
    let rings = vec![vec![at(1., 1.)], vec![], vec![at(0., 0.), at(5., 5.)]];
    let mapped = interpolate_rings(&rings, &warp);
    assert_eq!(mapped, vec![vec![at(2., 2.)], vec![], vec![at(0., 1.), at(10., 6.)]]);
}

#[test]
fn polygon_keeps_its_holes() {
    let mapped = interpolate_polygon(&square_with_hole(), &warp);
    assert_eq!(mapped.exterior, vec![at(0., 1.), at(20., 1.), at(20., 11.), at(0., 11.)]);
    assert_eq!(mapped.interiors, vec![vec![at(8., 5.), at(12., 5.), at(10., 7.)]]);
}

#[test]
fn point_stays_a_point() {
    match interpolate_geom(&Geometry::Point(at(1., 1.)), &warp) {
        Geometry::Point(p) => assert_eq!(p, at(2., 2.)),
        other => panic!("a point became {:?}", other),
    }
}

#[test]
fn line_keeps_its_ends_in_order() {
    match interpolate_geom(&Geometry::Line(at(1., 1.), at(2., 0.)), &warp) {
        Geometry::Line(start, end) => assert_eq!((start, end), (at(2., 2.), at(4., 1.))),
        other => panic!("a line became {:?}", other),
    }
}

#[test]
fn line_string_keeps_its_length() {
    let line = Geometry::LineString(vec![at(0., 0.), at(1., 0.), at(1., 1.)]);
    match interpolate_geom(&line, &warp) {
        Geometry::LineString(v) => assert_eq!(v, vec![at(0., 1.), at(2., 1.), at(2., 2.)]),
        other => panic!("a line string became {:?}", other),
    }
}

#[test]
fn polygon_stays_a_polygon() {
    match interpolate_geom(&Geometry::Polygon(square_with_hole()), &warp) {
        Geometry::Polygon(p) => {
            assert_eq!(p.exterior.len(), 4);
            assert_eq!(p.exterior[2], at(20., 11.));
            assert_eq!(p.interiors.len(), 1);
            assert_eq!(p.interiors[0].len(), 3);
        }
        other => panic!("a polygon became {:?}", other),
    }
}

#[test]
fn multi_point_keeps_its_points() {
    match interpolate_geom(&Geometry::MultiPoint(vec![at(1., 0.), at(0., 1.)]), &warp) {
        Geometry::MultiPoint(v) => assert_eq!(v, vec![at(2., 1.), at(0., 2.)]),
        other => panic!("a multi point became {:?}", other),
    }
}

#[test]
fn multi_line_string_keeps_its_lines() {
    let lines = Geometry::MultiLineString(vec![vec![at(0., 0.), at(1., 1.)], vec![at(2., 2.)]]);
    match interpolate_geom(&lines, &warp) {
        Geometry::MultiLineString(v) => {
            assert_eq!(v, vec![vec![at(0., 1.), at(2., 2.)], vec![at(4., 3.)]]);
        }
        other => panic!("a multi line string became {:?}", other),
    }
}

#[test]
fn multi_polygon_keeps_its_members() {
    let triangle = Polygon { exterior: vec![at(0., 0.), at(1., 0.), at(0., 1.)], interiors: vec![] };
    let multi = Geometry::MultiPolygon(vec![square_with_hole(), triangle]);
    match interpolate_geom(&multi, &warp) {
        Geometry::MultiPolygon(v) => {
            assert_eq!(v.len(), 2);
            assert_eq!(v[0].exterior.len(), 4);
            assert_eq!(v[0].interiors.len(), 1);
            assert_eq!(v[1].exterior, vec![at(0., 1.), at(2., 1.), at(0., 2.)]);
            assert!(v[1].interiors.is_empty());
        }
        other => panic!("a multi polygon became {:?}", other),
    }
}

#[test]
fn rect_keeps_its_two_corners() {
    match interpolate_geom(&Geometry::Rect(at(0., 0.), at(3., 4.)), &warp) {
        Geometry::Rect(low, high) => assert_eq!((low, high), (at(0., 1.), at(6., 5.))),
        other => panic!("a rectangle became {:?}", other),
    }
}

#[test]
fn triangle_keeps_its_three_corners() {
    match interpolate_geom(&Geometry::Triangle(at(0., 0.), at(1., 0.), at(0., 1.)), &warp) {
        Geometry::Triangle(a, b, c) => {
            assert_eq!((a, b, c), (at(0., 1.), at(2., 1.), at(0., 2.)));
        }
        other => panic!("a triangle became {:?}", other),
    }
}

#[test]
fn collection_is_mapped_member_by_member() {
    let collection = Geometry::GeometryCollection(vec![
        Geometry::Point(at(1., 1.)),
        Geometry::GeometryCollection(vec![Geometry::Line(at(0., 0.), at(1., 0.))]),
        Geometry::GeometryCollection(vec![]),
    ]);
    match interpolate_geom(&collection, &warp) {
        Geometry::GeometryCollection(members) => {
            assert_eq!(members.len(), 3);
            assert!(matches!(&members[0], Geometry::Point(p) if *p == at(2., 2.)));
            match &members[1] {
                Geometry::GeometryCollection(inner) => {
                    assert_eq!(inner.len(), 1);
                    assert!(matches!(
                        &inner[0],
                        Geometry::Line(a, b) if *a == at(0., 1.) && *b == at(2., 1.)
                    ));
                }
                other => panic!("a collection became {:?}", other),
            }
            assert!(matches!(&members[2], Geometry::GeometryCollection(inner) if inner.is_empty()));
        }
        other => panic!("a collection became {:?}", other),
    }
}

#[test]
fn layer_inside_the_grid_is_mapped() {
    let layer = vec![Geometry::Point(at(1., 2.)), Geometry::Polygon(square_with_hole())];
    let mapped = interpolate_layer(&layer, true, &warp).unwrap();
    assert_eq!(mapped.len(), 2);
    assert!(matches!(&mapped[0], Geometry::Point(p) if *p == at(2., 3.)));
    assert!(matches!(&mapped[1], Geometry::Polygon(p) if p.exterior.len() == 4));
}

#[test]
fn identity_leaves_a_layer_as_it_is() {
    let layer = vec![Geometry::Polygon(square_with_hole())];
    let mapped = interpolate_layer(&layer, true, &|p: Coord| p).unwrap();
    match &mapped[0] {
        Geometry::Polygon(p) => {
            assert_eq!(p.exterior, square_with_hole().exterior);
            assert_eq!(p.interiors, square_with_hole().interiors);
        }
        other => panic!("a polygon became {:?}", other),
    }
}

#[test]
fn layer_outside_the_grid_is_refused() {
    let layer = vec![Geometry::Polygon(Polygon {
        exterior: vec![at(-1., -1.), at(11., -1.), at(11., 11.), at(-1., 11.)],
        interiors: vec![],
    })];
    match interpolate_layer(&layer, false, &warp) {
        Err(error) => assert_eq!(error, Error::GeometriesNotInBBox),
        Ok(_) => panic!("a layer that is not contained must be refused"),
    }
}

#[test]
fn empty_layer_is_mapped_to_an_empty_layer() {
    let layer: Vec<Geometry<Coord>> = Vec::new();
    assert!(interpolate_layer(&layer, true, &warp).unwrap().is_empty());
    assert!(interpolate_layer(&layer, false, &warp).is_err());
}

#[test]
fn bounding_vertices_of_each_variant() {
    assert_eq!(bounding_vertices(&[Geometry::Point(at(1., 2.))]), vec![at(1., 2.)]);
    assert_eq!(
        bounding_vertices(&[Geometry::Line(at(1., 2.), at(3., 4.))]),
        vec![at(1., 2.), at(3., 4.)]
    );
    assert_eq!(
        bounding_vertices(&[Geometry::LineString(vec![at(0., 0.), at(1., 1.)])]),
        vec![at(0., 0.), at(1., 1.)]
    );
    assert_eq!(
        bounding_vertices(&[Geometry::MultiPoint(vec![at(5., 5.), at(6., 6.)])]),
        vec![at(5., 5.), at(6., 6.)]
    );
    assert_eq!(
        bounding_vertices(&[Geometry::MultiLineString(vec![
            vec![at(0., 0.)],
            vec![],
            vec![at(1., 1.), at(2., 2.)]
        ])]),
        vec![at(0., 0.), at(1., 1.), at(2., 2.)]
    );
    assert_eq!(
        bounding_vertices(&[Geometry::Rect(at(0., 1.), at(2., 3.))]),
        vec![at(0., 1.), at(2., 3.)]
    );
    assert_eq!(
        bounding_vertices(&[Geometry::Triangle(at(0., 0.), at(1., 0.), at(0., 1.))]),
        vec![at(0., 0.), at(1., 0.), at(0., 1.)]
    );
}

#[test]
fn polygon_is_bounded_by_its_outer_ring() {
    let vertices = bounding_vertices(&[Geometry::Polygon(square_with_hole())]);
    assert_eq!(vertices, vec![at(0., 0.), at(10., 0.), at(10., 10.), at(0., 10.)]);
    let triangle = Polygon { exterior: vec![at(20., 0.), at(21., 0.), at(20., 1.)], interiors: vec![] };
    let vertices = bounding_vertices(&[Geometry::MultiPolygon(vec![square_with_hole(), triangle])]);
    assert_eq!(vertices.len(), 7);
    assert_eq!(vertices[4], at(20., 0.));
}

#[test]
fn collection_is_bounded_by_its_members() {
    let layer = [
        Geometry::Point(at(9., 9.)),
        Geometry::GeometryCollection(vec![
            Geometry::Point(at(1., 1.)),
            Geometry::GeometryCollection(vec![Geometry::Line(at(2., 2.), at(3., 3.))]),
            Geometry::GeometryCollection(vec![]),
            Geometry::Point(at(4., 4.)),
        ]),
    ];
    assert_eq!(
        bounding_vertices(&layer),
        vec![at(9., 9.), at(1., 1.), at(2., 2.), at(3., 3.), at(4., 4.)]
    );
}

#[test]
fn empty_layer_has_no_bounding_vertices() {
    let layer: [Geometry<Coord>; 0] = [];
    assert!(bounding_vertices(&layer).is_empty());
    assert!(bounding_vertices(&[Geometry::<Coord>::GeometryCollection(vec![])]).is_empty());
}
