use vstd::prelude::*;
use crate::errors::Error;

verus! {

/// A polygon: an outer ring and the rings of its holes. A ring is the list
/// of its vertices as the caller gives them: nothing here repeats the first
/// vertex at the end, and nothing drops a vertex that is repeated.
#[derive(Debug, Clone)]
pub struct Polygon<P> {
    pub exterior: Vec<P>,
    pub interiors: Vec<Vec<P>>,
}

/// A planar geometry over points of type `P`.
#[derive(Debug)]
pub enum Geometry<P> {
    Point(P),
    /// A segment, by its start and its end.
    Line(P, P),
    LineString(Vec<P>),
    Polygon(Polygon<P>),
    MultiPoint(Vec<P>),
    MultiLineString(Vec<Vec<P>>),
    MultiPolygon(Vec<Polygon<P>>),
    GeometryCollection(Vec<Geometry<P>>),
    /// An axis-aligned rectangle, by its lowest and its highest corner.
    Rect(P, P),
    Triangle(P, P, P),
}

/// The points of the first `count` rings of `rings`, ring after ring.
pub open spec fn rings_points<P>(rings: Seq<Vec<P>>, count: nat) -> Seq<P>
    decreases count,
{
    if count == 0 || count > rings.len() {
        Seq::empty()
    } else {
        rings_points(rings, (count - 1) as nat) + rings[count - 1]@
    }
}

/// The vertices of the outer rings of the first `count` polygons of
/// `polygons`, polygon after polygon.
pub open spec fn exterior_points<P>(polygons: Seq<Polygon<P>>, count: nat) -> Seq<P>
    decreases count,
{
    if count == 0 || count > polygons.len() {
        Seq::empty()
    } else {
        exterior_points(polygons, (count - 1) as nat) + polygons[count - 1].exterior@
    }
}

/// The vertices that bound `geom`, in the order in which it lists them. For
/// a polygon these are the vertices of the outer ring: a hole lies within it.
pub open spec fn bounding_points<P>(geom: Geometry<P>) -> Seq<P>
    decreases geom, 0nat,
{
    match geom {
        Geometry::Point(p) => seq![p],
        Geometry::Line(a, b) => seq![a, b],
        Geometry::LineString(v) => v@,
        Geometry::Polygon(p) => p.exterior@,
        Geometry::MultiPoint(v) => v@,
        Geometry::MultiLineString(v) => rings_points(v@, v@.len()),
        Geometry::MultiPolygon(v) => exterior_points(v@, v@.len()),
        Geometry::GeometryCollection(v) => members_bounding_points(v@, v@.len()),
        Geometry::Rect(a, b) => seq![a, b],
        Geometry::Triangle(a, b, c) => seq![a, b, c],
    }
}

/// The vertices that bound the first `count` geometries of `members`, one
/// geometry after the other.
pub open spec fn members_bounding_points<P>(members: Seq<Geometry<P>>, count: nat) -> Seq<P>
    decreases members, count,
{
    if count == 0 || count > members.len() {
        Seq::empty()
    } else {
        members_bounding_points(members, (count - 1) as nat) + bounding_points(members[count - 1])
    }
}

/// The vertices that bound a layer: those of its geometries, one geometry
/// after the other.
pub open spec fn layer_bounding_points<P>(layer: Seq<Geometry<P>>) -> Seq<P> {
    members_bounding_points(layer, layer.len())
}

/// The points that `f` may answer with, for each point that it may be asked
/// about: `answers(f)(p, q)` says that `f`, asked about `p`, may answer `q`.
pub open spec fn answers<P, F: Fn(P) -> P>(f: F) -> spec_fn(P, P) -> bool {
    |p: P, q: P| call_ensures(f, (p,), q)
}

/// `to` has as many points as `from`, and each is an answer of `map` for the
/// point of `from` at the same place.
pub open spec fn ring_maps<P>(map: spec_fn(P, P) -> bool, from: Seq<P>, to: Seq<P>) -> bool {
    &&& to.len() == from.len()
    &&& forall|k: int| 0 <= k < from.len() ==> map(from[k], #[trigger] to[k])
}

/// `to` has as many rings as `from`, each mapped from the ring of `from` at
/// the same place.
pub open spec fn rings_map<P>(
    map: spec_fn(P, P) -> bool,
    from: Seq<Vec<P>>,
    to: Seq<Vec<P>>,
) -> bool {
    &&& to.len() == from.len()
    &&& forall|k: int| 0 <= k < from.len() ==> ring_maps(map, from[k]@, (#[trigger] to[k])@)
}

/// `to` is `from` with every vertex mapped: the outer ring and each hole
/// keep their place and their length.
pub open spec fn polygon_maps<P>(
    map: spec_fn(P, P) -> bool,
    from: Polygon<P>,
    to: Polygon<P>,
) -> bool {
    &&& ring_maps(map, from.exterior@, to.exterior@)
    &&& rings_map(map, from.interiors@, to.interiors@)
}

/// `to` is `from` with every vertex mapped: the same variant with the same
/// structure, down to the members of a collection, and every vertex an
/// answer of `map` for the vertex of `from` at the same place.
pub open spec fn geometry_maps<P>(
    map: spec_fn(P, P) -> bool,
    from: Geometry<P>,
    to: Geometry<P>,
) -> bool
    decreases from,
{
    match from {
        Geometry::Point(p) => to matches Geometry::Point(q) && map(p, q),
        Geometry::Line(a, b) => to matches Geometry::Line(c, d) && map(a, c) && map(b, d),
        Geometry::LineString(v) => to matches Geometry::LineString(w) && ring_maps(map, v@, w@),
        Geometry::Polygon(p) => to matches Geometry::Polygon(q) && polygon_maps(map, p, q),
        Geometry::MultiPoint(v) => to matches Geometry::MultiPoint(w) && ring_maps(map, v@, w@),
        Geometry::MultiLineString(v) => to matches Geometry::MultiLineString(w) && rings_map(
            map,
            v@,
            w@,
        ),
        Geometry::MultiPolygon(v) => to matches Geometry::MultiPolygon(w) && w@.len() == v@.len()
            && forall|k: int| 0 <= k < v@.len() ==> polygon_maps(map, v@[k], #[trigger] w@[k]),
        Geometry::GeometryCollection(v) => to matches Geometry::GeometryCollection(w) && w@.len()
            == v@.len() && forall|k: int|
            0 <= k < v@.len() ==> geometry_maps(map, v@[k], #[trigger] w@[k]),
        Geometry::Rect(a, b) => to matches Geometry::Rect(c, d) && map(a, c) && map(b, d),
        Geometry::Triangle(a, b, c) => to matches Geometry::Triangle(d, e, g) && map(a, d) && map(
            b,
            e,
        ) && map(c, g),
    }
}

/// `to` has as many geometries as `from`, each mapped from the geometry of
/// `from` at the same place.
pub open spec fn layer_maps<P>(
    map: spec_fn(P, P) -> bool,
    from: Seq<Geometry<P>>,
    to: Seq<Geometry<P>>,
) -> bool {
    &&& to.len() == from.len()
    &&& forall|k: int| 0 <= k < from.len() ==> geometry_maps(map, from[k], #[trigger] to[k])
}

/// A ring mapped by `map` is mapped by every relation that holds wherever
/// `map` does.
pub proof fn lemma_ring_maps_weaken<P>(
    map: spec_fn(P, P) -> bool,
    wider: spec_fn(P, P) -> bool,
    from: Seq<P>,
    to: Seq<P>,
)
    requires
        forall|p: P, q: P| #[trigger] map(p, q) ==> wider(p, q),
        ring_maps(map, from, to),
    ensures
        ring_maps(wider, from, to),
{
    assert forall|k: int| 0 <= k < from.len() implies wider(from[k], #[trigger] to[k]) by {
        assert(map(from[k], to[k]));
    }
}

/// A polygon mapped by `map` is mapped by every relation that holds
/// wherever `map` does.
pub proof fn lemma_polygon_maps_weaken<P>(
    map: spec_fn(P, P) -> bool,
    wider: spec_fn(P, P) -> bool,
    from: Polygon<P>,
    to: Polygon<P>,
)
    requires
        forall|p: P, q: P| #[trigger] map(p, q) ==> wider(p, q),
        polygon_maps(map, from, to),
    ensures
        polygon_maps(wider, from, to),
{
    lemma_ring_maps_weaken(map, wider, from.exterior@, to.exterior@);
    lemma_rings_map_weaken(map, wider, from.interiors@, to.interiors@);
}

/// Rings mapped by `map` are mapped by every relation that holds wherever
/// `map` does.
pub proof fn lemma_rings_map_weaken<P>(
    map: spec_fn(P, P) -> bool,
    wider: spec_fn(P, P) -> bool,
    from: Seq<Vec<P>>,
    to: Seq<Vec<P>>,
)
    requires
        forall|p: P, q: P| #[trigger] map(p, q) ==> wider(p, q),
        rings_map(map, from, to),
    ensures
        rings_map(wider, from, to),
{
    assert forall|k: int| 0 <= k < from.len() implies ring_maps(
        wider,
        from[k]@,
        (#[trigger] to[k])@,
    ) by {
        assert(ring_maps(map, from[k]@, to[k]@));
        lemma_ring_maps_weaken(map, wider, from[k]@, to[k]@);
    }
}

/// A geometry mapped by `map` is mapped by every relation that holds
/// wherever `map` does.
pub proof fn lemma_geometry_maps_weaken<P>(
    map: spec_fn(P, P) -> bool,
    wider: spec_fn(P, P) -> bool,
    from: Geometry<P>,
    to: Geometry<P>,
)
    requires
        forall|p: P, q: P| #[trigger] map(p, q) ==> wider(p, q),
        geometry_maps(map, from, to),
    ensures
        geometry_maps(wider, from, to),
    decreases from,
{
    match from {
        Geometry::LineString(v) => {
            lemma_ring_maps_weaken(map, wider, v@, to->LineString_0@);
        },
        Geometry::Polygon(p) => {
            lemma_polygon_maps_weaken(map, wider, p, to->Polygon_0);
        },
        Geometry::MultiPoint(v) => {
            lemma_ring_maps_weaken(map, wider, v@, to->MultiPoint_0@);
        },
        Geometry::MultiLineString(v) => {
            lemma_rings_map_weaken(map, wider, v@, to->MultiLineString_0@);
        },
        Geometry::MultiPolygon(v) => {
            let w = to->MultiPolygon_0;
            assert forall|k: int| 0 <= k < v@.len() implies polygon_maps(
                wider,
                v@[k],
                #[trigger] w@[k],
            ) by {
                assert(polygon_maps(map, v@[k], w@[k]));
                lemma_polygon_maps_weaken(map, wider, v@[k], w@[k]);
            }
        },
        Geometry::GeometryCollection(v) => {
            let w = to->GeometryCollection_0;
            assert forall|k: int| 0 <= k < v@.len() implies geometry_maps(
                wider,
                v@[k],
                #[trigger] w@[k],
            ) by {
                assert(geometry_maps(map, v@[k], w@[k]));
                lemma_geometry_maps_weaken(map, wider, v@[k], w@[k]);
            }
        },
        _ => {},
    }
}

/// A layer mapped by `map` is mapped by every relation that holds wherever
/// `map` does.
pub proof fn lemma_layer_maps_weaken<P>(
    map: spec_fn(P, P) -> bool,
    wider: spec_fn(P, P) -> bool,
    from: Seq<Geometry<P>>,
    to: Seq<Geometry<P>>,
)
    requires
        forall|p: P, q: P| #[trigger] map(p, q) ==> wider(p, q),
        layer_maps(map, from, to),
    ensures
        layer_maps(wider, from, to),
{
    assert forall|k: int| 0 <= k < from.len() implies geometry_maps(
        wider,
        from[k],
        #[trigger] to[k],
    ) by {
        assert(geometry_maps(map, from[k], to[k]));
        lemma_geometry_maps_weaken(map, wider, from[k], to[k]);
    }
}

/// Two mapped rings, one after the other, are the mapped ring of the two
/// rings that they come from, one after the other.
pub proof fn lemma_ring_maps_concat<P>(
    map: spec_fn(P, P) -> bool,
    from: Seq<P>,
    to: Seq<P>,
    more_from: Seq<P>,
    more_to: Seq<P>,
)
    requires
        ring_maps(map, from, to),
        ring_maps(map, more_from, more_to),
    ensures
        ring_maps(map, from + more_from, to + more_to),
{
    assert forall|k: int| 0 <= k < (from + more_from).len() implies map(
        (from + more_from)[k],
        #[trigger] (to + more_to)[k],
    ) by {
        if k < from.len() {
            assert(map(from[k], to[k]));
        } else {
            assert(map(more_from[k - from.len()], more_to[k - from.len()]));
        }
    }
}

/// The points of mapped rings are the mapped points of the rings.
pub proof fn lemma_rings_points_map<P>(
    map: spec_fn(P, P) -> bool,
    from: Seq<Vec<P>>,
    to: Seq<Vec<P>>,
    count: nat,
)
    requires
        rings_map(map, from, to),
        count <= from.len(),
    ensures
        ring_maps(map, rings_points(from, count), rings_points(to, count)),
    decreases count,
{
    if count > 0 {
        let before = (count - 1) as nat;
        lemma_rings_points_map(map, from, to, before);
        assert(ring_maps(map, from[count - 1]@, to[count - 1]@));
        lemma_ring_maps_concat(
            map,
            rings_points(from, before),
            rings_points(to, before),
            from[count - 1]@,
            to[count - 1]@,
        );
    }
}

/// The outer rings of mapped polygons are the mapped outer rings of the polygons.
pub proof fn lemma_exterior_points_map<P>(
    map: spec_fn(P, P) -> bool,
    from: Seq<Polygon<P>>,
    to: Seq<Polygon<P>>,
    count: nat,
)
    requires
        to.len() == from.len(),
        forall|k: int| 0 <= k < from.len() ==> polygon_maps(map, from[k], #[trigger] to[k]),
        count <= from.len(),
    ensures
        ring_maps(map, exterior_points(from, count), exterior_points(to, count)),
    decreases count,
{
    if count > 0 {
        let before = (count - 1) as nat;
        lemma_exterior_points_map(map, from, to, before);
        assert(polygon_maps(map, from[count - 1], to[count - 1]));
        lemma_ring_maps_concat(
            map,
            exterior_points(from, before),
            exterior_points(to, before),
            from[count - 1].exterior@,
            to[count - 1].exterior@,
        );
    }
}

/// A mapped geometry is bounded by as many vertices as the geometry that it
/// comes from, and each of them is mapped from the vertex at the same place.
pub proof fn lemma_bounding_points_map<P>(
    map: spec_fn(P, P) -> bool,
    from: Geometry<P>,
    to: Geometry<P>,
)
    requires
        geometry_maps(map, from, to),
    ensures
        ring_maps(map, bounding_points(from), bounding_points(to)),
    decreases from, 0nat,
{
    match from {
        Geometry::MultiLineString(v) => {
            lemma_rings_points_map(map, v@, to->MultiLineString_0@, v@.len());
        },
        Geometry::MultiPolygon(v) => {
            lemma_exterior_points_map(map, v@, to->MultiPolygon_0@, v@.len());
        },
        Geometry::GeometryCollection(v) => {
            lemma_members_bounding_points_map(map, v@, to->GeometryCollection_0@, v@.len());
        },
        _ => {},
    }
}

/// Mapped geometries are bounded, one after the other, by the mapped
/// vertices that bound the geometries that they come from.
pub proof fn lemma_members_bounding_points_map<P>(
    map: spec_fn(P, P) -> bool,
    from: Seq<Geometry<P>>,
    to: Seq<Geometry<P>>,
    count: nat,
)
    requires
        layer_maps(map, from, to),
        count <= from.len(),
    ensures
        ring_maps(
            map,
            members_bounding_points(from, count),
            members_bounding_points(to, count),
        ),
    decreases from, count,
{
    if count > 0 {
        let before = (count - 1) as nat;
        lemma_members_bounding_points_map(map, from, to, before);
        assert(geometry_maps(map, from[count - 1], to[count - 1]));
        lemma_bounding_points_map(map, from[count - 1], to[count - 1]);
        lemma_ring_maps_concat(
            map,
            members_bounding_points(from, before),
            members_bounding_points(to, before),
            bounding_points(from[count - 1]),
            bounding_points(to[count - 1]),
        );
    }
}

/// Maps every point of `ring` by `f`.
pub fn interpolate_ring<P: Copy, F: Fn(P) -> P>(ring: &Vec<P>, f: &F) -> (mapped: Vec<P>)
    requires
        forall|p: P| call_requires(*f, (p,)),
    ensures
        ring_maps(answers(*f), ring@, mapped@),
{
    let mut mapped: Vec<P> = Vec::with_capacity(ring.len());
    let mut k: usize = 0;
    while k < ring.len()
        invariant
            k <= ring@.len(),
            forall|p: P| call_requires(*f, (p,)),
            ring_maps(answers(*f), ring@.take(k as int), mapped@),
        decreases ring@.len() - k,
    {
        mapped.push(f(ring[k]));
        k += 1;
    }
    assert(ring@.take(ring@.len() as int) =~= ring@);
    mapped
}

/// Maps every point of every ring of `rings` by `f`.
pub fn interpolate_rings<P: Copy, F: Fn(P) -> P>(rings: &Vec<Vec<P>>, f: &F) -> (mapped: Vec<
    Vec<P>,
>)
    requires
        forall|p: P| call_requires(*f, (p,)),
    ensures
        rings_map(answers(*f), rings@, mapped@),
{
    let mut mapped: Vec<Vec<P>> = Vec::with_capacity(rings.len());
    let mut k: usize = 0;
    while k < rings.len()
        invariant
            k <= rings@.len(),
            forall|p: P| call_requires(*f, (p,)),
            rings_map(answers(*f), rings@.take(k as int), mapped@),
        decreases rings@.len() - k,
    {
        mapped.push(interpolate_ring(&rings[k], f));
        k += 1;
    }
    assert(rings@.take(rings@.len() as int) =~= rings@);
    mapped
}

/// Maps every vertex of `polygon` by `f`, holes included.
pub fn interpolate_polygon<P: Copy, F: Fn(P) -> P>(polygon: &Polygon<P>, f: &F) -> (mapped: Polygon<
    P,
>)
    requires
        forall|p: P| call_requires(*f, (p,)),
    ensures
        polygon_maps(answers(*f), *polygon, mapped),
{
    Polygon {
        exterior: interpolate_ring(&polygon.exterior, f),
        interiors: interpolate_rings(&polygon.interiors, f),
    }
}

/// Maps every vertex of `geom` by `f` and keeps everything else: the variant,
/// the number and the order of the vertices, the holes of a polygon, the
/// members of a collection.
pub fn interpolate_geom<P: Copy, F: Fn(P) -> P>(geom: &Geometry<P>, f: &F) -> (mapped: Geometry<P>)
    requires
        forall|p: P| call_requires(*f, (p,)),
    ensures
        geometry_maps(answers(*f), *geom, mapped),
    decreases geom,
{
    match geom {
        Geometry::Point(p) => Geometry::Point(f(*p)),
        Geometry::Line(a, b) => {
            let start = f(*a);
            let end = f(*b);
            Geometry::Line(start, end)
        },
        Geometry::LineString(v) => Geometry::LineString(interpolate_ring(v, f)),
        Geometry::Polygon(p) => Geometry::Polygon(interpolate_polygon(p, f)),
        Geometry::MultiPoint(v) => Geometry::MultiPoint(interpolate_ring(v, f)),
        Geometry::MultiLineString(v) => Geometry::MultiLineString(interpolate_rings(v, f)),
        Geometry::MultiPolygon(v) => {
            let mut mapped: Vec<Polygon<P>> = Vec::with_capacity(v.len());
            let mut k: usize = 0;
            while k < v.len()
                invariant
                    k <= v@.len(),
                    forall|p: P| call_requires(*f, (p,)),
                    mapped@.len() == k,
                    forall|m: int| 0 <= m < k ==> polygon_maps(answers(*f), v@[m], #[trigger] mapped@[m]),
                decreases v@.len() - k,
            {
                mapped.push(interpolate_polygon(&v[k], f));
                k += 1;
            }
            Geometry::MultiPolygon(mapped)
        },
        Geometry::GeometryCollection(v) => {
            let mut mapped: Vec<Geometry<P>> = Vec::with_capacity(v.len());
            let mut k: usize = 0;
            while k < v.len()
                invariant
                    k <= v@.len(),
                    *geom is GeometryCollection,
                    geom->GeometryCollection_0 == *v,
                    forall|p: P| call_requires(*f, (p,)),
                    mapped@.len() == k,
                    forall|m: int| 0 <= m < k ==> geometry_maps(answers(*f), v@[m], #[trigger] mapped@[m]),
                decreases v@.len() - k,
            {
                assert(decreases_to!(*geom => geom->GeometryCollection_0));
                mapped.push(interpolate_geom(&v[k], f));
                k += 1;
            }
            Geometry::GeometryCollection(mapped)
        },
        Geometry::Rect(a, b) => {
            let low = f(*a);
            let high = f(*b);
            Geometry::Rect(low, high)
        },
        Geometry::Triangle(a, b, c) => {
            let first = f(*a);
            let second = f(*b);
            let third = f(*c);
            Geometry::Triangle(first, second, third)
        },
    }
}

/// Maps every vertex of every geometry of a layer by `f`, unless the layer
/// reaches outside the grid: `contained` says whether the bounding box of the
/// layer lies within that of the grid.
pub fn interpolate_layer<P: Copy, F: Fn(P) -> P>(
    geometries: &[Geometry<P>],
    contained: bool,
    f: &F,
) -> (result: Result<Vec<Geometry<P>>, Error>)
    requires
        forall|p: P| call_requires(*f, (p,)),
    ensures
        contained ==> (result matches Ok(mapped) && layer_maps(answers(*f), geometries@, mapped@)),
        !contained ==> result == Err::<Vec<Geometry<P>>, Error>(Error::GeometriesNotInBBox),
{
    if !contained {
        return Err(Error::GeometriesNotInBBox);
    }
    let mut mapped: Vec<Geometry<P>> = Vec::with_capacity(geometries.len());
    let mut k: usize = 0;
    while k < geometries.len()
        invariant
            k <= geometries@.len(),
            forall|p: P| call_requires(*f, (p,)),
            layer_maps(answers(*f), geometries@.take(k as int), mapped@),
        decreases geometries@.len() - k,
    {
        mapped.push(interpolate_geom(&geometries[k], f));
        k += 1;
    }
    assert(geometries@.take(geometries@.len() as int) =~= geometries@);
    Ok(mapped)
}

/// Appends the points of `ring` to `out`.
fn push_ring<P: Copy>(out: &mut Vec<P>, ring: &Vec<P>)
    ensures
        final(out)@ == old(out)@ + ring@,
{
    let mut k: usize = 0;
    while k < ring.len()
        invariant
            k <= ring@.len(),
            out@ == old(out)@ + ring@.take(k as int),
        decreases ring@.len() - k,
    {
        out.push(ring[k]);
        assert(ring@.take(k + 1) =~= ring@.take(k as int).push(ring@[k as int]));
        k += 1;
    }
    assert(ring@.take(ring@.len() as int) =~= ring@);
}

/// Appends the vertices that bound `geom` to `out`.
fn push_bounding_points<P: Copy>(out: &mut Vec<P>, geom: &Geometry<P>)
    ensures
        final(out)@ == old(out)@ + bounding_points(*geom),
    decreases geom,
{
    match geom {
        Geometry::Point(p) => {
            out.push(*p);
            assert(out@ =~= old(out)@ + seq![*p]);
        },
        Geometry::Line(a, b) => {
            out.push(*a);
            out.push(*b);
            assert(out@ =~= old(out)@ + seq![*a, *b]);
        },
        Geometry::LineString(v) => {
            push_ring(out, v);
        },
        Geometry::Polygon(p) => {
            push_ring(out, &p.exterior);
        },
        Geometry::MultiPoint(v) => {
            push_ring(out, v);
        },
        Geometry::MultiLineString(v) => {
            let mut k: usize = 0;
            while k < v.len()
                invariant
                    k <= v@.len(),
                    out@ == old(out)@ + rings_points(v@, k as nat),
                decreases v@.len() - k,
            {
                push_ring(out, &v[k]);
                assert(out@ =~= old(out)@ + rings_points(v@, (k + 1) as nat));
                k += 1;
            }
        },
        Geometry::MultiPolygon(v) => {
            let mut k: usize = 0;
            while k < v.len()
                invariant
                    k <= v@.len(),
                    out@ == old(out)@ + exterior_points(v@, k as nat),
                decreases v@.len() - k,
            {
                push_ring(out, &v[k].exterior);
                assert(out@ =~= old(out)@ + exterior_points(v@, (k + 1) as nat));
                k += 1;
            }
        },
        Geometry::GeometryCollection(v) => {
            let mut k: usize = 0;
            while k < v.len()
                invariant
                    k <= v@.len(),
                    *geom is GeometryCollection,
                    geom->GeometryCollection_0 == *v,
                    out@ == old(out)@ + members_bounding_points(v@, k as nat),
                decreases v@.len() - k,
            {
                assert(decreases_to!(*geom => geom->GeometryCollection_0));
                push_bounding_points(out, &v[k]);
                assert(out@ =~= old(out)@ + members_bounding_points(v@, (k + 1) as nat));
                k += 1;
            }
        },
        Geometry::Rect(a, b) => {
            out.push(*a);
            out.push(*b);
            assert(out@ =~= old(out)@ + seq![*a, *b]);
        },
        Geometry::Triangle(a, b, c) => {
            out.push(*a);
            out.push(*b);
            out.push(*c);
            assert(out@ =~= old(out)@ + seq![*a, *b, *c]);
        },
    }
}

/// The vertices that bound a layer, in the order in which its geometries
/// list them: the bounding box of the layer is the smallest box that holds
/// them all.
pub fn bounding_vertices<P: Copy>(geometries: &[Geometry<P>]) -> (vertices: Vec<P>)
    ensures
        vertices@ == layer_bounding_points(geometries@),
{
    let mut vertices: Vec<P> = Vec::new();
    let mut k: usize = 0;
    while k < geometries.len()
        invariant
            k <= geometries@.len(),
            vertices@ == members_bounding_points(geometries@, k as nat),
        decreases geometries@.len() - k,
    {
        push_bounding_points(&mut vertices, &geometries[k]);
        k += 1;
    }
    vertices
}

} // verus!
