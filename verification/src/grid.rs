use vstd::prelude::*;
use crate::determinism::lemma_interpolated_unique;
use crate::determinism::relaxes_alike;
use crate::determinism::settles_alike;
use crate::determinism::solves_alike;
use crate::errors::Error;
use crate::geometry::answers;
use crate::geometry::interpolate_layer;
use crate::geometry::layer_maps;
use crate::geometry::lemma_layer_maps_weaken;
use crate::geometry::Geometry;
use crate::geometry::Polygon;
use crate::lattice::corner_count;
use crate::lattice::is_corner;
use crate::lattice::lemma_corner_count_positive;
use crate::lattice::lemma_corner_count_le_len;
use crate::lattice::lemma_place_row_column;
use crate::lattice::lemma_row_major_index;
use crate::lattice::Lattice;
use crate::node::Corner;
use crate::node::Node;
use crate::node::NodeSet;
use crate::node::Smoothing;

verus! {

/// Which of the two positions of each node a drawing of the lattice shows.
#[derive(Debug, Clone, Copy, PartialEq, Eq, PartialOrd, Ord, Structural)]
pub enum GridType {
    /// The lattice as it was laid over the source points.
    Source,
    /// The lattice as the fit to the image points has deformed it.
    Interpolated,
}

impl GridType {
    /// The position of `node` that a drawing of this type shows.
    pub open spec fn spec_position<P>(self, node: Node<P>) -> P {
        match self {
            GridType::Source => node.source,
            GridType::Interpolated => node.interp,
        }
    }

    /// The position of `node` that a drawing of this type shows.
    pub fn position<P: Copy>(&self, node: &Node<P>) -> (position: P)
        ensures
            position == self.spec_position(*node),
    {
        match self {
            GridType::Source => node.source,
            GridType::Interpolated => node.interp,
        }
    }
}

/// A finite difference of the interpolated positions along one direction of
/// the lattice: the position `to` minus the position `from`, which lie
/// `steps` cells apart.
#[derive(Debug, Clone, Copy)]
pub struct Difference<P> {
    pub from: P,
    pub to: P,
    pub steps: u8,
}

/// The two finite differences that measure how the lattice is deformed at a node.
#[derive(Debug, Clone, Copy)]
pub struct Differences<P> {
    /// Along the row of the node, from west to east.
    pub eastward: Difference<P>,
    /// Along the column of the node, from south to north.
    pub northward: Difference<P>,
}

impl<P> Lattice<P> {
    /// The ring of the cell whose top left corner is at row `i` and column
    /// `j`: top left, bottom left, bottom right, top right.
    pub open spec fn cell_ring(self, i: int, j: int, grid_type: GridType) -> Seq<P> {
        seq![
            grid_type.spec_position(self.node_at(i, j)),
            grid_type.spec_position(self.node_at(i + 1, j)),
            grid_type.spec_position(self.node_at(i + 1, j + 1)),
            grid_type.spec_position(self.node_at(i, j + 1)),
        ]
    }

    /// The finite differences at row `i` and column `j`. Away from the rim
    /// each is taken between the two neighbours of the node, two cells
    /// apart; on the rim it is taken between the node and the one neighbour
    /// that it has in that direction.
    pub open spec fn differences_at(self, i: int, j: int) -> Differences<P> {
        let here = self.node_at(i, j).interp;
        Differences {
            eastward: if j == 0 {
                Difference { from: here, to: self.node_at(i, j + 1).interp, steps: 1 }
            } else if j == self.width - 1 {
                Difference { from: self.node_at(i, j - 1).interp, to: here, steps: 1 }
            } else {
                Difference {
                    from: self.node_at(i, j - 1).interp,
                    to: self.node_at(i, j + 1).interp,
                    steps: 2,
                }
            },
            northward: if i == 0 {
                Difference { from: self.node_at(i + 1, j).interp, to: here, steps: 1 }
            } else if i == self.height - 1 {
                Difference { from: here, to: self.node_at(i - 1, j).interp, steps: 1 }
            } else {
                Difference {
                    from: self.node_at(i + 1, j).interp,
                    to: self.node_at(i - 1, j).interp,
                    steps: 2,
                }
            },
        }
    }
}

/// Whether a grid can be fitted to `source_len` source points and
/// `image_len` image points: there must be as many of the one as of the
/// other, and at least one.
pub fn check_input_points(source_len: usize, image_len: usize) -> (result: Result<(), Error>)
    ensures
        source_len == image_len && source_len > 0 ==> result == Ok::<(), Error>(()),
        source_len != image_len || source_len == 0 ==> result == Err::<(), Error>(
            Error::InvalidInputPointsLength,
        ),
{
    if source_len != image_len || source_len == 0 {
        Err(Error::InvalidInputPointsLength)
    } else {
        Ok(())
    }
}

/// The width and the height, in nodes, of the lattice for a zone that spans
/// `cells_x` cells from west to east and `cells_y` cells from north to
/// south, both rounded up: two more than the spans, so that a point on the
/// east or south edge of the zone still has a cell of its own. `None` if
/// that many nodes cannot be counted.
pub fn lattice_dimensions(cells_x: usize, cells_y: usize) -> (dimensions: Option<(usize, usize)>)
    ensures
        (cells_x + 2) * (cells_y + 2) <= usize::MAX ==> dimensions == Some(
            ((cells_x + 2) as usize, (cells_y + 2) as usize),
        ),
        (cells_x + 2) * (cells_y + 2) > usize::MAX ==> dimensions.is_none(),
{
    let width = match cells_x.checked_add(2) {
        Some(width) => width,
        None => {
            assert((cells_x + 2) * (cells_y + 2) > usize::MAX) by (nonlinear_arith)
                requires
                    cells_x + 2 > usize::MAX,
                    cells_y >= 0,
            ;
            return None;
        },
    };
    let height = match cells_y.checked_add(2) {
        Some(height) => height,
        None => {
            assert((cells_x + 2) * (cells_y + 2) > usize::MAX) by (nonlinear_arith)
                requires
                    cells_y + 2 > usize::MAX,
                    cells_x >= 0,
            ;
            return None;
        },
    };
    match width.checked_mul(height) {
        Some(_) => Some((width, height)),
        None => None,
    }
}

impl<P: Copy> NodeSet<P> {
    /// The width and the height of the lattice, in nodes.
    pub fn grid_dimensions(&self) -> (dimensions: (usize, usize))
        ensures
            dimensions.0 == self@.width,
            dimensions.1 == self@.height,
    {
        (self.width(), self.height())
    }

    /// The cells of the lattice as polygons without holes, row by row and
    /// each row from the left. The ring of a cell lists its corners once:
    /// top left, bottom left, bottom right, top right.
    pub fn get_grid(&self, grid_type: GridType) -> (cells: Vec<Polygon<P>>)
        requires
            self@.wf(),
        ensures
            cells@.len() == (self@.width - 1) * (self@.height - 1),
            forall|i: int, j: int|
                0 <= i < self@.height - 1 && 0 <= j < self@.width - 1 ==> {
                    let cell = #[trigger] cells@[i * (self@.width - 1) + j];
                    &&& cell.exterior@ == self@.cell_ring(i, j, grid_type)
                    &&& cell.interiors@.len() == 0
                },
    {
        let width = self.width();
        let height = self.height();
        let mut cells: Vec<Polygon<P>> = Vec::new();
        let mut i: usize = 0;
        while i < height - 1
            invariant
                self@.wf(),
                width == self@.width,
                height == self@.height,
                i <= height - 1,
                cells@.len() == i * (width - 1),
                forall|a: int, b: int|
                    0 <= a < i && 0 <= b < width - 1 ==> {
                        let cell = #[trigger] cells@[a * (width - 1) + b];
                        &&& cell.exterior@ == self@.cell_ring(a, b, grid_type)
                        &&& cell.interiors@.len() == 0
                    },
            decreases height - 1 - i,
        {
            let mut j: usize = 0;
            while j < width - 1
                invariant
                    self@.wf(),
                    width == self@.width,
                    height == self@.height,
                    i < height - 1,
                    j <= width - 1,
                    cells@.len() == i * (width - 1) + j,
                    forall|a: int, b: int|
                        (0 <= a < i && 0 <= b < width - 1) || (a == i && 0 <= b < j) ==> {
                            let cell = #[trigger] cells@[a * (width - 1) + b];
                            &&& cell.exterior@ == self@.cell_ring(a, b, grid_type)
                            &&& cell.interiors@.len() == 0
                        },
                decreases width - 1 - j,
            {
                let mut ring: Vec<P> = Vec::with_capacity(4);
                ring.push(grid_type.position(self.get_node(i, j)));
                ring.push(grid_type.position(self.get_node(i + 1, j)));
                ring.push(grid_type.position(self.get_node(i + 1, j + 1)));
                ring.push(grid_type.position(self.get_node(i, j + 1)));
                assert(ring@ =~= self@.cell_ring(i as int, j as int, grid_type));
                let ghost before = cells@;
                cells.push(Polygon { exterior: ring, interiors: Vec::new() });
                assert forall|a: int, b: int|
                    (0 <= a < i && 0 <= b < width - 1) || (a == i && 0 <= b < j + 1) implies {
                    let cell = #[trigger] cells@[a * (width - 1) + b];
                    &&& cell.exterior@ == self@.cell_ring(a, b, grid_type)
                    &&& cell.interiors@.len() == 0
                } by {
                    if a == i && b == j {
                    } else {
                        lemma_row_major_index(a, b, width - 1, i + 1);
                        assert(a * (width - 1) + b < i * (width - 1) + j) by (nonlinear_arith)
                            requires
                                (0 <= a < i && 0 <= b < width - 1) || (a == i && 0 <= b < j),
                                j < width - 1,
                        ;
                        assert(cells@[a * (width - 1) + b] == before[a * (width - 1) + b]);
                    }
                }
                j += 1;
            }
            assert(i * (width - 1) + (width - 1) == (i + 1) * (width - 1)) by (nonlinear_arith);
            i += 1;
        }
        assert((height - 1) * (width - 1) == (width - 1) * (height - 1)) by (nonlinear_arith);
        cells
    }

    /// The finite differences of the interpolated positions at row `i` and
    /// column `j`.
    pub fn get_diff(&self, i: usize, j: usize) -> (differences: Differences<P>)
        requires
            self@.wf(),
            self@.in_grid(i as int, j as int),
        ensures
            differences == self@.differences_at(i as int, j as int),
    {
        let here = self.get_node(i, j).interp;
        let eastward = if j == 0 {
            Difference { from: here, to: self.get_node(i, j + 1).interp, steps: 1 }
        } else if j == self.width() - 1 {
            Difference { from: self.get_node(i, j - 1).interp, to: here, steps: 1 }
        } else {
            Difference {
                from: self.get_node(i, j - 1).interp,
                to: self.get_node(i, j + 1).interp,
                steps: 2,
            }
        };
        let northward = if i == 0 {
            Difference { from: self.get_node(i + 1, j).interp, to: here, steps: 1 }
        } else if i == self.height() - 1 {
            Difference { from: here, to: self.get_node(i - 1, j).interp, steps: 1 }
        } else {
            Difference {
                from: self.get_node(i + 1, j).interp,
                to: self.get_node(i - 1, j).interp,
                steps: 2,
            }
        };
        Differences { eastward, northward }
    }

    /// The finite differences at every node, row by row and each row from
    /// the left.
    pub fn get_diffs(&self) -> (differences: Vec<Differences<P>>)
        requires
            self@.wf(),
        ensures
            differences@.len() == self@.width * self@.height,
            forall|i: int, j: int|
                self@.in_grid(i, j) ==> #[trigger] differences@[i * self@.width + j]
                    == self@.differences_at(i, j),
    {
        let width = self.width();
        let height = self.height();
        let mut differences: Vec<Differences<P>> = Vec::with_capacity(self.len());
        let mut i: usize = 0;
        while i < height
            invariant
                self@.wf(),
                width == self@.width,
                height == self@.height,
                i <= height,
                differences@.len() == i * width,
                forall|a: int, b: int|
                    0 <= a < i && 0 <= b < width ==> #[trigger] differences@[a * width + b]
                        == self@.differences_at(a, b),
            decreases height - i,
        {
            let mut j: usize = 0;
            while j < width
                invariant
                    self@.wf(),
                    width == self@.width,
                    height == self@.height,
                    i < height,
                    j <= width,
                    differences@.len() == i * width + j,
                    forall|a: int, b: int|
                        (0 <= a < i && 0 <= b < width) || (a == i && 0 <= b < j)
                            ==> #[trigger] differences@[a * width + b] == self@.differences_at(
                            a,
                            b,
                        ),
                decreases width - j,
            {
                let ghost before = differences@;
                differences.push(self.get_diff(i, j));
                assert forall|a: int, b: int|
                    (0 <= a < i && 0 <= b < width) || (a == i && 0 <= b < j + 1) implies
                    #[trigger] differences@[a * width + b] == self@.differences_at(a, b) by {
                    if a == i && b == j {
                    } else {
                        lemma_row_major_index(a, b, width as int, i + 1);
                        assert(a * width + b < i * width + j) by (nonlinear_arith)
                            requires
                                (0 <= a < i && 0 <= b < width) || (a == i && 0 <= b < j),
                                j < width,
                        ;
                        assert(differences@[a * width + b] == before[a * width + b]);
                    }
                }
                j += 1;
            }
            assert(i * width + width == (i + 1) * width) by (nonlinear_arith);
            i += 1;
        }
        assert(height * width == width * height) by (nonlinear_arith);
        differences
    }
}

impl<P> Lattice<P> {
    /// `blend`, asked about `point` in the cell at row `row` and column
    /// `col`, may answer `answer`. `blend` is given the point and the four
    /// corners of the cell: top left, top right, bottom left, bottom right.
    pub open spec fn blended<B: Fn(P, Node<P>, Node<P>, Node<P>, Node<P>) -> P>(
        self,
        blend: B,
        point: P,
        row: int,
        col: int,
        answer: P,
    ) -> bool {
        call_ensures(
            blend,
            (
                point,
                self.node_at(row, col),
                self.node_at(row, col + 1),
                self.node_at(row + 1, col),
                self.node_at(row + 1, col + 1),
            ),
            answer,
        )
    }

    /// The interpolation on the lattice as a relation between a point and
    /// what it may be interpolated to.
    pub open spec fn interpolation<
        L: Fn(P) -> Option<(usize, usize)>,
        B: Fn(P, Node<P>, Node<P>, Node<P>, Node<P>) -> P,
    >(self, locate: L, blend: B) -> spec_fn(P, P) -> bool {
        |point: P, answer: P| self.interpolates(locate, blend, point, answer)
    }

    /// `answer` may be the interpolation of `point`: `locate` finds a cell
    /// for the point, and `blend` answers for the point in that cell.
    pub open spec fn interpolates<
        L: Fn(P) -> Option<(usize, usize)>,
        B: Fn(P, Node<P>, Node<P>, Node<P>, Node<P>) -> P,
    >(self, locate: L, blend: B, point: P, answer: P) -> bool {
        exists|cell: (usize, usize)|
            #[trigger] call_ensures(locate, (point,), Some(cell)) && self.blended(
                blend,
                point,
                cell.0 as int,
                cell.1 as int,
                answer,
            )
    }
}

/// A point has one interpolation only, if `locate` and `blend` answer alike
/// whenever they are asked alike. So what a grid keeps as the interpolation
/// of a source point is what interpolating that point again gives.
pub proof fn lemma_interpolation_unique<
    P,
    L: Fn(P) -> Option<(usize, usize)>,
    B: Fn(P, Node<P>, Node<P>, Node<P>, Node<P>) -> P,
>(lattice: Lattice<P>, locate: L, blend: B, point: P, first: P, second: P)
    requires
        lattice.interpolates(locate, blend, point, first),
        lattice.interpolates(locate, blend, point, second),
        forall|p: P, c1: Option<(usize, usize)>, c2: Option<(usize, usize)>|
            call_ensures(locate, (p,), c1) && call_ensures(locate, (p,), c2) ==> c1 == c2,
        forall|p: P, a: Node<P>, b: Node<P>, c: Node<P>, d: Node<P>, q1: P, q2: P|
            call_ensures(blend, (p, a, b, c, d), q1) && call_ensures(blend, (p, a, b, c, d), q2)
                ==> q1 == q2,
    ensures
        first == second,
{
    let cell1 = choose|cell: (usize, usize)|
        #[trigger] call_ensures(locate, (point,), Some(cell)) && lattice.blended(
            blend,
            point,
            cell.0 as int,
            cell.1 as int,
            first,
        );
    let cell2 = choose|cell: (usize, usize)|
        #[trigger] call_ensures(locate, (point,), Some(cell)) && lattice.blended(
            blend,
            point,
            cell.0 as int,
            cell.1 as int,
            second,
        );
    assert(Some(cell1) == Some(cell2));
}

/// The interpolation grid: a lattice fitted to pairs of homologous points,
/// with the interpolation of every source point. A grid is made in one
/// piece and does not change afterwards.
pub struct Grid<P> {
    nodes: NodeSet<P>,
    cells: Vec<(usize, usize)>,
    interpolated_points: Vec<P>,
}

impl<P: Copy> Grid<P> {
    /// The lattice of the grid.
    pub closed spec fn lattice(&self) -> Lattice<P> {
        self.nodes@
    }

    /// For each source point, the cell that holds it, by the row and the
    /// column of its top left corner.
    pub closed spec fn cells(&self) -> Seq<(usize, usize)> {
        self.cells@
    }

    /// The interpolation of each source point.
    pub closed spec fn spec_interpolated_points(&self) -> Seq<P> {
        self.interpolated_points@
    }

    /// The lattice is well formed and holds the cell of every source point,
    /// and there is one interpolated point for each source point.
    pub open spec fn wf(&self) -> bool {
        &&& self.lattice().wf()
        &&& self.spec_interpolated_points().len() == self.cells().len()
        &&& forall|k: int|
            0 <= k < self.cells().len() ==> self.lattice().has_cell(
                (#[trigger] self.cells()[k]).0 as int,
                self.cells()[k].1 as int,
            )
    }

    /// The grid is what fitting a lattice of `width` by `height` nodes to the
    /// source points and their image points in `n_iter` passes makes:
    ///
    /// - every node records its row and its column, lies in the source plane
    ///   where `source_at` says, and carries as weight the number of source
    ///   points that lie in a cell of which it is a corner;
    /// - the cell of every source point is the one that `locate` names;
    /// - the lattice is what the passes of the fit make of the lattice in
    ///   which no node has moved;
    /// - the interpolation of every source point is what `blend` answers for
    ///   the point and the four corners of its cell, and so what
    ///   interpolating the point on the grid may give.
    pub open spec fn built_by<
        F: Fn(usize, usize) -> P,
        L: Fn(P) -> Option<(usize, usize)>,
        S: Fn(P, P, Corner<P>, Corner<P>, Corner<P>, Corner<P>) -> (P, P, P, P),
        R: Fn(Node<P>, Smoothing<P>) -> P,
        C: Fn(usize) -> bool,
        B: Fn(P, Node<P>, Node<P>, Node<P>, Node<P>) -> P,
    >(
        &self,
        source: Seq<P>,
        image: Seq<P>,
        n_iter: nat,
        width: nat,
        height: nat,
        source_at: F,
        locate: L,
        solve: S,
        relax: R,
        settled: C,
        blend: B,
    ) -> bool {
        let lattice = self.lattice();
        &&& lattice.indexed()
        &&& lattice.width == width
        &&& lattice.height == height
        &&& self.cells().len() == source.len()
        &&& forall|i: usize, j: usize|
            i < height && j < width ==> {
                let node = #[trigger] lattice.node_at(i as int, j as int);
                &&& call_ensures(source_at, (i, j), node.source)
                &&& node.weight == corner_count(self.cells(), i as int, j as int)
            }
        &&& forall|k: int|
            0 <= k < source.len() ==> call_ensures(
                locate,
                (source[k],),
                Some(#[trigger] self.cells()[k]),
            )
        &&& lattice.unmoved().interpolated_by(
            solve,
            relax,
            settled,
            source,
            image,
            self.cells(),
            n_iter,
            lattice,
        )
        &&& forall|k: int|
            0 <= k < source.len() ==> lattice.blended(
                blend,
                source[k],
                self.cells()[k].0 as int,
                self.cells()[k].1 as int,
                #[trigger] self.spec_interpolated_points()[k],
            )
        &&& forall|k: int|
            0 <= k < source.len() ==> lattice.interpolates(
                locate,
                blend,
                source[k],
                #[trigger] self.spec_interpolated_points()[k],
            )
    }

    /// Two grids made of the same points in the same way are the same: they
    /// have the same lattice, node for node, and keep the same interpolation
    /// of every source point, if the functions that they are made with answer
    /// alike whenever they are asked alike.
    pub proof fn lemma_built_unique<
        F: Fn(usize, usize) -> P,
        L: Fn(P) -> Option<(usize, usize)>,
        S: Fn(P, P, Corner<P>, Corner<P>, Corner<P>, Corner<P>) -> (P, P, P, P),
        R: Fn(Node<P>, Smoothing<P>) -> P,
        C: Fn(usize) -> bool,
        B: Fn(P, Node<P>, Node<P>, Node<P>, Node<P>) -> P,
    >(
        first: Grid<P>,
        second: Grid<P>,
        source: Seq<P>,
        image: Seq<P>,
        n_iter: nat,
        width: nat,
        height: nat,
        source_at: F,
        locate: L,
        solve: S,
        relax: R,
        settled: C,
        blend: B,
    )
        requires
            first.wf(),
            second.wf(),
            first.built_by(
                source,
                image,
                n_iter,
                width,
                height,
                source_at,
                locate,
                solve,
                relax,
                settled,
                blend,
            ),
            second.built_by(
                source,
                image,
                n_iter,
                width,
                height,
                source_at,
                locate,
                solve,
                relax,
                settled,
                blend,
            ),
            forall|i: usize, j: usize, p: P, q: P|
                call_ensures(source_at, (i, j), p) && call_ensures(source_at, (i, j), q) ==> p
                    == q,
            forall|p: P, c1: Option<(usize, usize)>, c2: Option<(usize, usize)>|
                call_ensures(locate, (p,), c1) && call_ensures(locate, (p,), c2) ==> c1 == c2,
            solves_alike(solve),
            relaxes_alike(relax),
            settles_alike(settled),
            forall|p: P, a: Node<P>, b: Node<P>, c: Node<P>, d: Node<P>, q1: P, q2: P|
                call_ensures(blend, (p, a, b, c, d), q1) && call_ensures(blend, (p, a, b, c, d), q2)
                    ==> q1 == q2,
        ensures
            first.lattice() == second.lattice(),
            first.cells() == second.cells(),
            first.spec_interpolated_points() == second.spec_interpolated_points(),
    {
        let (l1, l2) = (first.lattice(), second.lattice());
        // The same cells.
        assert forall|k: int| 0 <= k < source.len() implies first.cells()[k] == second.cells()[k] by {
            assert(call_ensures(locate, (source[k],), Some(first.cells()[k])));
            assert(call_ensures(locate, (source[k],), Some(second.cells()[k])));
            assert(Some(first.cells()[k]) == Some(second.cells()[k]));
        }
        assert(first.cells() =~= second.cells());
        // The same lattice before any node has moved.
        assert forall|k: int| 0 <= k < l1.nodes.len() implies l1.unmoved().nodes[k]
            == l2.unmoved().nodes[k] by {
            lemma_place_row_column(k, width as int, height as int);
            let (i, j) = (k / (width as int), k % (width as int));
            let (n1, n2) = (l1.node_at(i as usize as int, j as usize as int), l2.node_at(
                i as usize as int,
                j as usize as int,
            ));
            assert(n1.source == n2.source);
            assert(n1.weight == n2.weight);
            assert(l1.in_grid(i, j) && l2.in_grid(i, j));
            assert(l1.node_at(i, j).i == l2.node_at(i, j).i);
        }
        assert(l1.unmoved().nodes =~= l2.unmoved().nodes);
        assert(l1.unmoved() == l2.unmoved());
        // The same lattice after the fit.
        lemma_interpolated_unique(
            l1.unmoved(),
            solve,
            relax,
            settled,
            source,
            image,
            first.cells(),
            n_iter,
            l1,
            l2,
        );
        // The same interpolation of every source point.
        assert forall|k: int| 0 <= k < source.len() implies first.spec_interpolated_points()[k]
            == second.spec_interpolated_points()[k] by {
            assert(l1.blended(
                blend,
                source[k],
                first.cells()[k].0 as int,
                first.cells()[k].1 as int,
                first.spec_interpolated_points()[k],
            ));
            assert(l2.blended(
                blend,
                source[k],
                second.cells()[k].0 as int,
                second.cells()[k].1 as int,
                second.spec_interpolated_points()[k],
            ));
        }
        assert(first.spec_interpolated_points() =~= second.spec_interpolated_points());
    }

    /// A grid fitted to the source points and their image points in
    /// `n_iter` passes, unless the two differ in number or there are none.
    ///
    /// The lattice has `width` by `height` nodes, the node at row `i` and
    /// column `j` placed where `source_at(i, j)` says. `locate` names the
    /// cell that holds a point, by the row and the column of its top left
    /// corner. Every cell that holds a source point is counted at its four
    /// corners; then the lattice is fitted as [`NodeSet::interpolate`] says,
    /// with `solve`, `relax` and `settled`; then each source point is
    /// interpolated by `blend`, which is given the point and the four
    /// corners of its cell.
    pub fn new<
        F: Fn(usize, usize) -> P,
        L: Fn(P) -> Option<(usize, usize)>,
        S: Fn(P, P, Corner<P>, Corner<P>, Corner<P>, Corner<P>) -> (P, P, P, P),
        R: Fn(Node<P>, Smoothing<P>) -> P,
        C: Fn(usize) -> bool,
        B: Fn(P, Node<P>, Node<P>, Node<P>, Node<P>) -> P,
    >(
        source_points: &[P],
        image_points: &[P],
        n_iter: usize,
        width: usize,
        height: usize,
        source_at: F,
        locate: &L,
        solve: &S,
        relax: &R,
        settled: &C,
        blend: &B,
    ) -> (result: Result<Grid<P>, Error>)
        requires
            width >= 2,
            height >= 2,
            width * height <= usize::MAX,
            forall|i: usize, j: usize| i < height && j < width ==> call_requires(source_at, (i, j)),
            forall|k: int|
                0 <= k < source_points@.len() ==> call_requires(
                    *locate,
                    (#[trigger] source_points@[k],),
                ),
            forall|k: int, cell: (usize, usize)|
                0 <= k < source_points@.len() && #[trigger] call_ensures(
                    *locate,
                    (source_points@[k],),
                    Some(cell),
                ) ==> cell.0 + 1 < height && cell.1 + 1 < width,
            forall|k: int|
                0 <= k < source_points@.len() ==> !call_ensures(
                    *locate,
                    (#[trigger] source_points@[k],),
                    None::<(usize, usize)>,
                ),
            forall|p: P, q: P, a: Corner<P>, b: Corner<P>, c: Corner<P>, d: Corner<P>|
                a.node.weight >= 1 && b.node.weight >= 1 && c.node.weight >= 1 && d.node.weight
                    >= 1 ==> call_requires(*solve, (p, q, a, b, c, d)),
            forall|node: Node<P>, neighbours: Smoothing<P>|
                node.weight == 0 ==> call_requires(*relax, (node, neighbours)),
            forall|l: usize| call_requires(*settled, (l,)),
            forall|p: P, a: Node<P>, b: Node<P>, c: Node<P>, d: Node<P>|
                call_requires(*blend, (p, a, b, c, d)),
        ensures
            source_points@.len() != image_points@.len() || source_points@.len() == 0 ==> result
                == Err::<Grid<P>, Error>(Error::InvalidInputPointsLength),
            source_points@.len() == image_points@.len() && source_points@.len() > 0 ==> (
            result matches Ok(grid) && grid.wf() && grid.built_by(
                source_points@,
                image_points@,
                n_iter as nat,
                width as nat,
                height as nat,
                source_at,
                *locate,
                *solve,
                *relax,
                *settled,
                *blend,
            )),
    {
        match check_input_points(source_points.len(), image_points.len()) {
            Err(error) => {
                return Err(error);
            },
            Ok(()) => {},
        }
        let mut nodes = NodeSet::new(width, height, source_at);
        let ghost fresh = nodes@;

        let mut cells: Vec<(usize, usize)> = Vec::with_capacity(source_points.len());
        let mut k: usize = 0;
        while k < source_points.len()
            invariant
                k <= source_points@.len(),
                cells@.len() == k,
                forall|m: int|
                    0 <= m < source_points@.len() ==> call_requires(
                        *locate,
                        (#[trigger] source_points@[m],),
                    ),
                forall|m: int, cell: (usize, usize)|
                    0 <= m < source_points@.len() && #[trigger] call_ensures(
                        *locate,
                        (source_points@[m],),
                        Some(cell),
                    ) ==> cell.0 + 1 < height && cell.1 + 1 < width,
                forall|m: int|
                    0 <= m < cells@.len() ==> (#[trigger] cells@[m]).0 + 1 < height && cells@[m].1
                        + 1 < width,
                forall|m: int|
                    0 <= m < source_points@.len() ==> !call_ensures(
                        *locate,
                        (#[trigger] source_points@[m],),
                        None::<(usize, usize)>,
                    ),
                forall|m: int|
                    0 <= m < k ==> call_ensures(
                        *locate,
                        (source_points@[m],),
                        Some(#[trigger] cells@[m]),
                    ),
            decreases source_points@.len() - k,
        {
            match locate(source_points[k]) {
                Some(cell) => {
                    cells.push(cell);
                },
                None => {
                    assert(false);
                },
            }
            k += 1;
        }
        proof {
            assert forall|i: int, j: int| fresh.in_grid(i, j) implies (#[trigger] fresh.node_at(
                i,
                j,
            )).weight + cells@.len() <= u64::MAX by {
                assert(fresh.node_at(i as usize as int, j as usize as int).weight == 0);
            }
        }
        nodes.seed_weights(&cells);
        let ghost seeded = nodes@;
        proof {
            // No corner of the cell of a source point is free.
            assert forall|n: int| 0 <= n < cells@.len() implies seeded.has_cell(
                (#[trigger] cells@[n]).0 as int,
                cells@[n].1 as int,
            ) && seeded.cell_weighted(cells@[n].0 as int, cells@[n].1 as int) by {
                let (row, col) = (cells@[n].0 as int, cells@[n].1 as int);
                assert forall|i: int, j: int| is_corner(row, col, i, j) implies (
                #[trigger] seeded.node_at(i, j)).weight >= 1 by {
                    lemma_corner_count_positive(cells@, n, i, j);
                    lemma_corner_count_le_len(cells@, i, j);
                    assert(fresh.in_grid(i, j));
                    assert(fresh.node_at(i as usize as int, j as usize as int).weight == 0);
                }
                assert(is_corner(row, col, row, col));
                assert(is_corner(row, col, row, col + 1));
                assert(is_corner(row, col, row + 1, col));
                assert(is_corner(row, col, row + 1, col + 1));
            }
        }
        nodes.interpolate(source_points, image_points, &cells, n_iter, solve, relax, settled);
        proof {
            let lattice = nodes@;
            fresh.lemma_keeps_frame_indexed(seeded);
            seeded.lemma_keeps_frame_indexed(lattice);
            assert forall|i: usize, j: usize| i < height && j < width implies {
                let node = #[trigger] lattice.node_at(i as int, j as int);
                &&& call_ensures(source_at, (i, j), node.source)
                &&& node.weight == corner_count(cells@, i as int, j as int)
            } by {
                lemma_row_major_index(i as int, j as int, width as int, height as int);
                lemma_corner_count_le_len(cells@, i as int, j as int);
                assert(fresh.node_at(i as int, j as int).weight == 0);
                assert(seeded.node_at(i as int, j as int).weight == corner_count(
                    cells@,
                    i as int,
                    j as int,
                ));
            }
            assert(lattice.unmoved().nodes =~= seeded.nodes) by {
                assert forall|m: int| 0 <= m < seeded.nodes.len() implies seeded.nodes[m]
                    == lattice.unmoved().nodes[m] by {
                    lemma_place_row_column(m, width as int, height as int);
                    let (i, j) = (m / (width as int), m % (width as int));
                    assert(fresh.node_at(i as usize as int, j as usize as int).interp
                        == fresh.node_at(i, j).source);
                    assert(seeded.node_at(i, j) == seeded.nodes[m]);
                    assert(lattice.nodes[m].weight == seeded.nodes[m].weight);
                }
            }
            assert(lattice.unmoved() == seeded);
        }

        let mut interpolated_points: Vec<P> = Vec::with_capacity(source_points.len());
        let mut k: usize = 0;
        while k < source_points.len()
            invariant
                k <= source_points@.len(),
                cells@.len() == source_points@.len(),
                interpolated_points@.len() == k,
                nodes@.wf(),
                forall|m: int|
                    0 <= m < cells@.len() ==> nodes@.has_cell(
                        (#[trigger] cells@[m]).0 as int,
                        cells@[m].1 as int,
                    ),
                forall|p: P, a: Node<P>, b: Node<P>, c: Node<P>, d: Node<P>|
                    call_requires(*blend, (p, a, b, c, d)),
                forall|m: int|
                    0 <= m < k ==> nodes@.blended(
                        *blend,
                        source_points@[m],
                        cells@[m].0 as int,
                        cells@[m].1 as int,
                        #[trigger] interpolated_points@[m],
                    ),
            decreases source_points@.len() - k,
        {
            let (row, col) = cells[k];
            let corners = nodes.get_adjacent_nodes(row, col);
            let point = blend(source_points[k], corners[0], corners[1], corners[2], corners[3]);
            interpolated_points.push(point);
            k += 1;
        }
        Ok(Grid { nodes, cells, interpolated_points })
    }

    /// Interpolates `point` on the grid: `locate` names the cell that holds
    /// the point, and `blend` answers for the point and the four corners of
    /// that cell. A point for which `locate` finds no cell lies outside the
    /// bounding box of the grid and is refused.
    pub fn get_interp_point<
        L: Fn(P) -> Option<(usize, usize)>,
        B: Fn(P, Node<P>, Node<P>, Node<P>, Node<P>) -> P,
    >(&self, point: P, locate: &L, blend: &B) -> (result: Result<P, Error>)
        requires
            self.wf(),
            call_requires(*locate, (point,)),
            forall|cell: (usize, usize)| #[trigger]
                call_ensures(*locate, (point,), Some(cell)) ==> self.lattice().has_cell(
                    cell.0 as int,
                    cell.1 as int,
                ),
            forall|a: Node<P>, b: Node<P>, c: Node<P>, d: Node<P>|
                call_requires(*blend, (point, a, b, c, d)),
        ensures
            match result {
                Ok(answer) => self.lattice().interpolates(*locate, *blend, point, answer),
                Err(error) => error == Error::PointNotInBBox && call_ensures(
                    *locate,
                    (point,),
                    None::<(usize, usize)>,
                ),
            },
    {
        match locate(point) {
            None => Err(Error::PointNotInBBox),
            Some(cell) => {
                let corners = self.nodes.get_adjacent_nodes(cell.0, cell.1);
                Ok(blend(point, corners[0], corners[1], corners[2], corners[3]))
            },
        }
    }

    /// Interpolates every vertex of every geometry of a layer on the grid
    /// and keeps everything else, unless the layer reaches outside the grid:
    /// `contained` says whether the bounding box of the layer lies within
    /// that of the grid. `locate` names the cell that holds a vertex, and
    /// `blend` answers for the vertex and the four corners of that cell.
    pub fn interpolate_layer<
        L: Fn(P) -> Option<(usize, usize)>,
        B: Fn(P, Node<P>, Node<P>, Node<P>, Node<P>) -> P,
    >(&self, geometries: &[Geometry<P>], contained: bool, locate: &L, blend: &B) -> (result: Result<
        Vec<Geometry<P>>,
        Error,
    >)
        requires
            self.wf(),
            forall|p: P| call_requires(*locate, (p,)),
            forall|p: P| !call_ensures(*locate, (p,), None::<(usize, usize)>),
            forall|p: P, cell: (usize, usize)| #[trigger]
                call_ensures(*locate, (p,), Some(cell)) ==> self.lattice().has_cell(
                    cell.0 as int,
                    cell.1 as int,
                ),
            forall|p: P, a: Node<P>, b: Node<P>, c: Node<P>, d: Node<P>|
                call_requires(*blend, (p, a, b, c, d)),
        ensures
            contained ==> (result matches Ok(mapped) && layer_maps(
                self.lattice().interpolation(*locate, *blend),
                geometries@,
                mapped@,
            )),
            !contained ==> result == Err::<Vec<Geometry<P>>, Error>(Error::GeometriesNotInBBox),
    {
        let interpolate = |point: P| -> (answer: P)
            ensures
                self.lattice().interpolates(*locate, *blend, point, answer),
            {
                match locate(point) {
                    Some(cell) => {
                        let corners = self.nodes.get_adjacent_nodes(cell.0, cell.1);
                        blend(point, corners[0], corners[1], corners[2], corners[3])
                    },
                    None => {
                        proof {
                            assert(false);
                        }
                        point
                    },
                }
            };
        let result = interpolate_layer(geometries, contained, &interpolate);
        proof {
            if contained {
                lemma_layer_maps_weaken(
                    answers(interpolate),
                    self.lattice().interpolation(*locate, *blend),
                    geometries@,
                    result->Ok_0@,
                );
            }
        }
        result
    }

    /// The lattice of the grid.
    pub fn nodes(&self) -> (nodes: &NodeSet<P>)
        ensures
            nodes@ == self.lattice(),
    {
        &self.nodes
    }

    /// The interpolation of each source point, in the order of the source points.
    pub fn interpolated_points(&self) -> (points: &[P])
        ensures
            points@ == self.spec_interpolated_points(),
    {
        self.interpolated_points.as_slice()
    }

    /// The width and the height of the lattice, in nodes.
    pub fn grid_dimensions(&self) -> (dimensions: (usize, usize))
        ensures
            dimensions.0 == self.lattice().width,
            dimensions.1 == self.lattice().height,
    {
        self.nodes.grid_dimensions()
    }

    /// The cells of the lattice as polygons without holes, row by row and
    /// each row from the left. The ring of a cell lists its corners once:
    /// top left, bottom left, bottom right, top right.
    pub fn get_grid(&self, grid_type: GridType) -> (cells: Vec<Polygon<P>>)
        requires
            self.wf(),
        ensures
            cells@.len() == (self.lattice().width - 1) * (self.lattice().height - 1),
            forall|i: int, j: int|
                0 <= i < self.lattice().height - 1 && 0 <= j < self.lattice().width - 1 ==> {
                    let cell = #[trigger] cells@[i * (self.lattice().width - 1) + j];
                    &&& cell.exterior@ == self.lattice().cell_ring(i, j, grid_type)
                    &&& cell.interiors@.len() == 0
                },
    {
        self.nodes.get_grid(grid_type)
    }
}

} // verus!
