use vstd::prelude::*;
use vstd::arithmetic::div_mod::lemma_fundamental_div_mod_converse;
use crate::node::Corner;
use crate::node::Node;
use crate::node::Smoothing;

verus! {

/// Row `i`, column `j` of a lattice of `width` by `height` nodes has a place
/// of its own in the row-major order, and the place gives back the row and
/// the column.
pub proof fn lemma_row_major_index(i: int, j: int, width: int, height: int)
    requires
        0 <= i < height,
        0 <= j < width,
    ensures
        0 <= i * width + j < width * height,
        (i * width + j) / width == i,
        (i * width + j) % width == j,
{
    assert(i * width + width <= width * height) by (nonlinear_arith)
        requires
            0 <= i < height,
            0 < width,
    ;
    assert(0 <= i * width) by (nonlinear_arith)
        requires
            0 <= i,
            0 < width,
    ;
    lemma_fundamental_div_mod_converse(i * width + j, width, i, j);
}

/// Every place of the row-major order is that of one row and one column.
pub proof fn lemma_place_row_column(k: int, width: int, height: int)
    requires
        0 < width,
        0 <= k < width * height,
    ensures
        0 <= k / width < height,
        0 <= k % width < width,
        (k / width) * width + k % width == k,
{
    vstd::arithmetic::div_mod::lemma_fundamental_div_mod(k, width);
    vstd::arithmetic::div_mod::lemma_mod_bound(k, width);
    vstd::arithmetic::div_mod::lemma_div_pos_is_pos(k, width);
    let row = k / width;
    assert(width * row == row * width) by (nonlinear_arith);
    if row >= height {
        assert(row * width >= width * height) by (nonlinear_arith)
            requires
                row >= height,
                0 < width,
        ;
    }
}

/// Two different places of a lattice never share a place in the row-major order.
pub proof fn lemma_places_differ(i: int, j: int, a: int, b: int, width: int)
    requires
        0 <= i,
        0 <= a,
        0 <= j < width,
        0 <= b < width,
        i != a || j != b,
    ensures
        i * width + j != a * width + b,
{
    assert(0 <= i * width && 0 <= a * width) by (nonlinear_arith)
        requires
            0 <= i,
            0 <= a,
            0 < width,
    ;
    lemma_fundamental_div_mod_converse(i * width + j, width, i, j);
    lemma_fundamental_div_mod_converse(a * width + b, width, a, b);
}

/// The cell whose top left corner is the node at row `row` and column `col`
/// has the node at row `i` and column `j` as one of its four corners.
pub open spec fn is_corner(row: int, col: int, i: int, j: int) -> bool {
    (i == row || i == row + 1) && (j == col || j == col + 1)
}

/// Row and column of corner `k` of the cell at row `row` and column `col`,
/// the corners counted from the top left one along the top row and then
/// along the bottom row. Any `k` above 2 names the bottom right corner.
pub open spec fn adjacent_place(row: int, col: int, k: int) -> (int, int) {
    if k == 0 {
        (row, col)
    } else if k == 1 {
        (row, col + 1)
    } else if k == 2 {
        (row + 1, col)
    } else {
        (row + 1, col + 1)
    }
}

/// How many of `cells` have the node at row `i` and column `j` as a corner.
/// A cell is named by the row and the column of its top left corner.
pub open spec fn corner_count(cells: Seq<(usize, usize)>, i: int, j: int) -> nat
    decreases cells.len(),
{
    if cells.len() == 0 {
        0
    } else {
        corner_count(cells.drop_last(), i, j) + if is_corner(
            cells.last().0 as int,
            cells.last().1 as int,
            i,
            j,
        ) {
            1nat
        } else {
            0nat
        }
    }
}

/// No node is a corner of more cells than there are cells.
pub proof fn lemma_corner_count_le_len(cells: Seq<(usize, usize)>, i: int, j: int)
    ensures
        corner_count(cells, i, j) <= cells.len(),
    decreases cells.len(),
{
    if cells.len() > 0 {
        lemma_corner_count_le_len(cells.drop_last(), i, j);
    }
}

/// A node is counted at least once for each cell of `cells` that it is a
/// corner of. So once the cells of the source points are counted, no corner of
/// such a cell is free.
pub proof fn lemma_corner_count_positive(cells: Seq<(usize, usize)>, k: int, i: int, j: int)
    requires
        0 <= k < cells.len(),
        is_corner(cells[k].0 as int, cells[k].1 as int, i, j),
    ensures
        corner_count(cells, i, j) >= 1,
    decreases cells.len(),
{
    if k < cells.len() - 1 {
        lemma_corner_count_positive(cells.drop_last(), k, i, j);
    }
}

/// What a [`NodeSet`](crate::node::NodeSet) is to a specification: `height`
/// rows of `width` nodes each, listed row by row from the top, each row from
/// the left.
pub struct Lattice<P> {
    pub nodes: Seq<Node<P>>,
    pub width: nat,
    pub height: nat,
}

impl<P> Lattice<P> {
    /// The node at row `i` and column `j`.
    pub open spec fn node_at(self, i: int, j: int) -> Node<P> {
        self.nodes[i * self.width + j]
    }

    /// Row `i`, column `j` names a node of the lattice.
    pub open spec fn in_grid(self, i: int, j: int) -> bool {
        0 <= i < self.height && 0 <= j < self.width
    }

    /// The lattice has a cell whose top left corner is at row `row` and column `col`.
    pub open spec fn has_cell(self, row: int, col: int) -> bool {
        0 <= row && row + 1 < self.height && 0 <= col && col + 1 < self.width
    }

    /// The lattice has at least one cell and one node for each place, and
    /// its nodes can be counted.
    pub open spec fn wf(self) -> bool {
        &&& self.width >= 2
        &&& self.height >= 2
        &&& self.nodes.len() == self.width * self.height
        &&& self.nodes.len() <= usize::MAX
    }

    /// Every node records the row and the column at which it is listed.
    pub open spec fn indexed(self) -> bool {
        forall|i: int, j: int|
            self.in_grid(i, j) ==> (#[trigger] self.node_at(i, j)).i == i && self.node_at(
                i,
                j,
            ).j == j
    }

    /// `after` has the same size as `self`, and each of its nodes records
    /// the row, the column and the source position that the node of `self`
    /// at the same place records.
    pub open spec fn keeps_frame(self, after: Self) -> bool {
        &&& after.width == self.width
        &&& after.height == self.height
        &&& after.nodes.len() == self.nodes.len()
        &&& forall|k: int|
            0 <= k < self.nodes.len() ==> {
                &&& (#[trigger] after.nodes[k]).i == self.nodes[k].i
                &&& after.nodes[k].j == self.nodes[k].j
                &&& after.nodes[k].source == self.nodes[k].source
            }
    }

    /// Every node of `after` carries the weight that the node of `self` at
    /// the same place carries.
    pub open spec fn keeps_weights(self, after: Self) -> bool {
        &&& after.nodes.len() == self.nodes.len()
        &&& forall|k: int|
            0 <= k < self.nodes.len() ==> (#[trigger] after.nodes[k]).weight
                == self.nodes[k].weight
    }

    /// Each of the four corners of the cell at row `row` and column `col`
    /// carries weight.
    pub open spec fn cell_weighted(self, row: int, col: int) -> bool {
        &&& self.node_at(row, col).weight >= 1
        &&& self.node_at(row, col + 1).weight >= 1
        &&& self.node_at(row + 1, col).weight >= 1
        &&& self.node_at(row + 1, col + 1).weight >= 1
    }

    /// A cell whose corners carry weight still is one after a change that
    /// keeps the weights.
    pub proof fn lemma_keeps_weights_cell(self, after: Self, row: int, col: int)
        requires
            self.wf(),
            self.has_cell(row, col),
            self.cell_weighted(row, col),
            self.keeps_weights(after),
            after.width == self.width,
        ensures
            after.cell_weighted(row, col),
    {
        lemma_row_major_index(row, col, self.width as int, self.height as int);
        lemma_row_major_index(row, col + 1, self.width as int, self.height as int);
        lemma_row_major_index(row + 1, col, self.width as int, self.height as int);
        lemma_row_major_index(row + 1, col + 1, self.width as int, self.height as int);
    }

    /// The lattice before any node has moved: every node lies in the image
    /// plane where it lies in the source plane.
    pub open spec fn unmoved(self) -> Self {
        Lattice {
            nodes: Seq::new(
                self.nodes.len(),
                |k: int| Node { interp: self.nodes[k].source, ..self.nodes[k] },
            ),
            ..self
        }
    }

    /// The lattice with `node` in place of the node at row `i` and column `j`.
    pub open spec fn replace(self, i: int, j: int, node: Node<P>) -> Self {
        Lattice { nodes: self.nodes.update(i * self.width + j, node), ..self }
    }

    /// Replacing one node changes that node and no other.
    pub proof fn lemma_replace(self, i: int, j: int, node: Node<P>)
        requires
            self.wf(),
            self.in_grid(i, j),
        ensures
            self.replace(i, j, node).wf(),
            self.replace(i, j, node).node_at(i, j) == node,
            forall|a: int, b: int|
                self.in_grid(a, b) && (a != i || b != j) ==> #[trigger] self.replace(
                    i,
                    j,
                    node,
                ).node_at(a, b) == self.node_at(a, b),
    {
        let width = self.width as int;
        lemma_row_major_index(i, j, width, self.height as int);
        assert forall|a: int, b: int| self.in_grid(a, b) && (a != i || b != j) implies
            #[trigger] self.replace(i, j, node).node_at(a, b) == self.node_at(a, b) by {
            lemma_row_major_index(a, b, width, self.height as int);
            lemma_places_differ(i, j, a, b, width);
        }
    }

    /// A lattice in which every node records its place still is one after a
    /// change that keeps what the nodes record of their places.
    pub proof fn lemma_keeps_frame_indexed(self, after: Self)
        requires
            self.wf(),
            self.indexed(),
            self.keeps_frame(after),
        ensures
            after.wf(),
            after.indexed(),
            forall|i: int, j: int|
                self.in_grid(i, j) ==> (#[trigger] after.node_at(i, j)).source == self.node_at(
                    i,
                    j,
                ).source,
    {
        assert forall|i: int, j: int| after.in_grid(i, j) implies (#[trigger] after.node_at(
            i,
            j,
        )).i == i && after.node_at(i, j).j == j && after.node_at(i, j).source == self.node_at(
            i,
            j,
        ).source by {
            lemma_row_major_index(i, j, self.width as int, self.height as int);
            assert(self.node_at(i, j).i == i);
        }
    }

    /// The node at row `i` and column `j` has two more rows above and below
    /// it and two more columns on either side.
    pub open spec fn is_interior(self, i: int, j: int) -> bool {
        1 < i < self.height - 2 && 1 < j < self.width - 2
    }

    /// The neighbours that the node at row `i` and column `j` is smoothed with.
    pub open spec fn smoothing_at(self, i: int, j: int) -> Smoothing<P> {
        if self.is_interior(i, j) {
            Smoothing::Interior {
                north: self.node_at(i - 1, j).interp,
                south: self.node_at(i + 1, j).interp,
                west: self.node_at(i, j - 1).interp,
                east: self.node_at(i, j + 1).interp,
                north_west: self.node_at(i - 1, j - 1).interp,
                south_west: self.node_at(i + 1, j - 1).interp,
                south_east: self.node_at(i + 1, j + 1).interp,
                north_east: self.node_at(i - 1, j + 1).interp,
                north_north: self.node_at(i - 2, j).interp,
                south_south: self.node_at(i + 2, j).interp,
                west_west: self.node_at(i, j - 2).interp,
                east_east: self.node_at(i, j + 2).interp,
            }
        } else {
            Smoothing::Border {
                north: if i > 0 {
                    Some(self.node_at(i - 1, j).interp)
                } else {
                    None
                },
                west: if j > 0 {
                    Some(self.node_at(i, j - 1).interp)
                } else {
                    None
                },
                south: if i < self.height - 1 {
                    Some(self.node_at(i + 1, j).interp)
                } else {
                    None
                },
                east: if j < self.width - 1 {
                    Some(self.node_at(i, j + 1).interp)
                } else {
                    None
                },
            }
        }
    }

    /// Every node has at least two neighbours to be smoothed with, so the
    /// divisor of a smoothing is never zero.
    pub proof fn lemma_smoothing_divisor(self, i: int, j: int)
        requires
            self.wf(),
            self.in_grid(i, j),
        ensures
            2 <= self.smoothing_at(i, j).spec_divisor() <= 20,
            self.smoothing_at(i, j) is Border ==> self.smoothing_at(i, j).spec_divisor() <= 4,
    {
    }

    /// The node at row `i` and column `j` with its neighbours.
    pub open spec fn corner_at(self, i: int, j: int) -> Corner<P> {
        Corner { node: self.node_at(i, j), smoothing: self.smoothing_at(i, j) }
    }

    /// `after` is `self` but for the interpolated positions of the four
    /// corners of the cell at row `row` and column `col`.
    pub open spec fn moves_cell(self, after: Self, row: int, col: int) -> bool {
        &&& after.wf()
        &&& after.width == self.width
        &&& after.height == self.height
        &&& forall|i: int, j: int|
            self.in_grid(i, j) ==> #[trigger] after.node_at(i, j) == if is_corner(row, col, i, j) {
                Node { interp: after.node_at(i, j).interp, ..self.node_at(i, j) }
            } else {
                self.node_at(i, j)
            }
    }

    /// The lattice that the node at place `k` meets when its turn comes in
    /// the smoothing pass that leads from `self` to `after`: the nodes before
    /// it have taken their turn, the others have not.
    pub open spec fn at_turn(self, after: Self, k: int) -> Self {
        Lattice {
            nodes: Seq::new(
                self.nodes.len(),
                |m: int|
                    if m < k {
                        after.nodes[m]
                    } else {
                        self.nodes[m]
                    },
            ),
            ..self
        }
    }

    /// In the smoothing pass that leads from `self` to `after`, the node at
    /// place `k` has had its turn: a node that carries weight stays as it
    /// is; a free node changes its interpolated position only, to where
    /// `relax` sends it, given the node and its neighbours as they are when
    /// its turn comes.
    pub open spec fn turn_taken<F: Fn(Node<P>, Smoothing<P>) -> P>(
        self,
        relax: F,
        after: Self,
        k: int,
    ) -> bool {
        let node = self.nodes[k];
        let moved = after.nodes[k];
        let width = self.width as int;
        if node.weight != 0 {
            moved == node
        } else {
            &&& moved == (Node { interp: moved.interp, ..node })
            &&& call_ensures(
                relax,
                (node, self.at_turn(after, k).smoothing_at(k / width, k % width)),
                moved.interp,
            )
        }
    }

    /// `after` is `self` after one smoothing pass: the nodes have taken
    /// their turn one after the other in the order in which they are listed.
    pub open spec fn swept_by<F: Fn(Node<P>, Smoothing<P>) -> P>(
        self,
        relax: F,
        after: Self,
    ) -> bool {
        &&& after.width == self.width
        &&& after.height == self.height
        &&& after.nodes.len() == self.nodes.len()
        &&& forall|k: int|
            0 <= k < self.nodes.len() ==> #[trigger] self.turn_taken(relax, after, k)
    }
}

} // verus!
