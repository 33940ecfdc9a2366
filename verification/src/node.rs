use vstd::prelude::*;
use crate::lattice::adjacent_place;
use crate::lattice::corner_count;
use crate::lattice::is_corner;
use crate::lattice::lemma_corner_count_le_len;
use crate::lattice::lemma_row_major_index;
use crate::lattice::Lattice;

verus! {

/// A node of the lattice.
#[derive(Debug, Clone, Copy)]
pub struct Node<P> {
    /// The row of the node; rows are counted from the top edge downwards.
    pub i: usize,
    /// The column of the node; columns are counted from the left edge.
    pub j: usize,
    /// Where the node lies in the source plane. It never moves.
    pub source: P,
    /// Where the node lies in the image plane at present.
    pub interp: P,
    /// How many source points lie in a cell that has this node as a corner.
    /// A node of weight zero is free: only smoothing moves it.
    pub weight: u64,
}

impl<P: Copy> Node<P> {
    /// A free node at row `i` and column `j` that has not moved yet.
    pub fn new(i: usize, j: usize, source: P) -> (node: Node<P>)
        ensures
            node == (Node { i, j, source, interp: source, weight: 0 }),
    {
        Node { i, j, source, interp: source, weight: 0 }
    }
}

/// The neighbours that a node is smoothed with, each by its interpolated
/// position. North is the row above, west the column to the left.
#[derive(Debug, Clone, Copy)]
#[allow(inconsistent_fields)]
pub enum Smoothing<P> {
    /// A node that has two rows or columns of the lattice on every side: its
    /// four direct neighbours, its four diagonal neighbours, and the four
    /// nodes two steps away along its row and its column.
    Interior {
        north: P,
        south: P,
        west: P,
        east: P,
        north_west: P,
        south_west: P,
        south_east: P,
        north_east: P,
        north_north: P,
        south_south: P,
        west_west: P,
        east_east: P,
    },
    /// A node on the rim of the lattice or next to it: those of its four
    /// direct neighbours that exist. A side without a neighbour is `None`.
    Border { north: Option<P>, west: Option<P>, south: Option<P>, east: Option<P> },
}

impl<P> Smoothing<P> {
    /// What the weighted sum of the neighbours is divided by: 20 for an
    /// interior node, whose neighbours are weighted 8, -2 and -1, and the
    /// number of neighbours that exist for a border node.
    pub open spec fn spec_divisor(self) -> nat {
        match self {
            Smoothing::Interior { .. } => 20,
            Smoothing::Border { north, west, south, east } => (if north is Some {
                1nat
            } else {
                0nat
            }) + (if west is Some {
                1nat
            } else {
                0nat
            }) + (if south is Some {
                1nat
            } else {
                0nat
            }) + (if east is Some {
                1nat
            } else {
                0nat
            }),
        }
    }

    /// What the weighted sum of the neighbours is divided by.
    pub fn divisor(&self) -> (count: u8)
        ensures
            count == self.spec_divisor(),
    {
        match self {
            Smoothing::Interior { .. } => 20,
            Smoothing::Border { north, west, south, east } => {
                let mut count: u8 = 0;
                if north.is_some() {
                    count += 1;
                }
                if west.is_some() {
                    count += 1;
                }
                if south.is_some() {
                    count += 1;
                }
                if east.is_some() {
                    count += 1;
                }
                count
            },
        }
    }
}

/// A corner of a cell as the fit to a pair of points sees it: the node and
/// the neighbours that it is smoothed with.
#[derive(Debug, Clone, Copy)]
pub struct Corner<P> {
    pub node: Node<P>,
    pub smoothing: Smoothing<P>,
}

/// The lattice: `height` rows of `width` nodes each, stored row by row.
pub struct NodeSet<P> {
    nodes: Vec<Node<P>>,
    width: usize,
    height: usize,
}

impl<P: Copy> View for NodeSet<P> {
    type V = Lattice<P>;

    closed spec fn view(&self) -> Lattice<P> {
        Lattice { nodes: self.nodes@, width: self.width as nat, height: self.height as nat }
    }
}

impl<P: Copy> NodeSet<P> {
    /// A lattice of `width` by `height` free nodes. The node at row `i` and
    /// column `j` is placed where `source_at(i, j)` says.
    pub fn new<F: Fn(usize, usize) -> P>(width: usize, height: usize, source_at: F) -> (set: Self)
        requires
            width >= 2,
            height >= 2,
            width * height <= usize::MAX,
            forall|i: usize, j: usize| i < height && j < width ==> call_requires(source_at, (i, j)),
        ensures
            set@.wf(),
            set@.indexed(),
            set@.width == width,
            set@.height == height,
            forall|i: usize, j: usize|
                i < height && j < width ==> {
                    let node = #[trigger] set@.node_at(i as int, j as int);
                    &&& call_ensures(source_at, (i, j), node.source)
                    &&& node.interp == node.source
                    &&& node.weight == 0
                },
    {
        let mut nodes: Vec<Node<P>> = Vec::new();
        let mut i: usize = 0;
        while i < height
            invariant
                width >= 2,
                i <= height,
                width * height <= usize::MAX,
                nodes@.len() == i * width,
                forall|a: usize, b: usize|
                    a < height && b < width ==> call_requires(source_at, (a, b)),
                forall|a: usize, b: usize|
                    a < i && b < width ==> {
                        let node = #[trigger] nodes@[a * width + b];
                        &&& node.i == a
                        &&& node.j == b
                        &&& call_ensures(source_at, (a, b), node.source)
                        &&& node.interp == node.source
                        &&& node.weight == 0
                    },
            decreases height - i,
        {
            let mut j: usize = 0;
            while j < width
                invariant
                    width >= 2,
                    i < height,
                    j <= width,
                    width * height <= usize::MAX,
                    nodes@.len() == i * width + j,
                    forall|a: usize, b: usize|
                        a < height && b < width ==> call_requires(source_at, (a, b)),
                    forall|a: usize, b: usize|
                        (a < i && b < width) || (a == i && b < j) ==> {
                            let node = #[trigger] nodes@[a * width + b];
                            &&& node.i == a
                            &&& node.j == b
                            &&& call_ensures(source_at, (a, b), node.source)
                            &&& node.interp == node.source
                            &&& node.weight == 0
                        },
                decreases width - j,
            {
                let ghost before = nodes@;
                let source = source_at(i, j);
                nodes.push(Node::new(i, j, source));
                assert forall|a: usize, b: usize|
                    (a < i && b < width) || (a == i && b < j + 1) implies {
                    let node = #[trigger] nodes@[a * width + b];
                    &&& node.i == a
                    &&& node.j == b
                    &&& call_ensures(source_at, (a, b), node.source)
                    &&& node.interp == node.source
                    &&& node.weight == 0
                } by {
                    if a == i && b == j {
                    } else {
                        lemma_row_major_index(a as int, b as int, width as int, i as int + 1);
                        assert(a * width + b < i * width + j) by (nonlinear_arith)
                            requires
                                (a < i && b < width) || (a == i && b < j),
                                j < width,
                        ;
                        assert(nodes@[a * width + b] == before[a * width + b]);
                    }
                }
                j += 1;
            }
            assert(i * width + width == (i + 1) * width) by (nonlinear_arith);
            i += 1;
        }
        assert(height * width == width * height) by (nonlinear_arith);
        NodeSet { nodes, width, height }
    }

    /// The number of nodes in a row.
    pub fn width(&self) -> (width: usize)
        ensures
            width == self@.width,
    {
        self.width
    }

    /// The number of rows.
    pub fn height(&self) -> (height: usize)
        ensures
            height == self@.height,
    {
        self.height
    }

    /// The number of nodes.
    pub fn len(&self) -> (len: usize)
        ensures
            len == self@.nodes.len(),
    {
        self.nodes.len()
    }

    /// Whether row `i`, column `j` names a node of the lattice.
    pub fn is_in_grid(&self, i: isize, j: isize) -> (inside: bool)
        ensures
            inside == self@.in_grid(i as int, j as int),
    {
        i >= 0 && j >= 0 && (i as usize) < self.height && (j as usize) < self.width
    }

    /// The place of row `i`, column `j` in the storage order.
    fn index(&self, i: usize, j: usize) -> (k: usize)
        requires
            self@.wf(),
            self@.in_grid(i as int, j as int),
        ensures
            k == i * self@.width + j,
            k < self@.nodes.len(),
    {
        proof {
            lemma_row_major_index(i as int, j as int, self.width as int, self.height as int);
            assert(self.nodes@.len() == self.nodes.len());
        }
        i * self.width + j
    }

    /// The node at row `i` and column `j`.
    pub fn get_node(&self, i: usize, j: usize) -> (node: &Node<P>)
        requires
            self@.wf(),
            self@.in_grid(i as int, j as int),
        ensures
            *node == self@.node_at(i as int, j as int),
    {
        let k = self.index(i, j);
        &self.nodes[k]
    }

    /// The node at row `i` and column `j`, to be changed in place. The
    /// lattice is as before but for what the caller writes into that node.
    pub fn get_mut_node(&mut self, i: usize, j: usize) -> (node: &mut Node<P>)
        requires
            old(self)@.wf(),
            old(self)@.in_grid(i as int, j as int),
        ensures
            *node == old(self)@.node_at(i as int, j as int),
            final(self)@ == old(self)@.replace(i as int, j as int, *final(node)),
    {
        let k = self.index(i, j);
        &mut self.nodes[k]
    }

    /// Moves the node at row `i` and column `j` to `interp` in the image plane.
    pub fn set_interp(&mut self, i: usize, j: usize, interp: P)
        requires
            old(self)@.wf(),
            old(self)@.in_grid(i as int, j as int),
        ensures
            final(self)@ == old(self)@.replace(
                i as int,
                j as int,
                (Node { interp, ..old(self)@.node_at(i as int, j as int) }),
            ),
            final(self)@.wf(),
            old(self)@.keeps_frame(final(self)@),
            old(self)@.keeps_weights(final(self)@),
    {
        proof {
            lemma_row_major_index(i as int, j as int, self.width as int, self.height as int);
        }
        let node = self.get_mut_node(i, j);
        node.interp = interp;
    }

    /// The neighbours that the node at row `i` and column `j` is smoothed with.
    pub fn get_smoothing(&self, i: usize, j: usize) -> (neighbours: Smoothing<P>)
        requires
            self@.wf(),
            self@.in_grid(i as int, j as int),
        ensures
            neighbours == self@.smoothing_at(i as int, j as int),
    {
        if i > 1 && j > 1 && i < self.height - 2 && j < self.width - 2 {
            Smoothing::Interior {
                north: self.get_node(i - 1, j).interp,
                south: self.get_node(i + 1, j).interp,
                west: self.get_node(i, j - 1).interp,
                east: self.get_node(i, j + 1).interp,
                north_west: self.get_node(i - 1, j - 1).interp,
                south_west: self.get_node(i + 1, j - 1).interp,
                south_east: self.get_node(i + 1, j + 1).interp,
                north_east: self.get_node(i - 1, j + 1).interp,
                north_north: self.get_node(i - 2, j).interp,
                south_south: self.get_node(i + 2, j).interp,
                west_west: self.get_node(i, j - 2).interp,
                east_east: self.get_node(i, j + 2).interp,
            }
        } else {
            let north = if i > 0 {
                Some(self.get_node(i - 1, j).interp)
            } else {
                None
            };
            let west = if j > 0 {
                Some(self.get_node(i, j - 1).interp)
            } else {
                None
            };
            let south = if i < self.height - 1 {
                Some(self.get_node(i + 1, j).interp)
            } else {
                None
            };
            let east = if j < self.width - 1 {
                Some(self.get_node(i, j + 1).interp)
            } else {
                None
            };
            Smoothing::Border { north, west, south, east }
        }
    }

    /// Where smoothing puts the node at row `i` and column `j`: what `weigh`
    /// makes of the neighbours that the node is smoothed with.
    pub fn get_smoothed<F: FnOnce(Smoothing<P>) -> P>(&self, i: usize, j: usize, weigh: F) -> (smoothed: P)
        requires
            self@.wf(),
            self@.in_grid(i as int, j as int),
            call_requires(weigh, (self@.smoothing_at(i as int, j as int),)),
        ensures
            call_ensures(weigh, (self@.smoothing_at(i as int, j as int),), smoothed),
    {
        weigh(self.get_smoothing(i, j))
    }

    /// The four corners of the cell whose top left corner is at row `row` and
    /// column `col`: top left, top right, bottom left, bottom right.
    pub fn get_adjacent_nodes(&self, row: usize, col: usize) -> (corners: [Node<P>; 4])
        requires
            self@.wf(),
            self@.has_cell(row as int, col as int),
        ensures
            corners@ == seq![
                self@.node_at(row as int, col as int),
                self@.node_at(row as int, col + 1),
                self@.node_at(row + 1, col as int),
                self@.node_at(row + 1, col + 1),
            ],
    {
        let corners = [
            *self.get_node(row, col),
            *self.get_node(row, col + 1),
            *self.get_node(row + 1, col),
            *self.get_node(row + 1, col + 1),
        ];
        assert(corners@ =~= seq![
            self@.node_at(row as int, col as int),
            self@.node_at(row as int, col + 1),
            self@.node_at(row + 1, col as int),
            self@.node_at(row + 1, col + 1),
        ]);
        corners
    }

    /// Puts in place of corner `k` of the cell at row `row` and column `col`
    /// what `f` makes of it. The corners are counted as
    /// [`NodeSet::get_adjacent_nodes`] lists them; any `k` above 2 names the
    /// bottom right corner.
    pub fn update_adjacent_node<F: FnOnce(Node<P>) -> Node<P>>(
        &mut self,
        row: usize,
        col: usize,
        k: usize,
        f: F,
    )
        requires
            old(self)@.wf(),
            old(self)@.has_cell(row as int, col as int),
            ({
                let (i, j) = adjacent_place(row as int, col as int, k as int);
                call_requires(f, (old(self)@.node_at(i, j),))
            }),
        ensures
            ({
                let (i, j) = adjacent_place(row as int, col as int, k as int);
                &&& call_ensures(f, (old(self)@.node_at(i, j),), final(self)@.node_at(i, j))
                &&& final(self)@ == old(self)@.replace(i, j, final(self)@.node_at(i, j))
            }),
    {
        let (i, j) = if k == 0 {
            (row, col)
        } else if k == 1 {
            (row, col + 1)
        } else if k == 2 {
            (row + 1, col)
        } else {
            (row + 1, col + 1)
        };
        proof {
            lemma_row_major_index(i as int, j as int, self.width as int, self.height as int);
        }
        let node = self.get_mut_node(i, j);
        *node = f(*node);
    }

    /// Moves the four corners of the cell at row `row` and column `col` to
    /// where `solve` puts them. `solve` is given the corners as they are
    /// before any of them moves, in the order of
    /// [`NodeSet::get_adjacent_nodes`], and answers with their new
    /// interpolated positions in the same order.
    pub fn adjust_cell<F: FnOnce(Corner<P>, Corner<P>, Corner<P>, Corner<P>) -> (P, P, P, P)>(
        &mut self,
        row: usize,
        col: usize,
        solve: F,
    )
        requires
            old(self)@.wf(),
            old(self)@.has_cell(row as int, col as int),
            call_requires(
                solve,
                (
                    old(self)@.corner_at(row as int, col as int),
                    old(self)@.corner_at(row as int, col + 1),
                    old(self)@.corner_at(row + 1, col as int),
                    old(self)@.corner_at(row + 1, col + 1),
                ),
            ),
        ensures
            old(self)@.moves_cell(final(self)@, row as int, col as int),
            old(self)@.keeps_frame(final(self)@),
            old(self)@.keeps_weights(final(self)@),
            call_ensures(
                solve,
                (
                    old(self)@.corner_at(row as int, col as int),
                    old(self)@.corner_at(row as int, col + 1),
                    old(self)@.corner_at(row + 1, col as int),
                    old(self)@.corner_at(row + 1, col + 1),
                ),
                (
                    final(self)@.node_at(row as int, col as int).interp,
                    final(self)@.node_at(row as int, col + 1).interp,
                    final(self)@.node_at(row + 1, col as int).interp,
                    final(self)@.node_at(row + 1, col + 1).interp,
                ),
            ),
    {
        let top_left = Corner {
            node: *self.get_node(row, col),
            smoothing: self.get_smoothing(row, col),
        };
        let top_right = Corner {
            node: *self.get_node(row, col + 1),
            smoothing: self.get_smoothing(row, col + 1),
        };
        let bottom_left = Corner {
            node: *self.get_node(row + 1, col),
            smoothing: self.get_smoothing(row + 1, col),
        };
        let bottom_right = Corner {
            node: *self.get_node(row + 1, col + 1),
            smoothing: self.get_smoothing(row + 1, col + 1),
        };
        let moved = solve(top_left, top_right, bottom_left, bottom_right);
        let ghost s0 = self@;
        self.set_interp(row, col, moved.0);
        let ghost s1 = self@;
        self.set_interp(row, col + 1, moved.1);
        let ghost s2 = self@;
        self.set_interp(row + 1, col, moved.2);
        let ghost s3 = self@;
        self.set_interp(row + 1, col + 1, moved.3);
        proof {
            let (r, c) = (row as int, col as int);
            s0.lemma_replace(r, c, Node { interp: moved.0, ..s0.node_at(r, c) });
            s1.lemma_replace(r, c + 1, Node { interp: moved.1, ..s1.node_at(r, c + 1) });
            s2.lemma_replace(r + 1, c, Node { interp: moved.2, ..s2.node_at(r + 1, c) });
            s3.lemma_replace(r + 1, c + 1, Node { interp: moved.3, ..s3.node_at(r + 1, c + 1) });
        }
    }

    /// One smoothing pass: the nodes take their turn row by row, each row
    /// from left to right. A node that carries weight stays where it is. A
    /// free node moves to where `relax` sends it, given the node and its
    /// neighbours as they are when its turn comes.
    pub fn smooth_pass<F: Fn(Node<P>, Smoothing<P>) -> P>(&mut self, relax: &F)
        requires
            old(self)@.wf(),
            forall|node: Node<P>, neighbours: Smoothing<P>|
                node.weight == 0 ==> call_requires(*relax, (node, neighbours)),
        ensures
            final(self)@.wf(),
            old(self)@.swept_by(*relax, final(self)@),
            old(self)@.keeps_frame(final(self)@),
            old(self)@.keeps_weights(final(self)@),
    {
        let mut i: usize = 0;
        while i < self.height
            invariant
                i <= self@.height,
                self@.wf(),
                old(self)@.keeps_frame(self@),
                old(self)@.keeps_weights(self@),
                forall|node: Node<P>, neighbours: Smoothing<P>|
                    node.weight == 0 ==> call_requires(*relax, (node, neighbours)),
                forall|m: int|
                    i * self@.width <= m < self@.nodes.len() ==> #[trigger] self@.nodes[m] == old(
                        self,
                    )@.nodes[m],
                forall|m: int|
                    0 <= m < i * self@.width ==> #[trigger] old(self)@.turn_taken(
                        *relax,
                        self@,
                        m,
                    ),
            decreases self@.height - i,
        {
            let mut j: usize = 0;
            while j < self.width
                invariant
                    i < self@.height,
                    j <= self@.width,
                    self@.wf(),
                    old(self)@.keeps_frame(self@),
                    old(self)@.keeps_weights(self@),
                    forall|node: Node<P>, neighbours: Smoothing<P>|
                        node.weight == 0 ==> call_requires(*relax, (node, neighbours)),
                    forall|m: int|
                        i * self@.width + j <= m < self@.nodes.len() ==> #[trigger] self@.nodes[m]
                            == old(self)@.nodes[m],
                    forall|m: int|
                        0 <= m < i * self@.width + j ==> #[trigger] old(self)@.turn_taken(
                            *relax,
                            self@,
                            m,
                        ),
                decreases self@.width - j,
            {
                let ghost before = self@;
                let ghost k = i * before.width + j;
                proof {
                    lemma_row_major_index(
                        i as int,
                        j as int,
                        before.width as int,
                        before.height as int,
                    );
                }
                let node = *self.get_node(i, j);
                if node.weight == 0 {
                    let neighbours = self.get_smoothing(i, j);
                    let interp = relax(node, neighbours);
                    self.set_interp(i, j, interp);
                }
                proof {
                    let start = old(self)@;
                    let now = self@;
                    assert(start.at_turn(now, k).nodes =~= before.nodes);
                    assert(start.at_turn(now, k) == before);
                    assert(start.turn_taken(*relax, now, k));
                    assert forall|m: int| 0 <= m < k implies #[trigger] start.turn_taken(
                        *relax,
                        now,
                        m,
                    ) by {
                        assert(start.turn_taken(*relax, before, m));
                        assert(start.at_turn(now, m).nodes =~= start.at_turn(before, m).nodes);
                    }
                }
                j += 1;
            }
            assert(i * self@.width + self@.width == (i + 1) * self@.width) by (nonlinear_arith);
            i += 1;
        }
        assert(self@.height * self@.width == self@.width * self@.height) by (nonlinear_arith);
    }

    /// Adds `value` to the weight of each corner of the cell at row `row`
    /// and column `col`.
    pub fn set_weight_adjacent_nodes(&mut self, row: usize, col: usize, value: u64)
        requires
            old(self)@.wf(),
            old(self)@.has_cell(row as int, col as int),
            forall|i: int, j: int|
                is_corner(row as int, col as int, i, j) ==> (#[trigger] old(self)@.node_at(
                    i,
                    j,
                )).weight + value <= u64::MAX,
        ensures
            final(self)@.wf(),
            old(self)@.keeps_frame(final(self)@),
            forall|i: int, j: int|
                old(self)@.in_grid(i, j) ==> #[trigger] final(self)@.node_at(i, j) == if is_corner(
                    row as int,
                    col as int,
                    i,
                    j,
                ) {
                    Node {
                        weight: (old(self)@.node_at(i, j).weight + value) as u64,
                        ..old(self)@.node_at(i, j)
                    }
                } else {
                    old(self)@.node_at(i, j)
                },
    {
        let ghost s0 = self@;
        let ghost up = |node: Node<P>| Node { weight: (node.weight + value) as u64, ..node };
        proof {
            lemma_row_major_index(row as int, col as int, s0.width as int, s0.height as int);
            lemma_row_major_index(row as int, col + 1, s0.width as int, s0.height as int);
            lemma_row_major_index(row + 1, col as int, s0.width as int, s0.height as int);
            lemma_row_major_index(row + 1, col + 1, s0.width as int, s0.height as int);
        }
        let n1 = self.get_mut_node(row, col);
        n1.weight = n1.weight + value;
        let ghost s1 = self@;
        proof {
            s0.lemma_replace(row as int, col as int, up(s0.node_at(row as int, col as int)));
        }
        let n2 = self.get_mut_node(row, col + 1);
        n2.weight = n2.weight + value;
        let ghost s2 = self@;
        proof {
            s1.lemma_replace(row as int, col + 1, up(s1.node_at(row as int, col + 1)));
        }
        let n3 = self.get_mut_node(row + 1, col);
        n3.weight = n3.weight + value;
        let ghost s3 = self@;
        proof {
            s2.lemma_replace(row + 1, col as int, up(s2.node_at(row + 1, col as int)));
        }
        let n4 = self.get_mut_node(row + 1, col + 1);
        n4.weight = n4.weight + value;
        proof {
            s3.lemma_replace(row + 1, col + 1, up(s3.node_at(row + 1, col + 1)));
        }
    }

    /// Counts every cell of `cells` at its four corners: the weight of each
    /// node grows by the number of cells of `cells` that it is a corner of.
    /// A cell is named by the row and the column of its top left corner.
    pub fn seed_weights(&mut self, cells: &Vec<(usize, usize)>)
        requires
            old(self)@.wf(),
            forall|n: int|
                0 <= n < cells@.len() ==> old(self)@.has_cell(
                    (#[trigger] cells@[n]).0 as int,
                    cells@[n].1 as int,
                ),
            forall|i: int, j: int|
                old(self)@.in_grid(i, j) ==> (#[trigger] old(self)@.node_at(i, j)).weight
                    + cells@.len() <= u64::MAX,
        ensures
            final(self)@.wf(),
            old(self)@.keeps_frame(final(self)@),
            forall|i: int, j: int|
                old(self)@.in_grid(i, j) ==> #[trigger] final(self)@.node_at(i, j) == (Node {
                    weight: (old(self)@.node_at(i, j).weight + corner_count(cells@, i, j)) as u64,
                    ..old(self)@.node_at(i, j)
                }),
    {
        let mut n: usize = 0;
        assert(cells@.take(0) =~= Seq::<(usize, usize)>::empty());
        while n < cells.len()
            invariant
                n <= cells@.len(),
                self@.wf(),
                old(self)@.wf(),
                old(self)@.keeps_frame(self@),
                forall|m: int|
                    0 <= m < cells@.len() ==> old(self)@.has_cell(
                        (#[trigger] cells@[m]).0 as int,
                        cells@[m].1 as int,
                    ),
                forall|i: int, j: int|
                    old(self)@.in_grid(i, j) ==> (#[trigger] old(self)@.node_at(i, j)).weight
                        + cells@.len() <= u64::MAX,
                forall|i: int, j: int|
                    old(self)@.in_grid(i, j) ==> #[trigger] self@.node_at(i, j) == (Node {
                        weight: (old(self)@.node_at(i, j).weight + corner_count(
                            cells@.take(n as int),
                            i,
                            j,
                        )) as u64,
                        ..old(self)@.node_at(i, j)
                    }),
            decreases cells@.len() - n,
        {
            let (row, col) = cells[n];
            let ghost seen = cells@.take(n as int);
            let ghost before = self@;
            assert forall|i: int, j: int| is_corner(row as int, col as int, i, j) implies (
            #[trigger] self@.node_at(i, j)).weight + 1 <= u64::MAX by {
                lemma_corner_count_le_len(seen, i, j);
                assert(old(self)@.in_grid(i, j));
            }
            self.set_weight_adjacent_nodes(row, col, 1);
            proof {
                let next = cells@.take(n + 1);
                assert(next.drop_last() =~= seen);
                assert(next.last() == cells@[n as int]);
                assert forall|i: int, j: int| old(self)@.in_grid(i, j) implies #[trigger] self@.node_at(
                    i,
                    j,
                ) == (Node {
                    weight: (old(self)@.node_at(i, j).weight + corner_count(next, i, j)) as u64,
                    ..old(self)@.node_at(i, j)
                }) by {
                    lemma_corner_count_le_len(seen, i, j);
                    assert(before.in_grid(i, j));
                    assert(before.node_at(i, j).weight == old(self)@.node_at(i, j).weight
                        + corner_count(seen, i, j));
                }
            }
            n += 1;
        }
        assert(cells@.take(cells@.len() as int) =~= cells@);
    }
}

} // verus!
