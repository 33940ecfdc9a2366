use vstd::prelude::*;
use crate::lattice::Lattice;
use crate::node::Corner;
use crate::node::Node;
use crate::node::NodeSet;
use crate::node::Smoothing;

verus! {

impl<P> Lattice<P> {
    /// `after` is `self` once the source point `source` and its image point
    /// `image` have been fitted: the four corners of the cell that holds the
    /// source point, at row `row` and column `col`, have moved to where
    /// `solve` puts them, given the two points and the corners as they were.
    pub open spec fn pair_fitted<
        S: Fn(P, P, Corner<P>, Corner<P>, Corner<P>, Corner<P>) -> (P, P, P, P),
    >(self, solve: S, source: P, image: P, row: int, col: int, after: Self) -> bool {
        &&& self.moves_cell(after, row, col)
        &&& call_ensures(
            solve,
            (
                source,
                image,
                self.corner_at(row, col),
                self.corner_at(row, col + 1),
                self.corner_at(row + 1, col),
                self.corner_at(row + 1, col + 1),
            ),
            (
                after.node_at(row, col).interp,
                after.node_at(row, col + 1).interp,
                after.node_at(row + 1, col).interp,
                after.node_at(row + 1, col + 1).interp,
            ),
        )
    }

    /// `steps` lists the lattice as it is before the first pair of points is
    /// fitted and after each pair is: the pairs are fitted one after the
    /// other in the order in which they are given, each to the lattice that
    /// the one before it has left. `cells` names, for each pair, the cell that
    /// holds its source point.
    pub open spec fn pairs_fitted<
        S: Fn(P, P, Corner<P>, Corner<P>, Corner<P>, Corner<P>) -> (P, P, P, P),
    >(
        self,
        solve: S,
        source: Seq<P>,
        image: Seq<P>,
        cells: Seq<(usize, usize)>,
        steps: Seq<Self>,
    ) -> bool {
        &&& steps.len() == cells.len() + 1
        &&& steps[0] == self
        &&& forall|k: int|
            0 <= k < cells.len() ==> (#[trigger] steps[k]).pair_fitted(
                solve,
                source[k],
                image[k],
                cells[k].0 as int,
                cells[k].1 as int,
                steps[k + 1],
            )
    }

    /// `after` is `self` once every pair has been fitted in turn.
    pub open spec fn fitted_to<
        S: Fn(P, P, Corner<P>, Corner<P>, Corner<P>, Corner<P>) -> (P, P, P, P),
    >(
        self,
        solve: S,
        source: Seq<P>,
        image: Seq<P>,
        cells: Seq<(usize, usize)>,
        after: Self,
    ) -> bool {
        exists|steps: Seq<Self>| #[trigger]
            self.pairs_fitted(solve, source, image, cells, steps) && steps.last() == after
    }

    /// `sweeps` lists the lattice as it is before the first smoothing pass
    /// and after each one. There is at least one pass and there are at most
    /// as many as the lattice has nodes. After each pass `settled` is asked,
    /// with the number of the pass, whether the lattice has come to rest;
    /// the passes end with the first one after the sixth for which it says
    /// so.
    pub open spec fn smoothed_by<R: Fn(Node<P>, Smoothing<P>) -> P, C: Fn(usize) -> bool>(
        self,
        relax: R,
        settled: C,
        sweeps: Seq<Self>,
    ) -> bool {
        let count = sweeps.len() - 1;
        &&& 1 <= count <= self.nodes.len()
        &&& sweeps[0] == self
        &&& forall|l: int| 0 <= l < count ==> (#[trigger] sweeps[l]).swept_by(relax, sweeps[l + 1])
        &&& forall|l: usize| l < count - 1 ==> l <= 5 || #[trigger] call_ensures(settled, (l,), false)
        &&& count < self.nodes.len() ==> count - 1 > 5 && call_ensures(
            settled,
            ((count - 1) as usize,),
            true,
        )
    }

    /// `after` is `self` once it has been smoothed until it has come to rest.
    pub open spec fn smoothed_to<R: Fn(Node<P>, Smoothing<P>) -> P, C: Fn(usize) -> bool>(
        self,
        relax: R,
        settled: C,
        after: Self,
    ) -> bool {
        exists|sweeps: Seq<Self>| #[trigger]
            self.smoothed_by(relax, settled, sweeps) && sweeps.last() == after
    }

    /// `after` is `self` after one pass of the fit: every pair is fitted in
    /// turn, then the lattice is smoothed until it has come to rest.
    pub open spec fn pass_done<
        S: Fn(P, P, Corner<P>, Corner<P>, Corner<P>, Corner<P>) -> (P, P, P, P),
        R: Fn(Node<P>, Smoothing<P>) -> P,
        C: Fn(usize) -> bool,
    >(
        self,
        solve: S,
        relax: R,
        settled: C,
        source: Seq<P>,
        image: Seq<P>,
        cells: Seq<(usize, usize)>,
        after: Self,
    ) -> bool {
        exists|fitted: Self| #[trigger]
            self.fitted_to(solve, source, image, cells, fitted) && fitted.smoothed_to(
                relax,
                settled,
                after,
            )
    }

    /// `passes` lists the lattice as it is before the first pass of the fit
    /// and after each one.
    pub open spec fn passes_done<
        S: Fn(P, P, Corner<P>, Corner<P>, Corner<P>, Corner<P>) -> (P, P, P, P),
        R: Fn(Node<P>, Smoothing<P>) -> P,
        C: Fn(usize) -> bool,
    >(
        self,
        solve: S,
        relax: R,
        settled: C,
        source: Seq<P>,
        image: Seq<P>,
        cells: Seq<(usize, usize)>,
        passes: Seq<Self>,
    ) -> bool {
        &&& passes.len() >= 1
        &&& passes[0] == self
        &&& forall|t: int|
            0 <= t < passes.len() - 1 ==> (#[trigger] passes[t]).pass_done(
                solve,
                relax,
                settled,
                source,
                image,
                cells,
                passes[t + 1],
            )
    }

    /// `after` is `self` after `n_iter` passes of the fit.
    pub open spec fn interpolated_by<
        S: Fn(P, P, Corner<P>, Corner<P>, Corner<P>, Corner<P>) -> (P, P, P, P),
        R: Fn(Node<P>, Smoothing<P>) -> P,
        C: Fn(usize) -> bool,
    >(
        self,
        solve: S,
        relax: R,
        settled: C,
        source: Seq<P>,
        image: Seq<P>,
        cells: Seq<(usize, usize)>,
        n_iter: nat,
        after: Self,
    ) -> bool {
        exists|passes: Seq<Self>| #[trigger]
            self.passes_done(solve, relax, settled, source, image, cells, passes) && passes.len()
                == n_iter + 1 && passes.last() == after
    }
}

impl<P: Copy> NodeSet<P> {
    /// Fits one pair of points: moves the four corners of the cell that
    /// holds the source point, at row `row` and column `col`, to where
    /// `solve` puts them.
    fn fit_pair<S: Fn(P, P, Corner<P>, Corner<P>, Corner<P>, Corner<P>) -> (P, P, P, P)>(
        &mut self,
        source: P,
        image: P,
        row: usize,
        col: usize,
        solve: &S,
    )
        requires
            old(self)@.wf(),
            old(self)@.has_cell(row as int, col as int),
            old(self)@.cell_weighted(row as int, col as int),
            forall|p: P, q: P, a: Corner<P>, b: Corner<P>, c: Corner<P>, d: Corner<P>|
                a.node.weight >= 1 && b.node.weight >= 1 && c.node.weight >= 1 && d.node.weight
                    >= 1 ==> call_requires(*solve, (p, q, a, b, c, d)),
        ensures
            final(self)@.wf(),
            old(self)@.pair_fitted(*solve, source, image, row as int, col as int, final(self)@),
            old(self)@.keeps_frame(final(self)@),
            old(self)@.keeps_weights(final(self)@),
    {
        let step = |a: Corner<P>, b: Corner<P>, c: Corner<P>, d: Corner<P>| -> (moved: (P, P, P, P))
            requires
                call_requires(*solve, (source, image, a, b, c, d)),
            ensures
                call_ensures(*solve, (source, image, a, b, c, d), moved),
            { solve(source, image, a, b, c, d) };
        self.adjust_cell(row, col, step);
    }

    /// The first phase of a pass of the fit: fits every pair of points in
    /// turn, in the order in which they are given. `cells` names, for each
    /// pair, the cell that holds its source point.
    pub fn fit_pairs<S: Fn(P, P, Corner<P>, Corner<P>, Corner<P>, Corner<P>) -> (P, P, P, P)>(
        &mut self,
        source: &[P],
        image: &[P],
        cells: &Vec<(usize, usize)>,
        solve: &S,
    )
        requires
            old(self)@.wf(),
            source@.len() == cells@.len(),
            image@.len() == cells@.len(),
            forall|n: int|
                0 <= n < cells@.len() ==> old(self)@.has_cell(
                    (#[trigger] cells@[n]).0 as int,
                    cells@[n].1 as int,
                ) && old(self)@.cell_weighted(cells@[n].0 as int, cells@[n].1 as int),
            forall|p: P, q: P, a: Corner<P>, b: Corner<P>, c: Corner<P>, d: Corner<P>|
                a.node.weight >= 1 && b.node.weight >= 1 && c.node.weight >= 1 && d.node.weight
                    >= 1 ==> call_requires(*solve, (p, q, a, b, c, d)),
        ensures
            final(self)@.wf(),
            old(self)@.fitted_to(*solve, source@, image@, cells@, final(self)@),
            old(self)@.keeps_frame(final(self)@),
            old(self)@.keeps_weights(final(self)@),
    {
        let ghost mut steps: Seq<Lattice<P>> = seq![self@];
        let mut k: usize = 0;
        while k < cells.len()
            invariant
                k <= cells@.len(),
                source@.len() == cells@.len(),
                image@.len() == cells@.len(),
                self@.wf(),
                old(self)@.keeps_frame(self@),
                old(self)@.keeps_weights(self@),
                forall|n: int|
                    0 <= n < cells@.len() ==> old(self)@.has_cell(
                        (#[trigger] cells@[n]).0 as int,
                        cells@[n].1 as int,
                    ) && old(self)@.cell_weighted(cells@[n].0 as int, cells@[n].1 as int),
                forall|p: P, q: P, a: Corner<P>, b: Corner<P>, c: Corner<P>, d: Corner<P>|
                    a.node.weight >= 1 && b.node.weight >= 1 && c.node.weight >= 1 && d.node.weight
                        >= 1 ==> call_requires(*solve, (p, q, a, b, c, d)),
                steps.len() == k + 1,
                steps[0] == old(self)@,
                steps.last() == self@,
                forall|m: int|
                    0 <= m < k ==> (#[trigger] steps[m]).pair_fitted(
                        *solve,
                        source@[m],
                        image@[m],
                        cells@[m].0 as int,
                        cells@[m].1 as int,
                        steps[m + 1],
                    ),
            decreases cells@.len() - k,
        {
            let (row, col) = cells[k];
            let ghost before = steps;
            proof {
                old(self)@.lemma_keeps_weights_cell(self@, row as int, col as int);
            }
            self.fit_pair(source[k], image[k], row, col, solve);
            proof {
                steps = steps.push(self@);
                assert forall|m: int| 0 <= m < k + 1 implies (#[trigger] steps[m]).pair_fitted(
                    *solve,
                    source@[m],
                    image@[m],
                    cells@[m].0 as int,
                    cells@[m].1 as int,
                    steps[m + 1],
                ) by {
                    if m < k {
                        assert(before[m].pair_fitted(
                            *solve,
                            source@[m],
                            image@[m],
                            cells@[m].0 as int,
                            cells@[m].1 as int,
                            before[m + 1],
                        ));
                    }
                }
            }
            k += 1;
        }
        assert(old(self)@.pairs_fitted(*solve, source@, image@, cells@, steps));
    }

    /// The second phase of a pass of the fit: smooths the lattice until it
    /// has come to rest. After each smoothing pass `settled` is asked, with
    /// the number of the pass, whether the lattice has come to rest; the
    /// passes end with the first one after the sixth for which it says so,
    /// or when there have been as many as the lattice has nodes.
    pub fn smooth<R: Fn(Node<P>, Smoothing<P>) -> P, C: Fn(usize) -> bool>(
        &mut self,
        relax: &R,
        settled: &C,
    )
        requires
            old(self)@.wf(),
            forall|node: Node<P>, neighbours: Smoothing<P>|
                node.weight == 0 ==> call_requires(*relax, (node, neighbours)),
            forall|l: usize| call_requires(*settled, (l,)),
        ensures
            final(self)@.wf(),
            old(self)@.smoothed_to(*relax, *settled, final(self)@),
            old(self)@.keeps_frame(final(self)@),
            old(self)@.keeps_weights(final(self)@),
    {
        let limit = self.len();
        assert(self@.width * self@.height >= 4) by (nonlinear_arith)
            requires
                self@.width >= 2,
                self@.height >= 2,
        ;
        let ghost mut sweeps: Seq<Lattice<P>> = seq![self@];
        let mut l: usize = 0;
        let mut stop = false;
        while l < limit && !stop
            invariant
                l <= limit,
                limit == old(self)@.nodes.len(),
                limit >= 4,
                self@.wf(),
                old(self)@.keeps_frame(self@),
                old(self)@.keeps_weights(self@),
                forall|node: Node<P>, neighbours: Smoothing<P>|
                    node.weight == 0 ==> call_requires(*relax, (node, neighbours)),
                forall|n: usize| call_requires(*settled, (n,)),
                sweeps.len() == l + 1,
                sweeps[0] == old(self)@,
                sweeps.last() == self@,
                forall|m: int| 0 <= m < l ==> (#[trigger] sweeps[m]).swept_by(*relax, sweeps[m + 1]),
                forall|m: usize|
                    m < l - 1 ==> m <= 5 || #[trigger] call_ensures(*settled, (m,), false),
                !stop && l >= 1 ==> l - 1 <= 5 || call_ensures(
                    *settled,
                    ((l - 1) as usize,),
                    false,
                ),
                stop ==> l >= 1 && l - 1 > 5 && call_ensures(*settled, ((l - 1) as usize,), true),
            decreases limit - l,
        {
            let ghost before = sweeps;
            self.smooth_pass(relax);
            let done = settled(l);
            stop = l > 5 && done;
            proof {
                sweeps = sweeps.push(self@);
                assert forall|m: int| 0 <= m < l + 1 implies (#[trigger] sweeps[m]).swept_by(
                    *relax,
                    sweeps[m + 1],
                ) by {
                    if m < l {
                        assert(before[m].swept_by(*relax, before[m + 1]));
                    }
                }
            }
            l += 1;
        }
        assert(old(self)@.smoothed_by(*relax, *settled, sweeps));
    }

    /// Fits the lattice to pairs of homologous points in `n_iter` passes. In
    /// each pass every pair is fitted in turn, in the order in which the
    /// pairs are given; then the lattice is smoothed until it has come to
    /// rest. `cells` names, for each pair, the cell that holds its source
    /// point.
    ///
    /// `solve` puts the four corners of the cell of a pair, given the source
    /// point, the image point and the corners as they are. `relax` puts a
    /// free node, given the node and its neighbours as they are. `settled`
    /// says after each smoothing pass, given the number of the pass, whether
    /// the lattice has come to rest.
    pub fn interpolate<
        S: Fn(P, P, Corner<P>, Corner<P>, Corner<P>, Corner<P>) -> (P, P, P, P),
        R: Fn(Node<P>, Smoothing<P>) -> P,
        C: Fn(usize) -> bool,
    >(
        &mut self,
        source: &[P],
        image: &[P],
        cells: &Vec<(usize, usize)>,
        n_iter: usize,
        solve: &S,
        relax: &R,
        settled: &C,
    )
        requires
            old(self)@.wf(),
            source@.len() == cells@.len(),
            image@.len() == cells@.len(),
            forall|n: int|
                0 <= n < cells@.len() ==> old(self)@.has_cell(
                    (#[trigger] cells@[n]).0 as int,
                    cells@[n].1 as int,
                ) && old(self)@.cell_weighted(cells@[n].0 as int, cells@[n].1 as int),
            forall|p: P, q: P, a: Corner<P>, b: Corner<P>, c: Corner<P>, d: Corner<P>|
                a.node.weight >= 1 && b.node.weight >= 1 && c.node.weight >= 1 && d.node.weight
                    >= 1 ==> call_requires(*solve, (p, q, a, b, c, d)),
            forall|node: Node<P>, neighbours: Smoothing<P>|
                node.weight == 0 ==> call_requires(*relax, (node, neighbours)),
            forall|l: usize| call_requires(*settled, (l,)),
        ensures
            final(self)@.wf(),
            old(self)@.interpolated_by(
                *solve,
                *relax,
                *settled,
                source@,
                image@,
                cells@,
                n_iter as nat,
                final(self)@,
            ),
            old(self)@.keeps_frame(final(self)@),
            old(self)@.keeps_weights(final(self)@),
    {
        let ghost mut passes: Seq<Lattice<P>> = seq![self@];
        let mut pass: usize = 0;
        while pass < n_iter
            invariant
                pass <= n_iter,
                self@.wf(),
                source@.len() == cells@.len(),
                image@.len() == cells@.len(),
                old(self)@.keeps_frame(self@),
                old(self)@.keeps_weights(self@),
                forall|n: int|
                    0 <= n < cells@.len() ==> old(self)@.has_cell(
                        (#[trigger] cells@[n]).0 as int,
                        cells@[n].1 as int,
                    ) && old(self)@.cell_weighted(cells@[n].0 as int, cells@[n].1 as int),
                forall|p: P, q: P, a: Corner<P>, b: Corner<P>, c: Corner<P>, d: Corner<P>|
                    a.node.weight >= 1 && b.node.weight >= 1 && c.node.weight >= 1 && d.node.weight
                        >= 1 ==> call_requires(*solve, (p, q, a, b, c, d)),
                forall|node: Node<P>, neighbours: Smoothing<P>|
                    node.weight == 0 ==> call_requires(*relax, (node, neighbours)),
                forall|l: usize| call_requires(*settled, (l,)),
                passes.len() == pass + 1,
                passes.last() == self@,
                old(self)@.passes_done(*solve, *relax, *settled, source@, image@, cells@, passes),
            decreases n_iter - pass,
        {
            let ghost before = passes;
            let ghost start = self@;
            proof {
                assert forall|n: int| 0 <= n < cells@.len() implies start.cell_weighted(
                    (#[trigger] cells@[n]).0 as int,
                    cells@[n].1 as int,
                ) by {
                    old(self)@.lemma_keeps_weights_cell(
                        start,
                        cells@[n].0 as int,
                        cells@[n].1 as int,
                    );
                }
            }
            self.fit_pairs(source, image, cells, solve);
            let ghost fitted = self@;
            self.smooth(relax, settled);
            proof {
                assert(start.fitted_to(*solve, source@, image@, cells@, fitted));
                assert(start.pass_done(*solve, *relax, *settled, source@, image@, cells@, self@));
                passes = passes.push(self@);
                assert forall|t: int| 0 <= t < passes.len() - 1 implies (#[trigger] passes[t]).pass_done(
                    *solve,
                    *relax,
                    *settled,
                    source@,
                    image@,
                    cells@,
                    passes[t + 1],
                ) by {
                    if t < pass {
                        assert(before[t].pass_done(
                            *solve,
                            *relax,
                            *settled,
                            source@,
                            image@,
                            cells@,
                            before[t + 1],
                        ));
                    }
                }
            }
            pass += 1;
        }
    }
}

} // verus!
