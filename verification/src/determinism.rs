//! The fit is as deterministic as the arithmetic that it is given: if the
//! functions that place the nodes answer alike whenever they are asked alike,
//! a lattice fitted twice to the same points is the same lattice.
use vstd::prelude::*;
use crate::lattice::lemma_place_row_column;
use crate::lattice::Lattice;
use crate::node::Corner;
use crate::node::Node;
use crate::node::Smoothing;

verus! {

/// `solve` answers alike whenever it is asked alike.
pub open spec fn solves_alike<
    P,
    S: Fn(P, P, Corner<P>, Corner<P>, Corner<P>, Corner<P>) -> (P, P, P, P),
>(solve: S) -> bool {
    forall|
        p: P,
        q: P,
        a: Corner<P>,
        b: Corner<P>,
        c: Corner<P>,
        d: Corner<P>,
        first: (P, P, P, P),
        second: (P, P, P, P),
    |
        call_ensures(solve, (p, q, a, b, c, d), first) && call_ensures(
            solve,
            (p, q, a, b, c, d),
            second,
        ) ==> first == second
}

/// `relax` answers alike whenever it is asked alike.
pub open spec fn relaxes_alike<P, R: Fn(Node<P>, Smoothing<P>) -> P>(relax: R) -> bool {
    forall|node: Node<P>, neighbours: Smoothing<P>, first: P, second: P|
        call_ensures(relax, (node, neighbours), first) && call_ensures(
            relax,
            (node, neighbours),
            second,
        ) ==> first == second
}

/// `settled` answers alike whenever it is asked alike.
pub open spec fn settles_alike<C: Fn(usize) -> bool>(settled: C) -> bool {
    forall|l: usize, first: bool, second: bool|
        call_ensures(settled, (l,), first) && call_ensures(settled, (l,), second) ==> first
            == second
}

/// Two lattices of the same size whose nodes are the same at every row and
/// column are the same lattice.
pub proof fn lemma_same_nodes<P>(first: Lattice<P>, second: Lattice<P>)
    requires
        first.wf(),
        second.wf(),
        first.width == second.width,
        first.height == second.height,
        forall|i: int, j: int|
            first.in_grid(i, j) ==> #[trigger] first.node_at(i, j) == second.node_at(i, j),
    ensures
        first == second,
{
    assert forall|k: int| 0 <= k < first.nodes.len() implies first.nodes[k] == second.nodes[k] by {
        lemma_place_row_column(k, first.width as int, first.height as int);
        let (i, j) = (k / (first.width as int), k % (first.width as int));
        assert(first.node_at(i, j) == second.node_at(i, j));
    }
    assert(first.nodes =~= second.nodes);
}

/// Fitting one pair of points has one outcome.
pub proof fn lemma_pair_fitted_unique<
    P,
    S: Fn(P, P, Corner<P>, Corner<P>, Corner<P>, Corner<P>) -> (P, P, P, P),
>(
    before: Lattice<P>,
    solve: S,
    source: P,
    image: P,
    row: int,
    col: int,
    first: Lattice<P>,
    second: Lattice<P>,
)
    requires
        before.wf(),
        before.has_cell(row, col),
        solves_alike(solve),
        before.pair_fitted(solve, source, image, row, col, first),
        before.pair_fitted(solve, source, image, row, col, second),
    ensures
        first == second,
{
    let moved_first = (
        first.node_at(row, col).interp,
        first.node_at(row, col + 1).interp,
        first.node_at(row + 1, col).interp,
        first.node_at(row + 1, col + 1).interp,
    );
    let moved_second = (
        second.node_at(row, col).interp,
        second.node_at(row, col + 1).interp,
        second.node_at(row + 1, col).interp,
        second.node_at(row + 1, col + 1).interp,
    );
    assert(moved_first == moved_second);
    assert forall|i: int, j: int| first.in_grid(i, j) implies #[trigger] first.node_at(i, j)
        == second.node_at(i, j) by {
        assert(before.in_grid(i, j));
    }
    lemma_same_nodes(first, second);
}

/// Fitting the pairs of points one after the other leads through the same
/// lattices whenever it is done.
pub proof fn lemma_pairs_fitted_unique<
    P,
    S: Fn(P, P, Corner<P>, Corner<P>, Corner<P>, Corner<P>) -> (P, P, P, P),
>(
    before: Lattice<P>,
    solve: S,
    source: Seq<P>,
    image: Seq<P>,
    cells: Seq<(usize, usize)>,
    first: Seq<Lattice<P>>,
    second: Seq<Lattice<P>>,
    k: int,
)
    requires
        before.wf(),
        forall|n: int|
            0 <= n < cells.len() ==> before.has_cell(
                (#[trigger] cells[n]).0 as int,
                cells[n].1 as int,
            ),
        solves_alike(solve),
        before.pairs_fitted(solve, source, image, cells, first),
        before.pairs_fitted(solve, source, image, cells, second),
        0 <= k <= cells.len(),
    ensures
        first[k] == second[k],
        first[k].wf(),
        first[k].width == before.width,
        first[k].height == before.height,
    decreases k,
{
    if k > 0 {
        lemma_pairs_fitted_unique(before, solve, source, image, cells, first, second, k - 1);
        let step = k - 1;
        assert(first[step].pair_fitted(
            solve,
            source[step],
            image[step],
            cells[step].0 as int,
            cells[step].1 as int,
            first[step + 1],
        ));
        assert(second[step].pair_fitted(
            solve,
            source[step],
            image[step],
            cells[step].0 as int,
            cells[step].1 as int,
            second[step + 1],
        ));
        assert(before.has_cell(cells[step].0 as int, cells[step].1 as int));
        lemma_pair_fitted_unique(
            first[step],
            solve,
            source[step],
            image[step],
            cells[step].0 as int,
            cells[step].1 as int,
            first[k],
            second[k],
        );
    }
}

/// A smoothing pass has one outcome.
pub proof fn lemma_swept_unique<P, R: Fn(Node<P>, Smoothing<P>) -> P>(
    before: Lattice<P>,
    relax: R,
    first: Lattice<P>,
    second: Lattice<P>,
)
    requires
        relaxes_alike(relax),
        before.swept_by(relax, first),
        before.swept_by(relax, second),
    ensures
        first == second,
{
    lemma_swept_alike(before, relax, first, second, before.nodes.len() as int);
    assert(first.nodes =~= second.nodes);
}

/// The first `count` nodes come out of a smoothing pass alike whenever it
/// is done.
proof fn lemma_swept_alike<P, R: Fn(Node<P>, Smoothing<P>) -> P>(
    before: Lattice<P>,
    relax: R,
    first: Lattice<P>,
    second: Lattice<P>,
    count: int,
)
    requires
        relaxes_alike(relax),
        before.swept_by(relax, first),
        before.swept_by(relax, second),
        0 <= count <= before.nodes.len(),
    ensures
        forall|k: int| 0 <= k < count ==> first.nodes[k] == second.nodes[k],
    decreases count,
{
    if count > 0 {
        lemma_swept_alike(before, relax, first, second, count - 1);
        let k = count - 1;
        assert(before.turn_taken(relax, first, k));
        assert(before.turn_taken(relax, second, k));
        assert(before.at_turn(first, k).nodes =~= before.at_turn(second, k).nodes);
        assert(before.at_turn(first, k) == before.at_turn(second, k));
    }
}

/// Smoothing until the lattice has come to rest leads through the same
/// lattices whenever it is done, as far as it goes.
proof fn lemma_smoothed_alike<P, R: Fn(Node<P>, Smoothing<P>) -> P, C: Fn(usize) -> bool>(
    before: Lattice<P>,
    relax: R,
    settled: C,
    first: Seq<Lattice<P>>,
    second: Seq<Lattice<P>>,
    l: int,
)
    requires
        relaxes_alike(relax),
        before.smoothed_by(relax, settled, first),
        before.smoothed_by(relax, settled, second),
        0 <= l < first.len(),
        l < second.len(),
    ensures
        first[l] == second[l],
    decreases l,
{
    if l > 0 {
        lemma_smoothed_alike(before, relax, settled, first, second, l - 1);
        assert(first[l - 1].swept_by(relax, first[l - 1 + 1]));
        assert(second[l - 1].swept_by(relax, second[l - 1 + 1]));
        lemma_swept_unique(first[l - 1], relax, first[l], second[l]);
    }
}

/// Smoothing ends after the same number of passes whenever it is done: of
/// two runs, the one that ends first ends because the lattice has settled
/// after its last pass, and the other one is told the same and ends there
/// too.
proof fn lemma_smoothed_as_often<C: Fn(usize) -> bool>(
    settled: C,
    limit: int,
    first: int,
    second: int,
)
    requires
        settles_alike(settled),
        limit <= usize::MAX,
        1 <= first <= limit,
        1 <= second <= limit,
        forall|l: usize| l < first - 1 ==> l <= 5 || #[trigger] call_ensures(settled, (l,), false),
        forall|l: usize| l < second - 1 ==> l <= 5 || #[trigger] call_ensures(settled, (l,), false),
        first < limit ==> first - 1 > 5 && call_ensures(settled, ((first - 1) as usize,), true),
        second < limit ==> second - 1 > 5 && call_ensures(settled, ((second - 1) as usize,), true),
    ensures
        first == second,
{
    if first < second {
        let last = (first - 1) as usize;
        assert(last <= 5 || call_ensures(settled, (last,), false));
    } else if second < first {
        let last = (second - 1) as usize;
        assert(last <= 5 || call_ensures(settled, (last,), false));
    }
}

/// Smoothing until the lattice has come to rest has one outcome.
pub proof fn lemma_smoothed_unique<P, R: Fn(Node<P>, Smoothing<P>) -> P, C: Fn(usize) -> bool>(
    before: Lattice<P>,
    relax: R,
    settled: C,
    first: Lattice<P>,
    second: Lattice<P>,
)
    requires
        before.wf(),
        relaxes_alike(relax),
        settles_alike(settled),
        before.smoothed_to(relax, settled, first),
        before.smoothed_to(relax, settled, second),
    ensures
        first == second,
{
    let sweeps1 = choose|sweeps: Seq<Lattice<P>>| #[trigger]
        before.smoothed_by(relax, settled, sweeps) && sweeps.last() == first;
    let sweeps2 = choose|sweeps: Seq<Lattice<P>>| #[trigger]
        before.smoothed_by(relax, settled, sweeps) && sweeps.last() == second;
    let count1 = sweeps1.len() - 1;
    let count2 = sweeps2.len() - 1;
    lemma_smoothed_as_often(settled, before.nodes.len() as int, count1, count2);
    lemma_smoothed_alike(before, relax, settled, sweeps1, sweeps2, count1);
}

/// One pass of the fit has one outcome.
pub proof fn lemma_pass_unique<
    P,
    S: Fn(P, P, Corner<P>, Corner<P>, Corner<P>, Corner<P>) -> (P, P, P, P),
    R: Fn(Node<P>, Smoothing<P>) -> P,
    C: Fn(usize) -> bool,
>(
    before: Lattice<P>,
    solve: S,
    relax: R,
    settled: C,
    source: Seq<P>,
    image: Seq<P>,
    cells: Seq<(usize, usize)>,
    first: Lattice<P>,
    second: Lattice<P>,
)
    requires
        before.wf(),
        forall|n: int|
            0 <= n < cells.len() ==> before.has_cell(
                (#[trigger] cells[n]).0 as int,
                cells[n].1 as int,
            ),
        solves_alike(solve),
        relaxes_alike(relax),
        settles_alike(settled),
        before.pass_done(solve, relax, settled, source, image, cells, first),
        before.pass_done(solve, relax, settled, source, image, cells, second),
    ensures
        first == second,
        first.wf(),
        first.width == before.width,
        first.height == before.height,
{
    let fitted1 = choose|fitted: Lattice<P>| #[trigger]
        before.fitted_to(solve, source, image, cells, fitted) && fitted.smoothed_to(
            relax,
            settled,
            first,
        );
    let fitted2 = choose|fitted: Lattice<P>| #[trigger]
        before.fitted_to(solve, source, image, cells, fitted) && fitted.smoothed_to(
            relax,
            settled,
            second,
        );
    let steps1 = choose|steps: Seq<Lattice<P>>| #[trigger]
        before.pairs_fitted(solve, source, image, cells, steps) && steps.last() == fitted1;
    let steps2 = choose|steps: Seq<Lattice<P>>| #[trigger]
        before.pairs_fitted(solve, source, image, cells, steps) && steps.last() == fitted2;
    lemma_pairs_fitted_unique(
        before,
        solve,
        source,
        image,
        cells,
        steps1,
        steps2,
        cells.len() as int,
    );
    lemma_smoothed_unique(fitted1, relax, settled, first, second);
    // Smoothing keeps the size of the lattice.
    let sweeps = choose|sweeps: Seq<Lattice<P>>| #[trigger]
        fitted1.smoothed_by(relax, settled, sweeps) && sweeps.last() == first;
    lemma_smoothed_keeps_size(fitted1, relax, settled, sweeps, sweeps.len() - 1);
}

/// Smoothing keeps the size of the lattice.
proof fn lemma_smoothed_keeps_size<P, R: Fn(Node<P>, Smoothing<P>) -> P, C: Fn(usize) -> bool>(
    before: Lattice<P>,
    relax: R,
    settled: C,
    sweeps: Seq<Lattice<P>>,
    l: int,
)
    requires
        before.wf(),
        before.smoothed_by(relax, settled, sweeps),
        0 <= l < sweeps.len(),
    ensures
        sweeps[l].wf(),
        sweeps[l].width == before.width,
        sweeps[l].height == before.height,
    decreases l,
{
    if l > 0 {
        lemma_smoothed_keeps_size(before, relax, settled, sweeps, l - 1);
        assert(sweeps[l - 1].swept_by(relax, sweeps[l - 1 + 1]));
    }
}

/// The passes of the fit lead through the same lattices whenever they are
/// made.
proof fn lemma_passes_alike<
    P,
    S: Fn(P, P, Corner<P>, Corner<P>, Corner<P>, Corner<P>) -> (P, P, P, P),
    R: Fn(Node<P>, Smoothing<P>) -> P,
    C: Fn(usize) -> bool,
>(
    before: Lattice<P>,
    solve: S,
    relax: R,
    settled: C,
    source: Seq<P>,
    image: Seq<P>,
    cells: Seq<(usize, usize)>,
    first: Seq<Lattice<P>>,
    second: Seq<Lattice<P>>,
    t: int,
)
    requires
        before.wf(),
        forall|n: int|
            0 <= n < cells.len() ==> before.has_cell(
                (#[trigger] cells[n]).0 as int,
                cells[n].1 as int,
            ),
        solves_alike(solve),
        relaxes_alike(relax),
        settles_alike(settled),
        before.passes_done(solve, relax, settled, source, image, cells, first),
        before.passes_done(solve, relax, settled, source, image, cells, second),
        0 <= t < first.len(),
        t < second.len(),
    ensures
        first[t] == second[t],
        first[t].wf(),
        first[t].width == before.width,
        first[t].height == before.height,
    decreases t,
{
    if t > 0 {
        lemma_passes_alike(
            before,
            solve,
            relax,
            settled,
            source,
            image,
            cells,
            first,
            second,
            t - 1,
        );
        assert(first[t - 1].pass_done(
            solve,
            relax,
            settled,
            source,
            image,
            cells,
            first[t - 1 + 1],
        ));
        assert(second[t - 1].pass_done(
            solve,
            relax,
            settled,
            source,
            image,
            cells,
            second[t - 1 + 1],
        ));
        lemma_pass_unique(
            first[t - 1],
            solve,
            relax,
            settled,
            source,
            image,
            cells,
            first[t],
            second[t],
        );
    }
}

/// The fit has one outcome: two lattices that come of fitting the same
/// lattice to the same pairs of points in the same number of passes are the
/// same, node for node, if `solve`, `relax` and `settled` answer alike
/// whenever they are asked alike.
pub proof fn lemma_interpolated_unique<
    P,
    S: Fn(P, P, Corner<P>, Corner<P>, Corner<P>, Corner<P>) -> (P, P, P, P),
    R: Fn(Node<P>, Smoothing<P>) -> P,
    C: Fn(usize) -> bool,
>(
    before: Lattice<P>,
    solve: S,
    relax: R,
    settled: C,
    source: Seq<P>,
    image: Seq<P>,
    cells: Seq<(usize, usize)>,
    n_iter: nat,
    first: Lattice<P>,
    second: Lattice<P>,
)
    requires
        before.wf(),
        forall|n: int|
            0 <= n < cells.len() ==> before.has_cell(
                (#[trigger] cells[n]).0 as int,
                cells[n].1 as int,
            ),
        solves_alike(solve),
        relaxes_alike(relax),
        settles_alike(settled),
        before.interpolated_by(solve, relax, settled, source, image, cells, n_iter, first),
        before.interpolated_by(solve, relax, settled, source, image, cells, n_iter, second),
    ensures
        first == second,
{
    let passes1 = choose|passes: Seq<Lattice<P>>| #[trigger]
        before.passes_done(solve, relax, settled, source, image, cells, passes) && passes.len()
            == n_iter + 1 && passes.last() == first;
    let passes2 = choose|passes: Seq<Lattice<P>>| #[trigger]
        before.passes_done(solve, relax, settled, source, image, cells, passes) && passes.len()
            == n_iter + 1 && passes.last() == second;
    lemma_passes_alike(
        before,
        solve,
        relax,
        settled,
        source,
        image,
        cells,
        passes1,
        passes2,
        n_iter as int,
    );
}

} // verus!
