use distance_cartogram::node::Corner;
use distance_cartogram::node::Node;
use distance_cartogram::node::NodeSet;
use distance_cartogram::node::Smoothing;
use std::cell::Cell;
use std::cell::RefCell;

fn numbered(width: usize, height: usize) -> NodeSet<i64> {
    NodeSet::new(width, height, |i, j| (100 * i + j) as i64)
}

fn stay(_s: i64, _i: i64, a: Corner<i64>, b: Corner<i64>, c: Corner<i64>, d: Corner<i64>) -> (i64, i64, i64, i64) {
    (a.node.interp, b.node.interp, c.node.interp, d.node.interp)
}

fn keep(node: Node<i64>, _neighbours: Smoothing<i64>) -> i64 {
    node.interp
}

#[test]
fn no_pass_changes_nothing() {
    let mut set = numbered(3, 3);
    let asked = Cell::new(0);
    set.interpolate(
        &[0],
        &[5],
        &vec![(0, 0)],
        0,
        &|_, _, _, _, _, _| -> (i64, i64, i64, i64) { panic!("no pair is fitted without a pass") },
        &|_, _| -> i64 { panic!("no node is smoothed without a pass") },
        &|_| {
            asked.set(asked.get() + 1);
            true
        },
    );
    assert_eq!(asked.get(), 0);
    for i in 0..3 {
        for j in 0..3 {
            assert_eq!(set.get_node(i, j).interp, (100 * i + j) as i64);
        }
    }
}

#[test]
fn pairs_are_fitted_in_order_in_every_pass() {
    let mut set = numbered(4, 4);
    let cells = vec![(2, 2), (0, 0), (1, 2)];
    set.seed_weights(&cells);
    let seen = RefCell::new(Vec::new());
    set.interpolate(
        &[10, 11, 12],
        &[20, 21, 22],
        &cells,
        2,
        &|s, i, a: Corner<i64>, b: Corner<i64>, c: Corner<i64>, d: Corner<i64>| {
            seen.borrow_mut().push((s, i, a.node.i, a.node.j));
            stay(s, i, a, b, c, d)
        },
        &keep,
        &|_| true,
    );
    assert_eq!(
        seen.into_inner(),
        vec![(10, 20, 2, 2), (11, 21, 0, 0), (12, 22, 1, 2), (10, 20, 2, 2), (11, 21, 0, 0), (12, 22, 1, 2)]
    );
}

#[test]
fn first_phase_fits_every_pair_once() {
    let mut set = numbered(3, 3);
    let cells = vec![(1, 1), (0, 0)];
    let seen = RefCell::new(Vec::new());
    set.fit_pairs(
        &[1, 2],
        &[3, 4],
        &cells,
        &|s, i, a: Corner<i64>, b: Corner<i64>, c: Corner<i64>, d: Corner<i64>| {
            seen.borrow_mut().push((s, i));
            (a.node.interp + s, b.node.interp + i, c.node.interp, d.node.interp)
        },
    );
    assert_eq!(seen.into_inner(), vec![(1, 3), (2, 4)]);
    assert_eq!(set.get_node(1, 1).interp, 102);
    assert_eq!(set.get_node(1, 2).interp, 105);
    assert_eq!(set.get_node(0, 0).interp, 2);
    assert_eq!(set.get_node(0, 1).interp, 5);
    assert_eq!(set.get_node(2, 2).interp, 202);
}

#[test]
fn each_pair_sees_what_the_pairs_before_it_have_moved() {
    let mut set = numbered(3, 3);
    let cells = vec![(0, 0), (0, 1)];
    set.seed_weights(&cells);
    let seen = RefCell::new(Vec::new());
    set.interpolate(
        &[1, 2],
        &[0, 0],
        &cells,
        1,
        &|s, _, a: Corner<i64>, b: Corner<i64>, c: Corner<i64>, d: Corner<i64>| {
            seen.borrow_mut().push(a.node.interp);
            // The top right corner of the first cell is the top left corner of the second.
            (a.node.interp, b.node.interp + 1000 * s, c.node.interp, d.node.interp)
        },
        &keep,
        &|_| true,
    );
    assert_eq!(seen.into_inner(), vec![0, 1001]);
    assert_eq!(set.get_node(0, 1).interp, 1001);
    assert_eq!(set.get_node(0, 2).interp, 2002);
}

#[test]
fn smoothing_ends_with_the_first_settled_pass_after_the_sixth() {
    let mut set = numbered(3, 3);
    let asked = RefCell::new(Vec::new());
    set.smooth(&keep, &|l| {
        asked.borrow_mut().push(l);
        true
    });
    assert_eq!(asked.into_inner(), vec![0, 1, 2, 3, 4, 5, 6]);
}

#[test]
fn smoothing_goes_on_until_the_lattice_has_settled() {
    let mut set = numbered(4, 3);
    let asked = RefCell::new(Vec::new());
    set.smooth(&keep, &|l| {
        asked.borrow_mut().push(l);
        l == 2 || l >= 8
    });
    assert_eq!(asked.into_inner(), vec![0, 1, 2, 3, 4, 5, 6, 7, 8]);
}

#[test]
fn smoothing_ends_after_as_many_passes_as_there_are_nodes() {
    let mut set = numbered(3, 3);
    let sweeps = Cell::new(0);
    let turns = Cell::new(0);
    set.smooth(
        &|node: Node<i64>, _| {
            turns.set(turns.get() + 1);
            node.interp
        },
        &|_| {
            sweeps.set(sweeps.get() + 1);
            false
        },
    );
    assert_eq!(sweeps.get(), 9);
    assert_eq!(turns.get(), 81);
    let mut small = numbered(2, 2);
    let sweeps = Cell::new(0);
    small.interpolate(&[], &[], &Vec::new(), 3, &stay, &keep, &|_| {
        sweeps.set(sweeps.get() + 1);
        true
    });
    assert_eq!(sweeps.get(), 12);
}

#[test]
fn only_free_nodes_are_smoothed() {
    let mut set = numbered(3, 3);
    let cells = vec![(1, 1)];
    set.seed_weights(&cells);
    let smoothed = RefCell::new(Vec::new());
    set.interpolate(
        &[0],
        &[0],
        &cells,
        1,
        &stay,
        &|node: Node<i64>, _| {
            smoothed.borrow_mut().push((node.i, node.j));
            -1
        },
        &|_| true,
    );
    let smoothed = smoothed.into_inner();
    assert_eq!(smoothed.len(), 5 * 7);
    assert_eq!(&smoothed[..5], &[(0, 0), (0, 1), (0, 2), (1, 0), (2, 0)]);
    for i in 0..3 {
        for j in 0..3 {
            let node = set.get_node(i, j);
            if i >= 1 && j >= 1 {
                assert_eq!(node.interp, node.source);
                assert_eq!(node.weight, 1);
            } else {
                assert_eq!(node.interp, -1);
                assert_eq!(node.weight, 0);
            }
        }
    }
}

#[test]
fn the_fit_keeps_places_sources_and_weights() {
    let mut set = numbered(4, 3);
    let cells = vec![(0, 0), (1, 2), (0, 0)];
    set.seed_weights(&cells);
    let weights: Vec<u64> = (0..12).map(|k| set.get_node(k / 4, k % 4).weight).collect();
    set.interpolate(
        &[1, 2, 3],
        &[4, 5, 6],
        &cells,
        3,
        &|s, i, a: Corner<i64>, b: Corner<i64>, c: Corner<i64>, d: Corner<i64>| {
            (a.node.interp + s, b.node.interp - i, c.node.interp * 2, d.node.interp)
        },
        &|node: Node<i64>, neighbours: Smoothing<i64>| node.interp + neighbours.divisor() as i64,
        &|l| l > 7,
    );
    for i in 0..3 {
        for j in 0..4 {
            let node = set.get_node(i, j);
            assert_eq!((node.i, node.j), (i, j));
            assert_eq!(node.source, (100 * i + j) as i64);
            assert_eq!(node.weight, weights[i * 4 + j]);
        }
    }
    assert_eq!(set.len(), 12);
}
