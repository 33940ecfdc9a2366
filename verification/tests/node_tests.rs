use distance_cartogram::node::Corner;
use distance_cartogram::node::Node;
use distance_cartogram::node::NodeSet;
use distance_cartogram::node::Smoothing;
use std::cell::RefCell;

/// A lattice whose node at row `i` and column `j` lies at `100 * i + j`.
fn numbered(width: usize, height: usize) -> NodeSet<i64> {
    NodeSet::new(width, height, |i, j| (100 * i + j) as i64)
}

#[test]
fn new_node_is_free_and_has_not_moved() {
    let node = Node::new(3, 4, (1.5, -2.0));
    assert_eq!(node.i, 3);
    assert_eq!(node.j, 4);
    assert_eq!(node.source, (1.5, -2.0));
    assert_eq!(node.interp, (1.5, -2.0));
    assert_eq!(node.weight, 0);
}

#[test]
fn new_lattice_places_every_node() {
    let set = numbered(4, 3);
    assert_eq!(set.width(), 4);
    assert_eq!(set.height(), 3);
    assert_eq!(set.grid_dimensions(), (4, 3));
    for i in 0..3 {
        for j in 0..4 {
            let node = set.get_node(i, j);
            assert_eq!(node.i, i);
            assert_eq!(node.j, j);
            assert_eq!(node.source, (100 * i + j) as i64);
            assert_eq!(node.interp, node.source);
            assert_eq!(node.weight, 0);
        }
    }
}

#[test]
fn in_grid_is_the_bounds_test() {
    let set = numbered(4, 3);
    assert!(set.is_in_grid(0, 0));
    assert!(set.is_in_grid(2, 3));
    assert!(!set.is_in_grid(3, 0));
    assert!(!set.is_in_grid(0, 4));
    assert!(!set.is_in_grid(-1, 0));
    assert!(!set.is_in_grid(0, -1));
    assert!(!set.is_in_grid(isize::MIN, isize::MAX));
}

#[test]
fn mutable_node_changes_one_node() {
    let mut set = numbered(3, 3);
    {
        let node = set.get_mut_node(1, 2);
        node.interp = -7;
        node.weight = 5;
    }
    for i in 0..3 {
        for j in 0..3 {
            let node = set.get_node(i, j);
            if (i, j) == (1, 2) {
                assert_eq!(node.interp, -7);
                assert_eq!(node.weight, 5);
                assert_eq!(node.source, 102);
            } else {
                assert_eq!(node.interp, node.source);
                assert_eq!(node.weight, 0);
            }
        }
    }
}

#[test]
fn set_interp_moves_one_node_in_the_image_plane() {
    let mut set = numbered(3, 2);
    set.set_interp(1, 0, 55);
    assert_eq!(set.get_node(1, 0).interp, 55);
    assert_eq!(set.get_node(1, 0).source, 100);
    assert_eq!(set.get_node(1, 0).i, 1);
    assert_eq!(set.get_node(1, 0).j, 0);
    assert_eq!(set.get_node(0, 0).interp, 0);
    assert_eq!(set.get_node(1, 1).interp, 101);
}

#[test]
fn adjacent_nodes_come_in_the_fixed_order() {
    let set = numbered(4, 4);
    let corners = set.get_adjacent_nodes(1, 2);
    let places: Vec<(usize, usize)> = corners.iter().map(|node| (node.i, node.j)).collect();
    assert_eq!(places, vec![(1, 2), (1, 3), (2, 2), (2, 3)]);
    let sources: Vec<i64> = corners.iter().map(|node| node.source).collect();
    assert_eq!(sources, vec![102, 103, 202, 203]);
}

#[test]
fn adjacent_nodes_of_the_last_cell() {
    let set = numbered(3, 3);
    let corners = set.get_adjacent_nodes(1, 1);
    let sources: Vec<i64> = corners.iter().map(|node| node.source).collect();
    assert_eq!(sources, vec![101, 102, 201, 202]);
}

#[test]
fn update_adjacent_node_reaches_each_corner() {
    for (k, place) in [(0usize, (1usize, 1usize)), (1, (1, 2)), (2, (2, 1)), (3, (2, 2)), (9, (2, 2))] {
        let mut set = numbered(4, 4);
        set.update_adjacent_node(1, 1, k, |mut node| {
            node.interp += 1000;
            node
        });
        for i in 0..4 {
            for j in 0..4 {
                let node = set.get_node(i, j);
                if (i, j) == place {
                    assert_eq!(node.interp, node.source + 1000, "corner {}", k);
                } else {
                    assert_eq!(node.interp, node.source, "corner {}", k);
                }
            }
        }
    }
}

#[test]
fn weights_grow_at_the_four_corners() {
    let mut set = numbered(4, 3);
    set.set_weight_adjacent_nodes(1, 2, 3);
    for i in 0..3 {
        for j in 0..4 {
            let expected = if (i == 1 || i == 2) && (j == 2 || j == 3) { 3 } else { 0 };
            assert_eq!(set.get_node(i, j).weight, expected);
        }
    }
    set.set_weight_adjacent_nodes(1, 2, 2);
    assert_eq!(set.get_node(2, 3).weight, 5);
}

#[test]
fn seeding_counts_the_cells_at_each_corner() {
    let mut set = numbered(4, 4);
    set.seed_weights(&vec![(0, 0), (0, 1), (1, 1), (0, 0)]);
    let expected = [[2, 3, 1, 0], [2, 4, 2, 0], [0, 1, 1, 0], [0, 0, 0, 0]];
    for i in 0..4 {
        for j in 0..4 {
            assert_eq!(set.get_node(i, j).weight, expected[i][j], "at ({}, {})", i, j);
        }
    }
}

#[test]
fn seeding_leaves_no_corner_of_a_seeded_cell_free() {
    let cells = vec![(2, 0), (0, 3), (1, 1)];
    let mut set = numbered(5, 4);
    set.seed_weights(&cells);
    for &(row, col) in &cells {
        for node in set.get_adjacent_nodes(row, col) {
            assert!(node.weight >= 1);
        }
    }
}

#[test]
fn seeding_nothing_changes_nothing() {
    let mut set = numbered(3, 3);
    set.seed_weights(&Vec::new());
    for i in 0..3 {
        for j in 0..3 {
            assert_eq!(set.get_node(i, j).weight, 0);
        }
    }
}

#[test]
fn interior_node_has_twelve_neighbours() {
    let set = numbered(5, 5);
    match set.get_smoothing(2, 2) {
        Smoothing::Interior {
            north,
            south,
            west,
            east,
            north_west,
            south_west,
            south_east,
            north_east,
            north_north,
            south_south,
            west_west,
            east_east,
        } => {
            assert_eq!((north, south, west, east), (102, 302, 201, 203));
            assert_eq!((north_west, south_west, south_east, north_east), (101, 301, 303, 103));
            assert_eq!((north_north, south_south, west_west, east_east), (2, 402, 200, 204));
        }
        Smoothing::Border { .. } => panic!("the centre of a 5 by 5 lattice is interior"),
    }
    assert_eq!(set.get_smoothing(2, 2).divisor(), 20);
}

#[test]
fn only_nodes_two_steps_from_the_rim_are_interior() {
    let set = numbered(6, 5);
    for i in 0..5 {
        for j in 0..6 {
            let interior = matches!(set.get_smoothing(i, j), Smoothing::Interior { .. });
            assert_eq!(interior, i == 2 && (j == 2 || j == 3), "at ({}, {})", i, j);
        }
    }
}

#[test]
fn border_node_has_the_neighbours_that_exist() {
    let set = numbered(4, 3);
    match set.get_smoothing(0, 0) {
        Smoothing::Border { north, west, south, east } => {
            assert_eq!((north, west, south, east), (None, None, Some(100), Some(1)));
        }
        Smoothing::Interior { .. } => panic!("a corner is on the rim"),
    }
    match set.get_smoothing(2, 3) {
        Smoothing::Border { north, west, south, east } => {
            assert_eq!((north, west, south, east), (Some(103), Some(202), None, None));
        }
        Smoothing::Interior { .. } => panic!("a corner is on the rim"),
    }
    match set.get_smoothing(1, 0) {
        Smoothing::Border { north, west, south, east } => {
            assert_eq!((north, west, south, east), (Some(0), None, Some(200), Some(101)));
        }
        Smoothing::Interior { .. } => panic!("the west edge is on the rim"),
    }
    match set.get_smoothing(1, 1) {
        Smoothing::Border { north, west, south, east } => {
            assert_eq!((north, west, south, east), (Some(1), Some(100), Some(201), Some(102)));
        }
        Smoothing::Interior { .. } => panic!("a node next to the rim is smoothed as a border node"),
    }
}

#[test]
fn divisor_counts_the_neighbours_that_exist() {
    let set = numbered(4, 3);
    assert_eq!(set.get_smoothing(0, 0).divisor(), 2);
    assert_eq!(set.get_smoothing(0, 1).divisor(), 3);
    assert_eq!(set.get_smoothing(1, 1).divisor(), 4);
    assert_eq!(set.get_smoothing(2, 3).divisor(), 2);
    let smallest = numbered(2, 2);
    for i in 0..2 {
        for j in 0..2 {
            assert_eq!(smallest.get_smoothing(i, j).divisor(), 2);
        }
    }
}

#[test]
fn smoothing_reads_the_interpolated_positions() {
    let mut set = numbered(3, 3);
    set.set_interp(0, 1, -5);
    match set.get_smoothing(1, 1) {
        Smoothing::Border { north, .. } => assert_eq!(north, Some(-5)),
        Smoothing::Interior { .. } => panic!("a 3 by 3 lattice has no interior node"),
    }
}

#[test]
fn adjust_cell_shows_the_corners_before_any_moves() {
    let mut set = numbered(4, 4);
    let seen: RefCell<Vec<Corner<i64>>> = RefCell::new(Vec::new());
    set.adjust_cell(1, 1, |a, b, c, d| {
        seen.borrow_mut().extend([a, b, c, d]);
        (-1, -2, -3, -4)
    });
    let seen = seen.into_inner();
    let sources: Vec<i64> = seen.iter().map(|corner| corner.node.source).collect();
    assert_eq!(sources, vec![101, 102, 201, 202]);
    // The top right corner is smoothed with the top left one as it was.
    match seen[1].smoothing {
        Smoothing::Border { west, .. } => assert_eq!(west, Some(101)),
        Smoothing::Interior { .. } => panic!("a 4 by 4 lattice has no interior node"),
    }
    assert_eq!(set.get_node(1, 1).interp, -1);
    assert_eq!(set.get_node(1, 2).interp, -2);
    assert_eq!(set.get_node(2, 1).interp, -3);
    assert_eq!(set.get_node(2, 2).interp, -4);
}

#[test]
fn adjust_cell_moves_nothing_but_the_four_corners() {
    let mut set = numbered(4, 4);
    set.seed_weights(&vec![(0, 0)]);
    set.adjust_cell(2, 2, |a, b, c, d| {
        (a.node.interp + 1, b.node.interp + 2, c.node.interp + 3, d.node.interp + 4)
    });
    for i in 0..4 {
        for j in 0..4 {
            let node = set.get_node(i, j);
            let moved = match (i, j) {
                (2, 2) => 1,
                (2, 3) => 2,
                (3, 2) => 3,
                (3, 3) => 4,
                _ => 0,
            };
            assert_eq!(node.interp, node.source + moved);
            assert_eq!(node.source, (100 * i + j) as i64);
            assert_eq!((node.i, node.j), (i, j));
            assert_eq!(node.weight, if i < 2 && j < 2 { 1 } else { 0 });
        }
    }
}

#[test]
fn smooth_pass_leaves_weighted_nodes_alone() {
    let mut set = numbered(3, 3);
    set.seed_weights(&vec![(0, 0)]);
    set.smooth_pass(&|_node: Node<i64>, _neighbours: Smoothing<i64>| -1);
    for i in 0..3 {
        for j in 0..3 {
            let node = set.get_node(i, j);
            if i < 2 && j < 2 {
                assert_eq!(node.interp, node.source);
                assert_eq!(node.weight, 1);
            } else {
                assert_eq!(node.interp, -1);
                assert_eq!(node.weight, 0);
            }
            assert_eq!(node.source, (100 * i + j) as i64);
        }
    }
}

#[test]
fn smooth_pass_takes_the_nodes_row_by_row() {
    let mut set = numbered(3, 2);
    let order = RefCell::new(Vec::new());
    set.smooth_pass(&|node: Node<i64>, _neighbours: Smoothing<i64>| {
        order.borrow_mut().push((node.i, node.j));
        node.interp
    });
    assert_eq!(order.into_inner(), vec![(0, 0), (0, 1), (0, 2), (1, 0), (1, 1), (1, 2)]);
}

#[test]
fn smooth_pass_shows_each_node_the_moves_before_it() {
    // Every node moves to one more than its western neighbour, or to zero
    // on the west edge: a row ends up as 0, 1, 2, ... only if each node sees
    // where the node before it has just gone.
    let mut set = numbered(4, 2);
    set.smooth_pass(&|_node: Node<i64>, neighbours: Smoothing<i64>| match neighbours {
        Smoothing::Border { west: Some(west), .. } => west + 1,
        _ => 0,
    });
    for i in 0..2 {
        for j in 0..4 {
            assert_eq!(set.get_node(i, j).interp, j as i64);
        }
    }
}

#[test]
fn smooth_pass_shows_each_node_the_rows_below_as_they_were() {
    let mut set = numbered(2, 3);
    set.smooth_pass(&|_node: Node<i64>, neighbours: Smoothing<i64>| match neighbours {
        Smoothing::Border { south: Some(south), .. } => south,
        _ => -9,
    });
    assert_eq!(set.get_node(0, 0).interp, 100);
    assert_eq!(set.get_node(1, 1).interp, 201);
    assert_eq!(set.get_node(2, 0).interp, -9);
}

#[test]
fn smoothed_position_is_made_of_the_neighbours() {
    let set = numbered(4, 3);
    let mean = set.get_smoothed(1, 1, |neighbours| match neighbours {
        Smoothing::Border { north, west, south, east } => {
            let all = [north, west, south, east];
            all.iter().flatten().sum::<i64>() / neighbours.divisor() as i64
        }
        Smoothing::Interior { .. } => panic!("a 4 by 3 lattice has no interior node"),
    });
    assert_eq!(mean, (1 + 100 + 201 + 102) / 4);
    let corner = set.get_smoothed(0, 0, |neighbours| match neighbours {
        Smoothing::Border { north: None, west: None, south: Some(south), east: Some(east) } => south + east,
        _ => panic!("the top left corner has a southern and an eastern neighbour only"),
    });
    assert_eq!(corner, 101);
}
