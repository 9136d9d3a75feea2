// The spatial index, queried around the origin of a 10 x 10 world with a
// one-cell step, in micro-cell units.

use evosim::gridlookup::GridLookup;

#[test]
fn basic_test() {
    let grid = GridLookup::<usize>::new(10_000_000, 10_000_000, 1_000_000, 1_000_000);
    let count = grid.get_within_step((0, 0)).len();
    assert_eq!(count, 0)
}

#[test]
fn basic_test_close() {
    let mut grid = GridLookup::<usize>::new(10_000_000, 10_000_000, 1_000_000, 1_000_000);
    grid.put((900_000, 0), 0);
    let count = grid.get_within_step((0, 0)).len();
    assert_eq!(count, 1)
}

#[test]
fn basic_test_far() {
    let mut grid = GridLookup::<usize>::new(10_000_000, 10_000_000, 1_000_000, 1_000_000);
    grid.put((1_100_000, 0), 0);
    let count = grid.get_within_step((0, 0)).len();
    assert_eq!(count, 0)
}

#[test]
fn basic_test_close_wrap() {
    let mut grid = GridLookup::<usize>::new(10_000_000, 10_000_000, 1_000_000, 1_000_000);
    grid.put((9_100_000, 0), 0);
    let count = grid.get_within_step((0, 0)).len();
    assert_eq!(count, 1)
}

#[test]
fn double_test_close_wrap() {
    let mut grid = GridLookup::<usize>::new(10_000_000, 10_000_000, 1_000_000, 1_000_000);
    grid.put((900_000, 0), 0);
    grid.put((9_100_000, 0), 1);
    let count = grid.get_within_step((0, 0)).len();
    assert_eq!(count, 2)
}

#[test]
fn test_close_far_wrap() {
    let mut grid = GridLookup::<usize>::new(10_000_000, 10_000_000, 1_000_000, 1_000_000);
    grid.put((900_000, 0), 0);
    grid.put((9_100_000, 0), 1);
    grid.put((0, 900_000), 2);
    grid.put((0, 1_100_000), 3);
    let count = grid.get_within_step((0, 0)).len();
    assert_eq!(count, 3)
}

#[test]
fn wrapped_neighbour_is_reflected() {
    // A point just across the seam comes back with its coordinate shifted
    // by a full period, so the caller's plain difference is the toroidal one.
    let mut grid = GridLookup::<usize>::new(10_000_000, 10_000_000, 1_000_000, 1_000_000);
    grid.put((9_100_000, 0), 7);
    let items = grid.get_within_step((0, 0));
    assert_eq!(items.len(), 1);
    assert_eq!(items[0], (-900_000, 0, 7));
}

#[test]
fn put_wraps_a_point_off_the_rectangle() {
    // A coordinate past the edge lands on its torus representative, so the
    // query from the origin still finds it, reflected across the seam.
    let mut grid = GridLookup::<usize>::new(10_000_000, 10_000_000, 1_000_000, 1_000_000);
    grid.put((10_900_000, 0), 5);
    let items = grid.get_within_step((0, 0));
    assert_eq!(items.len(), 1);
    assert_eq!(items[0], (900_000, 0, 5));
}

#[test]
fn query_sees_all_corners() {
    let mut grid = GridLookup::<usize>::new(10_000_000, 10_000_000, 1_000_000, 1_000_000);
    grid.put((9_500_000, 9_500_000), 0);
    grid.put((500_000, 9_500_000), 1);
    grid.put((9_500_000, 500_000), 2);
    grid.put((500_000, 500_000), 3);
    grid.put((5_000_000, 5_000_000), 4);
    let items = grid.get_within_step((0, 0));
    assert_eq!(items.len(), 4);
    let mut payloads: Vec<usize> = items.iter().map(|it| it.2).collect();
    payloads.sort();
    assert_eq!(payloads, vec![0, 1, 2, 3]);
}
