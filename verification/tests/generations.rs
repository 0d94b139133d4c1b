use game_of_life::cell_list::GlobalCellList;
use game_of_life::coordinate::Coordinate;
use game_of_life::grid::LifeGrid;

fn coords(cells: &[(i64, i64)]) -> Vec<Coordinate> {
    cells.iter().map(|&(x, y)| Coordinate::new(x, y)).collect()
}

fn sorted(cells: &[Coordinate]) -> Vec<(i64, i64)> {
    let mut out: Vec<(i64, i64)> = cells.iter().map(|c| (c.x, c.y)).collect();
    out.sort();
    out
}

fn sorted_pairs(cells: &[(i64, i64)]) -> Vec<(i64, i64)> {
    let mut out = cells.to_vec();
    out.sort();
    out
}

fn live(grid: &LifeGrid) -> Vec<(i64, i64)> {
    sorted(&grid.current_live())
}

fn listed(list: &GlobalCellList) -> Vec<(i64, i64)> {
    sorted(list.cells())
}

#[test]
fn empty_grid_is_stable() {
    let mut grid = LifeGrid::seed(&[]);
    let (born, dead) = grid.advance();
    assert!(grid.current_live().is_empty());
    assert!(born.cells().is_empty());
    assert!(dead.cells().is_empty());
}

#[test]
fn block_is_a_still_life() {
    let block = [(0, 0), (1, 0), (0, 1), (1, 1)];
    let mut grid = LifeGrid::seed(&coords(&block));
    for cell in coords(&block) {
        assert_eq!(grid.neighbor_count(cell), 3);
    }
    for _ in 0..5 {
        let (born, dead) = grid.advance();
        assert!(born.cells().is_empty());
        assert!(dead.cells().is_empty());
        assert_eq!(live(&grid), sorted_pairs(&block));
    }
}

#[test]
fn blinker_oscillates_with_period_two() {
    let horizontal = [(-1, 0), (0, 0), (1, 0)];
    let vertical = [(0, -1), (0, 0), (0, 1)];
    let mut grid = LifeGrid::seed(&coords(&horizontal));

    let (born, dead) = grid.advance();
    assert_eq!(live(&grid), sorted_pairs(&vertical));
    assert_eq!(listed(&born), vec![(0, -1), (0, 1)]);
    assert_eq!(listed(&dead), vec![(-1, 0), (1, 0)]);

    let (born, dead) = grid.advance();
    assert_eq!(live(&grid), sorted_pairs(&horizontal));
    assert_eq!(listed(&born), vec![(-1, 0), (1, 0)]);
    assert_eq!(listed(&dead), vec![(0, -1), (0, 1)]);
}

#[test]
fn glider_moves_one_cell_diagonally_in_four_generations() {
    let glider = [(1, 0), (0, 1), (0, 2), (1, 2), (2, 2)];
    let mut grid = LifeGrid::seed(&coords(&glider));
    for _ in 0..4 {
        grid.advance();
    }
    let moved: Vec<(i64, i64)> = glider.iter().map(|&(x, y)| (x - 1, y + 1)).collect();
    assert_eq!(live(&grid), sorted_pairs(&moved));
    assert_eq!(live(&grid), vec![(-1, 2), (-1, 3), (0, 1), (0, 3), (1, 3)]);
}

#[test]
fn mirrored_glider_moves_the_other_way() {
    let glider = [(1, 0), (2, 1), (0, 2), (1, 2), (2, 2)];
    let mut grid = LifeGrid::seed(&coords(&glider));
    for _ in 0..4 {
        grid.advance();
    }
    let moved: Vec<(i64, i64)> = glider.iter().map(|&(x, y)| (x + 1, y + 1)).collect();
    assert_eq!(live(&grid), sorted_pairs(&moved));
}

#[test]
fn glider_keeps_five_cells_and_its_shape_over_many_generations() {
    let glider = [(1, 0), (0, 1), (0, 2), (1, 2), (2, 2)];
    let mut grid = LifeGrid::seed(&coords(&glider));
    for round in 1..=10i64 {
        for _ in 0..4 {
            grid.advance();
        }
        let moved: Vec<(i64, i64)> =
            glider.iter().map(|&(x, y)| (x - round, y + round)).collect();
        assert_eq!(live(&grid), sorted_pairs(&moved));
    }
}

#[test]
fn glider_first_generation() {
    let mut grid = LifeGrid::seed(&coords(&[(1, 0), (0, 1), (0, 2), (1, 2), (2, 2)]));
    let (born, dead) = grid.advance();
    assert_eq!(live(&grid), vec![(0, 1), (0, 2), (1, 2), (1, 3), (2, 1)]);
    assert_eq!(listed(&born), vec![(1, 3), (2, 1)]);
    assert_eq!(listed(&dead), vec![(1, 0), (2, 2)]);
}

#[test]
fn advance_is_deterministic() {
    let pattern = coords(&[(0, 0), (1, 0), (2, 0), (2, 1), (1, 2), (5, 5), (5, 6), (6, 5)]);
    let mut reversed = pattern.clone();
    reversed.reverse();
    let mut first = LifeGrid::seed(&pattern);
    let mut second = LifeGrid::seed(&pattern);
    let mut third = LifeGrid::seed(&reversed);
    for _ in 0..12 {
        let (born_1, dead_1) = first.advance();
        let (born_2, dead_2) = second.advance();
        let (born_3, dead_3) = third.advance();
        assert_eq!(live(&first), live(&second));
        assert_eq!(listed(&born_1), listed(&born_2));
        assert_eq!(listed(&dead_1), listed(&dead_2));
        assert_eq!(live(&first), live(&third));
        assert_eq!(listed(&born_1), listed(&born_3));
        assert_eq!(listed(&dead_1), listed(&dead_3));
    }
}

#[test]
fn empty_cell_with_three_neighbours_is_born() {
    let mut grid = LifeGrid::seed(&coords(&[(0, 0), (2, 0), (1, 2)]));
    let target = Coordinate::new(1, 1);
    assert_eq!(grid.neighbor_count(target), 3);
    let (born, dead) = grid.advance();
    assert_eq!(listed(&born), vec![(1, 1)]);
    assert_eq!(listed(&dead), vec![(0, 0), (1, 2), (2, 0)]);
    assert_eq!(live(&grid), vec![(1, 1)]);
}

#[test]
fn empty_cell_with_two_or_four_neighbours_stays_empty() {
    let mut two = LifeGrid::seed(&coords(&[(0, 0), (2, 0)]));
    assert_eq!(two.neighbor_count(Coordinate::new(1, 1)), 2);
    two.advance();
    assert!(live(&two).is_empty());

    let mut four = LifeGrid::seed(&coords(&[(0, 0), (2, 0), (0, 2), (2, 2)]));
    assert_eq!(four.neighbor_count(Coordinate::new(1, 1)), 4);
    let (born, dead) = four.advance();
    assert!(born.cells().is_empty());
    assert_eq!(dead.cells().len(), 4);
    assert!(live(&four).is_empty());
}

#[test]
fn live_cell_survives_with_two_or_three_neighbours() {
    // The middle of a diagonal has two neighbours, its ends have one.
    let mut diagonal = LifeGrid::seed(&coords(&[(0, 0), (1, 1), (2, 2)]));
    let (born, dead) = diagonal.advance();
    assert!(born.cells().is_empty());
    assert_eq!(listed(&dead), vec![(0, 0), (2, 2)]);
    assert_eq!(live(&diagonal), vec![(1, 1)]);

    // The corner of an L has three neighbours once the fourth cell is born.
    let mut corner = LifeGrid::seed(&coords(&[(0, 0), (1, 0), (0, 1)]));
    let (born, dead) = corner.advance();
    assert_eq!(listed(&born), vec![(1, 1)]);
    assert!(dead.cells().is_empty());
    assert_eq!(live(&corner), vec![(0, 0), (0, 1), (1, 0), (1, 1)]);
}

#[test]
fn live_cell_dies_of_loneliness_and_of_crowding() {
    let mut lonely = LifeGrid::seed(&coords(&[(7, -3)]));
    let (born, dead) = lonely.advance();
    assert!(born.cells().is_empty());
    assert_eq!(listed(&dead), vec![(7, -3)]);
    assert!(live(&lonely).is_empty());

    // A plus sign: the centre has four neighbours, each arm has one
    // orthogonal neighbour in the centre and none else.
    let plus = [(0, 0), (1, 0), (-1, 0), (0, 1), (0, -1)];
    let mut crowded = LifeGrid::seed(&coords(&plus));
    assert_eq!(crowded.neighbor_count(Coordinate::new(0, 0)), 4);
    let (_, dead) = crowded.advance();
    assert!(listed(&dead).contains(&(0, 0)));
    assert!(!live(&crowded).contains(&(0, 0)));
    assert_eq!(
        live(&crowded),
        vec![(-1, -1), (-1, 0), (-1, 1), (0, -1), (0, 1), (1, -1), (1, 0), (1, 1)]
    );
}

#[test]
fn current_live_never_repeats_a_cell() {
    // The R-pentomino grows for a long time.
    let mut grid = LifeGrid::seed(&coords(&[(1, 0), (2, 0), (0, 1), (1, 1), (1, 2)]));
    for _ in 0..60 {
        grid.advance();
        let cells = live(&grid);
        let mut unique = cells.clone();
        unique.dedup();
        assert_eq!(cells, unique);
        assert_eq!(cells.len(), grid.current_live().len());
    }
    assert!(!grid.current_live().is_empty());
}

#[test]
fn seed_removes_duplicates() {
    let grid = LifeGrid::seed(&coords(&[(3, 4), (3, 4), (0, 0), (3, 4), (0, 0)]));
    assert_eq!(grid.current_live().len(), 2);
    assert_eq!(live(&grid), vec![(0, 0), (3, 4)]);
}

#[test]
fn current_live_reflects_the_seed_before_the_first_tick() {
    let grid = LifeGrid::seed(&coords(&[(5, 5), (-2, 9), (0, 0)]));
    assert_eq!(live(&grid), vec![(-2, 9), (0, 0), (5, 5)]);
}

#[test]
fn births_and_deaths_are_the_differences_of_the_generations() {
    let mut grid = LifeGrid::seed(&coords(&[(1, 0), (2, 0), (0, 1), (1, 1), (1, 2)]));
    for _ in 0..20 {
        let before = live(&grid);
        let (born, dead) = grid.advance();
        let after = live(&grid);
        let expected_born: Vec<(i64, i64)> =
            after.iter().copied().filter(|c| !before.contains(c)).collect();
        let expected_dead: Vec<(i64, i64)> =
            before.iter().copied().filter(|c| !after.contains(c)).collect();
        assert_eq!(listed(&born), expected_born);
        assert_eq!(listed(&dead), expected_dead);
    }
}

#[test]
fn pattern_on_the_border_loses_the_births_beyond_it() {
    let max = i64::MAX;
    // A vertical blinker in the last column: of the two cells it would bear,
    // only the one on the grid is born.
    let mut grid = LifeGrid::seed(&coords(&[(max, -1), (max, 0), (max, 1)]));
    let (born, dead) = grid.advance();
    assert_eq!(listed(&born), vec![(max - 1, 0)]);
    assert_eq!(listed(&dead), vec![(max, -1), (max, 1)]);
    assert_eq!(live(&grid), vec![(max - 1, 0), (max, 0)]);
}

#[test]
fn far_corners_do_not_collide() {
    let grid = LifeGrid::seed(&coords(&[
        (i64::MIN, i64::MIN),
        (i64::MIN, i64::MAX),
        (i64::MAX, i64::MIN),
        (i64::MAX, i64::MAX),
        (0, -1),
        (-1, 0),
    ]));
    assert_eq!(grid.current_live().len(), 6);
    assert_eq!(grid.neighbor_count(Coordinate::new(i64::MAX, i64::MAX)), 0);
    assert_eq!(grid.neighbor_count(Coordinate::new(i64::MIN, i64::MIN)), 0);
    assert_eq!(grid.neighbor_count(Coordinate::new(0, 0)), 2);
    assert_eq!(grid.neighbor_count(Coordinate::new(-1, -1)), 2);
    assert_eq!(grid.neighbor_count(Coordinate::new(i64::MAX - 1, i64::MAX - 1)), 1);
}
