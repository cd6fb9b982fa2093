use gol::{Cell, ConstructionError, OutOfBounds, Point, Rule, Sandbox};

fn grid(width: isize, height: isize) -> Sandbox {
    Sandbox::new(width, height).unwrap()
}

fn set(g: &mut Sandbox, x: isize, y: isize, cell: Cell) {
    g.write_cell(Point::new(x, y), cell).unwrap();
}

fn at(g: &Sandbox, x: isize, y: isize) -> Cell {
    *g.get_cell(Point::new(x, y)).unwrap()
}

fn alive_positions(g: &Sandbox) -> Vec<(isize, isize)> {
    let mut out = Vec::new();
    for y in 0..g.height() {
        for x in 0..g.width() {
            if at(g, x, y).is_alive() {
                out.push((x, y));
            }
        }
    }
    out
}

#[test]
fn new_rejects_zero_and_negative_dimensions() {
    assert_eq!(Sandbox::new(0, 3).err(), Some(ConstructionError::NonPositiveDimension));
    assert_eq!(Sandbox::new(3, 0).err(), Some(ConstructionError::NonPositiveDimension));
    assert_eq!(Sandbox::new(-1, 3).err(), Some(ConstructionError::NonPositiveDimension));
    assert_eq!(Sandbox::new(3, -2).err(), Some(ConstructionError::NonPositiveDimension));
    assert_eq!(Sandbox::new(-4, -4).err(), Some(ConstructionError::NonPositiveDimension));
}

#[test]
fn new_grid_is_all_dead() {
    let g = grid(4, 3);
    assert_eq!(g.width(), 4);
    assert_eq!(g.height(), 3);
    assert_eq!(g.area(), 12);
    for y in 0..3 {
        for x in 0..4 {
            assert_eq!(at(&g, x, y), Cell::Dead);
        }
    }
    let one = grid(1, 1);
    assert_eq!(one.area(), 1);
    assert_eq!(at(&one, 0, 0), Cell::Dead);
}

#[test]
fn access_outside_the_grid_fails() {
    let mut g = grid(3, 2);
    for (x, y) in [(-1, 0), (0, -1), (3, 0), (0, 2), (5, 5)] {
        let p = Point::new(x, y);
        assert_eq!(g.get_cell(p).err(), Some(OutOfBounds { point: p }));
        assert_eq!(g.write_cell(p, Cell::Alive(1)), Err(OutOfBounds { point: p }));
        assert_eq!(g.read_moore_neighbourhood(p).err(), Some(OutOfBounds { point: p }));
    }
    assert!(alive_positions(&g).is_empty());
}

#[test]
fn write_changes_exactly_one_cell() {
    let mut g = grid(3, 2);
    set(&mut g, 2, 1, Cell::Alive(-7));
    assert_eq!(at(&g, 2, 1), Cell::Alive(-7));
    assert_eq!(alive_positions(&g), vec![(2, 1)]);
    *g.get_cell_mut(Point::new(0, 1)) = Cell::Alive(3);
    assert_eq!(at(&g, 0, 1), Cell::Alive(3));
    assert_eq!(alive_positions(&g), vec![(0, 1), (2, 1)]);
}

#[test]
fn neighbour_count_by_position() {
    let g = grid(3, 3);
    let count = |x, y| g.read_moore_neighbourhood(Point::new(x, y)).unwrap().len();
    assert_eq!(count(0, 0), 3);
    assert_eq!(count(2, 2), 3);
    assert_eq!(count(1, 0), 5);
    assert_eq!(count(0, 1), 5);
    assert_eq!(count(1, 1), 8);
}

#[test]
fn neighbour_count_in_thin_grids() {
    let row = grid(4, 1);
    assert_eq!(row.read_moore_neighbourhood(Point::new(0, 0)).unwrap().len(), 1);
    assert_eq!(row.read_moore_neighbourhood(Point::new(2, 0)).unwrap().len(), 2);
    let one = grid(1, 1);
    assert!(one.read_moore_neighbourhood(Point::new(0, 0)).unwrap().is_empty());
}

#[test]
fn neighbourhood_is_row_major() {
    let mut g = grid(3, 3);
    let mut strength: i8 = 1;
    for y in 0..3 {
        for x in 0..3 {
            set(&mut g, x, y, Cell::Alive(strength));
            strength += 1;
        }
    }
    let all: Vec<Cell> = [1, 2, 3, 4, 6, 7, 8, 9].iter().map(|&s| Cell::Alive(s)).collect();
    assert_eq!(g.read_moore_neighbourhood(Point::new(1, 1)).unwrap(), all);
    let corner: Vec<Cell> = [2, 4, 5].iter().map(|&s| Cell::Alive(s)).collect();
    assert_eq!(g.read_moore_neighbourhood(Point::new(0, 0)).unwrap(), corner);
    let edge: Vec<Cell> = [4, 5, 6, 7, 9].iter().map(|&s| Cell::Alive(s)).collect();
    assert_eq!(g.read_moore_neighbourhood(Point::new(1, 2)).unwrap(), edge);
}

#[test]
fn corner_does_not_wrap_around() {
    let mut g = grid(4, 3);
    set(&mut g, 3, 2, Cell::Alive(1));
    set(&mut g, 3, 0, Cell::Alive(1));
    set(&mut g, 0, 2, Cell::Alive(1));
    let n = g.read_moore_neighbourhood(Point::new(0, 0)).unwrap();
    assert_eq!(n.len(), 3);
    assert!(n.iter().all(|c| c.is_dead()));
}

#[test]
fn classic_full_block_keeps_only_corners() {
    let mut g = grid(3, 3);
    for y in 0..3 {
        for x in 0..3 {
            set(&mut g, x, y, Cell::Alive(0));
        }
    }
    g.step(Rule::Classic);
    assert_eq!(alive_positions(&g), vec![(0, 0), (2, 0), (0, 2), (2, 2)]);
}

#[test]
fn classic_birth_needs_exactly_three() {
    for (alive, expected) in [(2usize, false), (3, true), (4, false)] {
        let mut g = grid(3, 3);
        let around = [(0, 0), (1, 0), (2, 0), (0, 1)];
        for &(x, y) in around.iter().take(alive) {
            set(&mut g, x, y, Cell::Alive(0));
        }
        g.step(Rule::Classic);
        assert_eq!(at(&g, 1, 1).is_alive(), expected, "{} neighbours", alive);
    }
}

#[test]
fn classic_survival_bounds() {
    for (alive, expected) in [(1usize, false), (2, true), (3, true), (4, false), (5, false)] {
        let mut g = grid(3, 3);
        set(&mut g, 1, 1, Cell::Alive(0));
        let around = [(0, 0), (1, 0), (2, 0), (0, 1), (2, 1)];
        for &(x, y) in around.iter().take(alive) {
            set(&mut g, x, y, Cell::Alive(0));
        }
        g.step(Rule::Classic);
        assert_eq!(at(&g, 1, 1).is_alive(), expected, "{} neighbours", alive);
    }
}

#[test]
fn war_takeover_by_team() {
    let mut g = grid(3, 3);
    set(&mut g, 0, 0, Cell::Alive(1));
    set(&mut g, 1, 0, Cell::Alive(1));
    set(&mut g, 2, 0, Cell::Alive(1));
    g.step(Rule::War);
    assert_eq!(at(&g, 1, 1), Cell::Alive(1));

    let mut g = grid(3, 3);
    set(&mut g, 0, 2, Cell::Alive(-1));
    set(&mut g, 1, 2, Cell::Alive(-1));
    set(&mut g, 2, 2, Cell::Alive(-1));
    g.step(Rule::War);
    assert_eq!(at(&g, 1, 1), Cell::Alive(-1));
}

#[test]
fn war_boundary_totals_die() {
    // Totals at the centre: 0, 1, -1, 4, -4.
    let cases: [&[i8]; 5] = [&[1, -1], &[1], &[-1], &[1, 1, 1, 1], &[-1, -1, -1, -1]];
    for strengths in cases {
        let mut g = grid(3, 3);
        let around = [(0, 0), (1, 0), (2, 0), (0, 1)];
        for (&(x, y), &s) in around.iter().zip(strengths.iter()) {
            set(&mut g, x, y, Cell::Alive(s));
        }
        g.step(Rule::War);
        assert_eq!(at(&g, 1, 1), Cell::Dead, "strengths {:?}", strengths);
    }
}

#[test]
fn all_dead_grid_stays_dead() {
    for rule in [Rule::Classic, Rule::War] {
        let mut g = grid(5, 4);
        g.step(rule);
        assert!(alive_positions(&g).is_empty());
        assert_eq!(g.width(), 5);
        assert_eq!(g.height(), 4);
    }
}

#[test]
fn step_reads_only_the_previous_generation() {
    // A horizontal blinker turns vertical. Were the cells updated in place,
    // (1, 1) would die before (2, 1) counted it, and the result would differ.
    let mut g = grid(5, 5);
    set(&mut g, 1, 2, Cell::Alive(0));
    set(&mut g, 2, 2, Cell::Alive(0));
    set(&mut g, 3, 2, Cell::Alive(0));
    g.step(Rule::Classic);
    assert_eq!(alive_positions(&g), vec![(2, 1), (2, 2), (2, 3)]);
    g.step(Rule::Classic);
    assert_eq!(alive_positions(&g), vec![(1, 2), (2, 2), (3, 2)]);
}

#[test]
fn war_step_reads_only_the_previous_generation() {
    // Read from the old generation, the middle cell sees 3 - 1 + 1 = 3 and
    // lives. Had the left cell's new strength of 1 been visible, it would
    // see 1 - 1 + 1 = 1 and die.
    let mut g = grid(3, 1);
    set(&mut g, 0, 0, Cell::Alive(3));
    set(&mut g, 1, 0, Cell::Alive(-1));
    set(&mut g, 2, 0, Cell::Alive(1));
    g.step(Rule::War);
    assert_eq!(at(&g, 0, 0), Cell::Alive(1));
    assert_eq!(at(&g, 1, 0), Cell::Alive(1));
    assert_eq!(at(&g, 2, 0), Cell::Dead);
}
