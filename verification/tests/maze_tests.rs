use quinti_maze::generate::DEFAULT_SEED;
use quinti_maze::maze::{
    find_path_to_exit, Cell, Coord, Direction, Maze, MazeGenerator, QuintiMaze, VisibleDoors,
    CELL_COUNT,
};

const ALL: [Direction; 6] = [
    Direction::North,
    Direction::South,
    Direction::East,
    Direction::West,
    Direction::Up,
    Direction::Down,
];

fn generated(seed: Option<u64>) -> QuintiMaze {
    let mut generator = MazeGenerator::default();
    generator.generate(seed);
    generator.take()
}

fn in_grid(c: &Coord) -> bool {
    (0..5).contains(&c.x) && (0..5).contains(&c.y) && (0..5).contains(&c.z)
}

fn all_cells() -> Vec<Coord> {
    let mut cells = Vec::new();
    for z in 0..5 {
        for y in 0..5 {
            for x in 0..5 {
                cells.push(Coord { x, y, z });
            }
        }
    }
    cells
}

#[test]
fn test_generate() {
    let mut generator = MazeGenerator::default();

    generator.generate(None);
}

#[test]
fn maze_test_generate() {
    let mut generator = MazeGenerator::default();

    generator.generate_with(None, false);
}

#[test]
fn test_solve() {
    let mut generator = MazeGenerator::default();

    generator.generate(None);

    let maze = generator.take();

    let (found, mut path) = find_path_to_exit(&maze, Coord::default());

    assert!(found);
    assert_eq!(path.len(), 14);
    assert_eq!(path.pop_back(), Some(Coord { x: 0, y: 0, z: 0 }));
    assert_eq!(path.front().unwrap(), &Coord { x: 4, y: 4, z: 5 });

    let mut generator = MazeGenerator::default();

    generator.generate(Some(13));

    let maze = generator.take();

    let (found, mut path) = find_path_to_exit(&maze, Coord::default());

    assert!(found);
    assert_eq!(path.len(), 18);
    assert_eq!(path.pop_back(), Some(Coord { x: 0, y: 0, z: 0 }));
    assert_eq!(path.front(), Some(&Coord { x: 4, y: 4, z: 5 }));
}

#[test]
fn default_seed_is_used_when_none_is_given() {
    assert_eq!(DEFAULT_SEED, 12);
    let a = generated(None);
    let b = generated(Some(12));
    for c in all_cells() {
        assert_eq!(a.get_cell(&c).doors, b.get_cell(&c).doors);
    }
}

#[test]
fn different_seeds_give_different_mazes() {
    let a = generated(Some(12));
    let b = generated(Some(13));
    assert!(all_cells().iter().any(|c| a.get_cell(c).doors != b.get_cell(c).doors));
}

#[test]
fn generating_twice_starts_from_a_blank_grid() {
    let mut generator = MazeGenerator::default();
    generator.generate(Some(5));
    generator.generate(Some(13));
    let again = generator.take();
    let once = generated(Some(13));
    for c in all_cells() {
        assert_eq!(again.get_cell(&c).doors, once.get_cell(&c).doors);
    }
}

#[test]
fn generated_doors_are_open_from_both_sides() {
    for seed in [None, Some(0), Some(13), Some(u64::MAX)] {
        let maze = generated(seed);
        for c in all_cells() {
            for d in ALL {
                let n = c.move_in_direction(d);
                if in_grid(&n) {
                    assert_eq!(maze.get_cell(&c).has_door(d), maze.get_cell(&n).has_door(d.opposite()));
                }
            }
        }
    }
}

#[test]
fn generated_maze_reaches_every_cell_as_a_tree() {
    for seed in [None, Some(1), Some(13)] {
        let maze = generated(seed);
        let mut passages = 0;
        for c in all_cells() {
            assert!(maze.get_cell(&c).visited);
            for d in ALL {
                if maze.get_cell(&c).has_door(d) && in_grid(&c.move_in_direction(d)) {
                    passages += 1;
                }
            }
        }
        assert_eq!(passages, 2 * (CELL_COUNT - 1));
    }
}

#[test]
fn only_the_corner_leads_outside() {
    let with_exit = generated(Some(13));
    let without = {
        let mut generator = MazeGenerator::default();
        generator.generate_with(Some(13), false);
        generator.take()
    };
    let corner = Coord { x: 4, y: 4, z: 4 };
    for c in all_cells() {
        for d in ALL {
            let leads_out = !in_grid(&c.move_in_direction(d));
            if leads_out {
                assert_eq!(with_exit.get_cell(&c).has_door(d), c == corner && d == Direction::Up);
                assert!(!without.get_cell(&c).has_door(d));
            } else {
                assert_eq!(with_exit.get_cell(&c).has_door(d), without.get_cell(&c).has_door(d));
            }
        }
    }
    let (found, path) = find_path_to_exit(&without, Coord::default());
    assert!(!found);
    assert_eq!(path.len(), 0);
}

#[test]
fn solved_path_walks_through_open_doors() {
    let maze = generated(Some(13));
    let start = Coord { x: 2, y: 3, z: 1 };
    let (found, path) = find_path_to_exit(&maze, start);
    assert!(found);
    let cells: Vec<Coord> = path.iter().copied().collect();
    assert_eq!(*cells.last().unwrap(), start);
    assert!(maze.is_win(&cells[0]));
    for i in 0..cells.len() - 1 {
        let from = cells[i + 1];
        let to = cells[i];
        assert!(!maze.is_win(&from));
        let d = from.direction_to(to);
        assert_eq!(from.move_in_direction(d), to);
        assert!(maze.get_cell(&from).has_door(d));
    }
}

#[test]
fn solver_finds_nothing_in_a_blank_maze() {
    let maze = QuintiMaze::default();
    let (found, path) = find_path_to_exit(&maze, Coord { x: 2, y: 2, z: 2 });
    assert!(!found);
    assert!(path.is_empty());
}

#[test]
fn solver_tries_up_before_the_other_doors() {
    let mut maze = QuintiMaze::default();
    let corner = Coord { x: 0, y: 0, z: 4 };
    maze.get_cell_mut(&corner).remove_wall(&Direction::North);
    maze.get_cell_mut(&corner).remove_wall(&Direction::West);
    let (found, path) = find_path_to_exit(&maze, corner);
    assert!(found);
    let cells: Vec<Coord> = path.iter().copied().collect();
    assert_eq!(cells, vec![Coord { x: -1, y: 0, z: 4 }, corner]);
    maze.get_cell_mut(&corner).remove_wall(&Direction::Up);
    let (_, path) = find_path_to_exit(&maze, corner);
    let cells: Vec<Coord> = path.iter().copied().collect();
    assert_eq!(cells, vec![Coord { x: 0, y: 0, z: 5 }, corner]);
}

#[test]
fn solver_does_not_step_straight_back() {
    let mut maze = QuintiMaze::default();
    let a = Coord { x: 1, y: 1, z: 1 };
    let b = Coord { x: 2, y: 1, z: 1 };
    maze.get_cell_mut(&a).remove_wall(&Direction::East);
    maze.get_cell_mut(&b).remove_wall(&Direction::West);
    let (found, path) = find_path_to_exit(&maze, a);
    assert!(!found);
    assert!(path.is_empty());
}

#[test]
fn is_win_at_the_boundary() {
    let maze = QuintiMaze::default();
    assert!(!maze.is_win(&Coord { x: 4, y: 4, z: 4 }));
    assert!(!maze.is_win(&Coord { x: 0, y: 0, z: 0 }));
    assert!(maze.is_win(&Coord { x: 5, y: 0, z: 0 }));
    assert!(maze.is_win(&Coord { x: 0, y: 5, z: 0 }));
    assert!(maze.is_win(&Coord { x: 0, y: 0, z: 5 }));
    assert!(maze.is_win(&Coord { x: -1, y: 0, z: 0 }));
    assert!(maze.is_win(&Coord { x: 0, y: -1, z: 0 }));
    assert!(maze.is_win(&Coord { x: 0, y: 0, z: -1 }));
    let small = Maze::<2, 3, 4>::default();
    assert!(!small.is_win(&Coord { x: 1, y: 2, z: 3 }));
    assert!(small.is_win(&Coord { x: 2, y: 2, z: 3 }));
    assert!(small.is_win(&Coord { x: 1, y: 3, z: 3 }));
    assert!(small.is_win(&Coord { x: 1, y: 2, z: 4 }));
    assert_eq!(Maze::<2, 3, 4>::dimensions(), (2, 3, 4));
    assert_eq!(QuintiMaze::dimensions(), (5, 5, 5));
    assert_eq!(CELL_COUNT, 125);
}

#[test]
fn opposite_is_an_involution() {
    assert_eq!(Direction::North.opposite(), Direction::South);
    assert_eq!(Direction::East.opposite(), Direction::West);
    assert_eq!(Direction::Up.opposite(), Direction::Down);
    for d in ALL {
        assert_ne!(d.opposite(), d);
        assert_eq!(d.opposite().opposite(), d);
    }
}

#[test]
fn directions_have_slots_and_labels() {
    let slots: Vec<usize> = ALL.iter().map(|d| d.index()).collect();
    assert_eq!(slots, vec![0, 1, 2, 3, 4, 5]);
    let labels: Vec<&str> = ALL.iter().map(|d| d.label()).collect();
    assert_eq!(labels, vec!["North", "South", "East", "West", "Up", "Down"]);
    assert_eq!(Direction::default(), Direction::North);
}

#[test]
fn relative_doors_follow_the_facing() {
    assert_eq!(VisibleDoors::Left.direction(Direction::East), Direction::North);
    assert_eq!(VisibleDoors::Right.direction(Direction::East), Direction::South);
    assert_eq!(VisibleDoors::Left.direction(Direction::South), Direction::East);
    assert_eq!(VisibleDoors::Right.direction(Direction::South), Direction::West);
    assert_eq!(VisibleDoors::Left.direction(Direction::West), Direction::South);
    assert_eq!(VisibleDoors::Right.direction(Direction::West), Direction::North);
    assert_eq!(VisibleDoors::Left.direction(Direction::North), Direction::West);
    assert_eq!(VisibleDoors::Right.direction(Direction::North), Direction::East);
    for facing in ALL {
        assert_eq!(VisibleDoors::Up.direction(facing), Direction::Up);
        assert_eq!(VisibleDoors::Down.direction(facing), Direction::Down);
        assert_eq!(VisibleDoors::Forward.direction(facing), facing);
    }
    assert_eq!(VisibleDoors::Left.direction_as_index(Direction::North), 3);
    assert_eq!(VisibleDoors::Up.direction_as_index(Direction::East), 4);
}

#[test]
fn moving_applies_a_unit_step() {
    let c = Coord { x: 1, y: 2, z: 3 };
    assert_eq!(c.move_in_direction(Direction::North), Coord { x: 1, y: 1, z: 3 });
    assert_eq!(c.move_in_direction(Direction::South), Coord { x: 1, y: 3, z: 3 });
    assert_eq!(c.move_in_direction(Direction::West), Coord { x: 0, y: 2, z: 3 });
    assert_eq!(c.move_in_direction(Direction::East), Coord { x: 2, y: 2, z: 3 });
    assert_eq!(c.move_in_direction(Direction::Up), Coord { x: 1, y: 2, z: 4 });
    assert_eq!(c.move_in_direction(Direction::Down), Coord { x: 1, y: 2, z: 2 });
    assert_eq!(Coord::default(), Coord { x: 0, y: 0, z: 0 });
}

#[test]
fn direction_to_goes_by_x_then_y_then_z() {
    let c = Coord { x: 1, y: 1, z: 1 };
    assert_eq!(c.direction_to(Coord { x: 3, y: 0, z: 0 }), Direction::East);
    assert_eq!(c.direction_to(Coord { x: 0, y: 4, z: 4 }), Direction::West);
    assert_eq!(c.direction_to(Coord { x: 1, y: 2, z: 0 }), Direction::South);
    assert_eq!(c.direction_to(Coord { x: 1, y: 0, z: 4 }), Direction::North);
    assert_eq!(c.direction_to(Coord { x: 1, y: 1, z: 2 }), Direction::Up);
    assert_eq!(c.direction_to(Coord { x: 1, y: 1, z: 0 }), Direction::Down);
    for d in ALL {
        assert_eq!(c.direction_to(c.move_in_direction(d)), d);
    }
}

#[test]
fn cell_doors_by_facing() {
    let mut cell = Cell::default();
    assert!(!cell.visited);
    for d in ALL {
        assert!(!cell.has_door(d));
    }
    cell.remove_wall(&Direction::West);
    cell.remove_wall(&Direction::Up);
    assert!(cell.has_door(Direction::West));
    assert!(cell.left(Direction::North));
    assert!(!cell.right(Direction::North));
    assert!(cell.front(Direction::West));
    assert!(cell.right(Direction::South));
    assert!(cell.top());
    assert!(!cell.bottom());
    assert!(!cell.visited);
    assert_eq!(cell.doors, [false, false, false, true, true, false]);
}

#[test]
fn cells_are_kept_apart() {
    let mut maze = QuintiMaze::default();
    let c = Coord { x: 1, y: 2, z: 3 };
    maze.get_cell_mut(&c).visited = true;
    maze.get_cell_mut(&c).remove_wall(&Direction::Down);
    for other in all_cells() {
        let cell = maze.get_cell(&other);
        assert_eq!(cell.visited, other == c);
        assert_eq!(cell.has_door(Direction::Down), other == c);
        assert!(!cell.has_door(Direction::Up));
    }
}
