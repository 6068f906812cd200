use quinti_maze::game::{
    clock_reading, victory_notes, Command, Frame, Game, Note, Phase, PlatformSpecific,
    PlayingFrame, PlayingPhaseData, RedrawMode, Showing, StatusUpdate,
};
use quinti_maze::maze::{
    find_path_to_exit, Coord, Direction, MazeGenerator, QuintiMaze, VisibleDoors,
};
use quinti_maze::time::{truncate_millis, Timer};

#[derive(Debug, Default)]
struct Bench {
    now: u64,
    tunes: u32,
    reads: u32,
}

impl PlatformSpecific for Bench {
    fn play_victory_notes(&mut self) {
        self.tunes += 1;
    }

    fn ticks(&mut self) -> u64 {
        self.reads += 1;
        self.now += 1000;
        self.now
    }
}

fn generated(seed: u64) -> QuintiMaze {
    let mut generator = MazeGenerator::default();
    generator.generate(Some(seed));
    generator.take()
}

fn playing(game: &Game<Bench>) -> &PlayingPhaseData {
    match &game.phase {
        Phase::Playing(data) => data,
        _ => panic!("no game in progress"),
    }
}

fn doors_of(maze: &QuintiMaze) -> Vec<[bool; 6]> {
    let mut all = Vec::new();
    for z in 0..5 {
        for y in 0..5 {
            for x in 0..5 {
                all.push(maze.get_cell(&Coord { x, y, z }).doors);
            }
        }
    }
    all
}

fn step_towards(data: &mut PlayingPhaseData, direction: Direction) -> bool {
    match direction {
        Direction::Up => data.handle_command(Command::MoveUp),
        Direction::Down => data.handle_command(Command::MoveDown),
        compass => {
            while data.facing != compass {
                data.handle_command(Command::TurnRight);
            }
            data.handle_command(Command::MoveForward)
        }
    }
}

fn walk_out(game: &mut Game<Bench>) -> usize {
    let mut steps = 0;
    game.handle_command(Command::ShowHints);
    while let Phase::Playing(data) = &game.phase {
        let hint = data.direction_hint.expect("a hint on the way out");
        match hint {
            Direction::Up => game.handle_command(Command::MoveUp),
            Direction::Down => game.handle_command(Command::MoveDown),
            compass => {
                while playing(game).facing != compass {
                    game.handle_command(Command::TurnLeft);
                }
                game.handle_command(Command::MoveForward);
            }
        }
        steps += 1;
        assert!(steps <= 125);
    }
    steps
}

#[test]
fn a_new_game_waits_at_the_start() {
    let mut game = Game::<Bench>::new();
    assert!(matches!(game.phase, Phase::Start(false)));
    assert!(game.upcoming.is_none());
    game.handle_command(Command::MoveForward);
    assert!(matches!(game.phase, Phase::Start(false)));
    assert_eq!(game.platform.reads, 0);
    let other = Game::<Bench>::default();
    assert!(matches!(other.phase, Phase::Start(false)));
}

#[test]
fn the_first_key_begins_a_game_and_is_used_up() {
    let mut game = Game::<Bench>::new();
    assert!(!game.key_hit());
    let data = playing(&game);
    assert_eq!(data.position, Coord { x: 0, y: 0, z: 0 });
    assert_eq!(data.facing, Direction::North);
    assert_eq!(data.start, 1000);
    assert_eq!(data.next_redraw, RedrawMode::Full);
    assert!(!data.show_position);
    assert_eq!(data.direction_hint, None);
    assert!(data.path_to_exit.is_none());
    assert_eq!(doors_of(&data.maze), doors_of(&generated(1000)));
    assert!(game.key_hit());
    assert!(game.key_hit());
    assert_eq!(game.platform.reads, 1);
}

#[test]
fn four_turns_come_back() {
    let mut data = PlayingPhaseData::new(7);
    let mut seen = Vec::new();
    for _ in 0..4 {
        data.handle_command(Command::TurnLeft);
        seen.push(data.facing);
    }
    assert_eq!(seen, vec![Direction::West, Direction::South, Direction::East, Direction::North]);
    seen.clear();
    for _ in 0..4 {
        data.handle_command(Command::TurnRight);
        seen.push(data.facing);
    }
    assert_eq!(seen, vec![Direction::East, Direction::South, Direction::West, Direction::North]);
    assert_eq!(data.position, Coord::default());
    assert_eq!(data.next_redraw, RedrawMode::Status);
}

#[test]
fn a_wall_stops_the_player_and_changes_nothing() {
    let mut data = PlayingPhaseData::with_maze(QuintiMaze::default(), 3);
    data.draw_playing(3);
    for command in [
        Command::MoveForward,
        Command::MoveLeft,
        Command::MoveRight,
        Command::MoveUp,
        Command::MoveDown,
    ] {
        assert!(!data.handle_command(command));
        assert_eq!(data.position, Coord::default());
        assert_eq!(data.next_redraw, RedrawMode::Time);
        assert_eq!(data.facing, Direction::North);
        assert_eq!(data.direction_hint, None);
    }
    assert!(!data.try_move(VisibleDoors::Forward));
    assert!(!data.is_win());
}

#[test]
fn a_hint_without_a_way_out_stays_unset() {
    let mut data = PlayingPhaseData::with_maze(QuintiMaze::default(), 0);
    data.draw_playing(0);
    assert!(!data.handle_command(Command::ShowHints));
    assert_eq!(data.direction_hint, None);
    assert!(data.path_to_exit.is_none());
    assert_eq!(data.next_redraw, RedrawMode::Status);
}

#[test]
fn a_hint_points_along_the_solved_path() {
    let maze = generated(13);
    let (found, path) = find_path_to_exit(&maze, Coord::default());
    assert!(found);
    let cells: Vec<Coord> = path.iter().copied().collect();
    let mut data = PlayingPhaseData::with_maze(maze, 0);
    data.show_direction_hint();
    let first = cells[cells.len() - 2];
    assert_eq!(data.direction_hint, Some(Coord::default().direction_to(first)));
    let cached: Vec<Coord> = data.path_to_exit.as_ref().unwrap().iter().copied().collect();
    assert_eq!(cached, cells[..cells.len() - 1].to_vec());
    let hint = data.direction_hint.unwrap();
    assert!(!step_towards(&mut data, hint));
    assert_eq!(data.position, first);
    let second = cells[cells.len() - 3];
    assert_eq!(data.direction_hint, Some(first.direction_to(second)));
    let cached: Vec<Coord> = data.path_to_exit.as_ref().unwrap().iter().copied().collect();
    assert_eq!(cached, cells[..cells.len() - 2].to_vec());
}

#[test]
fn leaving_the_path_drops_the_hint() {
    let mut maze = QuintiMaze::default();
    let origin = Coord::default();
    let south = Coord { x: 0, y: 1, z: 0 };
    maze.get_cell_mut(&origin).remove_wall(&Direction::Up);
    maze.get_cell_mut(&Coord { x: 0, y: 0, z: 1 }).remove_wall(&Direction::West);
    maze.get_cell_mut(&origin).remove_wall(&Direction::South);
    maze.get_cell_mut(&south).remove_wall(&Direction::North);
    let mut data = PlayingPhaseData::with_maze(maze, 0);
    data.handle_command(Command::ShowHints);
    assert_eq!(data.direction_hint, Some(Direction::Up));
    data.handle_command(Command::TurnLeft);
    assert_eq!(data.direction_hint, Some(Direction::Up));
    data.handle_command(Command::TurnLeft);
    assert!(!data.handle_command(Command::MoveForward));
    assert_eq!(data.position, south);
    assert_eq!(data.direction_hint, None);
    assert!(data.path_to_exit.is_none());
    assert_eq!(data.next_redraw, RedrawMode::Status);
}

#[test]
fn toggling_shows_and_hides_the_position() {
    let mut data = PlayingPhaseData::new(1);
    assert!(!data.handle_command(Command::ToggleShowPosition));
    assert!(data.show_position);
    data.toggle_show_position();
    assert!(!data.show_position);
    assert_eq!(data.position, Coord::default());
}

#[test]
fn winning_ends_the_game_and_prepares_the_next() {
    let mut game = Game::<Bench>::new();
    assert!(!game.key_hit());
    let first = doors_of(&playing(&game).maze);
    let steps = walk_out(&mut game);
    assert_eq!(steps, 13);
    assert!(matches!(game.phase, Phase::Done(false)));
    assert_eq!(game.platform.tunes, 1);
    assert_eq!(game.platform.reads, 2);
    let upcoming = doors_of(game.upcoming.as_ref().unwrap());
    assert_eq!(upcoming, doors_of(&generated(2000)));
    assert_ne!(upcoming, first);
    game.handle_command(Command::MoveForward);
    assert!(matches!(game.phase, Phase::Done(false)));
    assert!(!game.key_hit());
    assert!(matches!(game.phase, Phase::Start(false)));
    assert_eq!(game.platform.tunes, 1);
    assert!(!game.key_hit());
    assert!(game.upcoming.is_none());
    let data = playing(&game);
    assert_eq!(doors_of(&data.maze), upcoming);
    assert_eq!(data.position, Coord::default());
    assert_eq!(data.start, 3000);
    assert_eq!(game.platform.tunes, 1);
}

#[test]
fn frames_repaint_only_what_changed() {
    let mut maze = QuintiMaze::default();
    let origin = Coord::default();
    let east = Coord { x: 1, y: 0, z: 0 };
    maze.get_cell_mut(&origin).remove_wall(&Direction::East);
    maze.get_cell_mut(&east).remove_wall(&Direction::West);
    maze.get_cell_mut(&east).remove_wall(&Direction::Up);
    let mut data = PlayingPhaseData::with_maze(maze, 500);
    let frame = data.draw_playing(2500);
    assert_eq!(
        frame,
        PlayingFrame {
            clear: true,
            right: Some(true),
            left: None,
            top: None,
            bottom: None,
            front: None,
            status: StatusUpdate::Full {
                facing: Direction::North,
                position: None,
                hint: None,
                elapsed: 2000
            },
        }
    );
    assert_eq!(
        data.showing,
        Showing { left: false, front: false, right: true, top: false, bottom: false }
    );
    let frame = data.draw_playing(2600);
    assert_eq!(
        frame,
        PlayingFrame {
            clear: false,
            right: None,
            left: None,
            top: None,
            bottom: None,
            front: None,
            status: StatusUpdate::Time { elapsed: 2100 },
        }
    );
    data.handle_command(Command::ToggleShowPosition);
    assert!(!data.handle_command(Command::MoveRight));
    let frame = data.draw_playing(100);
    assert_eq!(
        frame,
        PlayingFrame {
            clear: false,
            right: Some(false),
            left: Some(true),
            top: Some(true),
            bottom: None,
            front: None,
            status: StatusUpdate::Full {
                facing: Direction::North,
                position: Some(east),
                hint: None,
                elapsed: 0
            },
        }
    );
    assert_eq!(data.next_redraw, RedrawMode::Time);
}

#[test]
fn the_game_paints_prompt_and_victory_once() {
    let mut game = Game::<Bench>::new();
    assert_eq!(game.draw(), Frame::Start);
    assert_eq!(game.draw(), Frame::Nothing);
    assert!(!game.key_hit());
    match game.draw() {
        Frame::Playing(frame) => {
            assert!(frame.clear);
            assert!(matches!(frame.status, StatusUpdate::Full { elapsed: 1000, .. }));
        }
        other => panic!("unexpected frame {:?}", other),
    }
    match game.draw() {
        Frame::Playing(frame) => {
            assert!(!frame.clear);
            assert_eq!(frame.status, StatusUpdate::Time { elapsed: 2000 });
        }
        other => panic!("unexpected frame {:?}", other),
    }
    walk_out(&mut game);
    assert_eq!(game.draw(), Frame::Win);
    assert_eq!(game.draw(), Frame::Nothing);
    assert_eq!(game.platform.tunes, 1);
    assert!(!game.key_hit());
    assert_eq!(game.draw(), Frame::Start);
}

#[test]
fn notes_keep_their_parts() {
    let note = Note::new(1333, 169, 50);
    assert_eq!(note.frequency, 1333);
    assert_eq!(note.duration, 169);
    assert_eq!(note.delay, 50);
    let tune = victory_notes();
    assert_eq!(tune.len(), 7);
    assert_eq!(tune[0], Note { frequency: 1000, duration: 256, delay: 0 });
    assert_eq!(tune[3], Note { frequency: 1333, duration: 169, delay: 50 });
    assert_eq!(tune[6], Note { frequency: 1667, duration: 653, delay: 50 });
    assert!(tune[1..].iter().all(|note| note.delay == 50));
}

#[test]
fn the_clock_counts_begun_seconds() {
    assert_eq!(clock_reading(0), (0, 0));
    assert_eq!(clock_reading(1), (0, 1));
    assert_eq!(clock_reading(1000), (0, 1));
    assert_eq!(clock_reading(1001), (0, 2));
    assert_eq!(clock_reading(59_001), (1, 0));
    assert_eq!(clock_reading(3_600_000), (60, 0));
    assert_eq!(clock_reading(u64::MAX), (307445734561825, 52));
}

#[test]
fn keypad_keys_are_bound_to_commands() {
    assert_eq!(Command::for_key('1'), Some(Command::MoveDown));
    assert_eq!(Command::for_key('2'), Some(Command::MoveForward));
    assert_eq!(Command::for_key('3'), Some(Command::MoveUp));
    assert_eq!(Command::for_key('4'), Some(Command::MoveLeft));
    assert_eq!(Command::for_key('6'), Some(Command::MoveRight));
    assert_eq!(Command::for_key('7'), Some(Command::TurnLeft));
    assert_eq!(Command::for_key('9'), Some(Command::TurnRight));
    assert_eq!(Command::for_key('*'), Some(Command::ToggleShowPosition));
    assert_eq!(Command::for_key('#'), Some(Command::ShowHints));
    for key in ['5', '8', '0', 'w', ' '] {
        assert_eq!(Command::for_key(key), None);
    }
}

#[test]
fn timers_count_up() {
    let timer = Timer::default();
    let a = timer.elapsed();
    let b = timer.elapsed();
    assert!(a <= b);
    assert!(b < 60_000);
    assert_eq!(truncate_millis(1500), 1500);
    assert_eq!(truncate_millis(u64::MAX as u128 + 8), 7);
}
