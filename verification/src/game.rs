//! The game: a player walks the maze by commands relative to where they
//! face, may ask for a hint, and wins by stepping out of the grid.

use crate::bounded::{path_back, path_cells, path_pop_back};
use crate::generate::{is_generated, MazeGenerator};
use crate::maze::{
    is_compass, lemma_step_and_back, Cell, Coord, Direction, QuintiMaze, VisibleDoors,
};
use crate::solve::{
    door_between, exit_path, find_path_to_exit, is_way_out, lemma_exit_path_is_way_out, SolutionPath,
};
use core::fmt::Debug;
use vstd::prelude::*;

verus! {

/// One note of the victory tune.
#[derive(Debug, Clone, Copy, PartialEq, Eq, Structural)]
pub struct Note {
    pub duration: u32,
    pub frequency: u64,
    pub delay: u64,
}

impl Note {
/// A note of `frequency` hertz that sounds for `duration` milliseconds
/// after a pause of `delay` milliseconds.
    pub fn new(frequency: u64, duration: u32, delay: u64) -> (r: Self)
        ensures
            r.frequency == frequency,
            r.duration == duration,
            r.delay == delay,
    {
        Self { duration, frequency, delay }
    }
}

/// The victory tune.
pub fn victory_notes() -> (r: [Note; 7])
    ensures
        r@ == seq![
            (Note { frequency: 1000, duration: 256, delay: 0 }),
            (Note { frequency: 1000, duration: 128, delay: 50 }),
            (Note { frequency: 1000, duration: 128, delay: 50 }),
            (Note { frequency: 1333, duration: 169, delay: 50 }),
            (Note { frequency: 1000, duration: 169, delay: 50 }),
            (Note { frequency: 1333, duration: 169, delay: 50 }),
            (Note { frequency: 1667, duration: 653, delay: 50 }),
        ],
{
    let r = [
        Note::new(1000, 256, 0),
        Note::new(1000, 128, 50),
        Note::new(1000, 128, 50),
        Note::new(1333, 169, 50),
        Note::new(1000, 169, 50),
        Note::new(1333, 169, 50),
        Note::new(1667, 653, 50),
    ];
    assert(r@ =~= seq![
        (Note { frequency: 1000, duration: 256, delay: 0 }),
        (Note { frequency: 1000, duration: 128, delay: 50 }),
        (Note { frequency: 1000, duration: 128, delay: 50 }),
        (Note { frequency: 1333, duration: 169, delay: 50 }),
        (Note { frequency: 1000, duration: 169, delay: 50 }),
        (Note { frequency: 1333, duration: 169, delay: 50 }),
        (Note { frequency: 1667, duration: 653, delay: 50 }),
    ]);
    r
}

/// What the game needs from the machine it runs on.
pub trait PlatformSpecific: Debug + Default {
    /// Starts the victory tune; the game does not wait for it.
    fn play_victory_notes(&mut self);

    /// A counter of elapsed time.
    fn ticks(&mut self) -> u64;
}

/// How much of the screen the next frame has to repaint.
#[derive(Debug, Clone, Copy, PartialEq, Eq, Structural)]
pub enum RedrawMode {
    Time,
    Status,
    Full,
}

impl Default for RedrawMode {
    fn default() -> (r: Self)
        ensures
            r == RedrawMode::Full,
    {
        Self::Full
    }
}

/// What a key press asks for.
#[derive(Debug, Clone, Copy, PartialEq, Eq, Structural)]
pub enum Command {
    MoveForward,
    MoveLeft,
    MoveRight,
    MoveUp,
    MoveDown,
    TurnLeft,
    TurnRight,
    ToggleShowPosition,
    ShowHints,
}

impl Command {
    /// The command bound to a key of the keypad; `None` for a key that is
    /// bound to nothing.
    pub open spec fn spec_for_key(key: char) -> Option<Command> {
        if key == '1' {
            Some(Command::MoveDown)
        } else if key == '2' {
            Some(Command::MoveForward)
        } else if key == '3' {
            Some(Command::MoveUp)
        } else if key == '4' {
            Some(Command::MoveLeft)
        } else if key == '6' {
            Some(Command::MoveRight)
        } else if key == '7' {
            Some(Command::TurnLeft)
        } else if key == '9' {
            Some(Command::TurnRight)
        } else if key == '*' {
            Some(Command::ToggleShowPosition)
        } else if key == '#' {
            Some(Command::ShowHints)
        } else {
            None
        }
    }

    #[verifier::when_used_as_spec(spec_for_key)]
    pub fn for_key(key: char) -> (r: Option<Command>)
        ensures
            r == Self::spec_for_key(key),
    {
        match key {
            '1' => Some(Command::MoveDown),
            '2' => Some(Command::MoveForward),
            '3' => Some(Command::MoveUp),
            '4' => Some(Command::MoveLeft),
            '6' => Some(Command::MoveRight),
            '7' => Some(Command::TurnLeft),
            '9' => Some(Command::TurnRight),
            '*' => Some(Command::ToggleShowPosition),
            '#' => Some(Command::ShowHints),
            _ => None,
        }
    }

    /// The door a move command goes through; `None` for the other commands.
    pub open spec fn door(self) -> Option<VisibleDoors> {
        match self {
            Command::MoveForward => Some(VisibleDoors::Forward),
            Command::MoveLeft => Some(VisibleDoors::Left),
            Command::MoveRight => Some(VisibleDoors::Right),
            Command::MoveUp => Some(VisibleDoors::Up),
            Command::MoveDown => Some(VisibleDoors::Down),
            _ => None,
        }
    }
}

/// Which of the five visible doors the screen currently shows as open.
#[derive(Debug, Clone, Copy, PartialEq, Eq, Structural)]
pub struct Showing {
    pub left: bool,
    pub front: bool,
    pub right: bool,
    pub top: bool,
    pub bottom: bool,
}

impl Default for Showing {
    fn default() -> (r: Self)
        ensures
            r == Showing::nothing(),
    {
        Showing { left: false, front: false, right: false, top: false, bottom: false }
    }
}

impl Showing {
    /// No door shown as open.
    pub open spec fn nothing() -> Showing {
        Showing { left: false, front: false, right: false, top: false, bottom: false }
    }

    /// The doors of `cell` as a player facing `facing` sees them.
    pub open spec fn of(cell: Cell, facing: Direction) -> Showing {
        Showing {
            left: cell.spec_has_door(VisibleDoors::Left.spec_direction(facing)),
            front: cell.spec_has_door(facing),
            right: cell.spec_has_door(VisibleDoors::Right.spec_direction(facing)),
            top: cell.spec_has_door(Direction::Up),
            bottom: cell.spec_has_door(Direction::Down),
        }
    }
}

/// The status line of a frame: all of it, or only the clock.
#[derive(Debug, Clone, Copy, PartialEq, Eq, Structural)]
pub enum StatusUpdate {
    Full { facing: Direction, position: Option<Coord>, hint: Option<Direction>, elapsed: u64 },
    Time { elapsed: u64 },
}

/// The seconds that `elapsed` milliseconds amount to, a second that has
/// begun counting as a whole one.
pub open spec fn seconds_begun(elapsed: u64) -> int {
    (elapsed + 999) / 1000
}

/// The minutes and seconds that the clock shows after `elapsed`
/// milliseconds.
pub fn clock_reading(elapsed: u64) -> (r: (u64, u64))
    ensures
        r.0 == seconds_begun(elapsed) / 60,
        r.1 == seconds_begun(elapsed) % 60,
{
    let whole = elapsed / 1000;
    let seconds = if elapsed % 1000 != 0 {
        whole + 1
    } else {
        whole
    };
    (seconds / 60, seconds % 60)
}

/// What a frame of the running game has to paint. A door is `Some` when
/// its picture has to change, and then tells whether it is open.
#[derive(Debug, Clone, Copy, PartialEq, Eq, Structural)]
pub struct PlayingFrame {
    pub clear: bool,
    pub right: Option<bool>,
    pub left: Option<bool>,
    pub top: Option<bool>,
    pub bottom: Option<bool>,
    pub front: Option<bool>,
    pub status: StatusUpdate,
}

/// What a frame has to paint.
#[derive(Debug, Clone, Copy, PartialEq, Eq, Structural)]
pub enum Frame {
    Nothing,
    Start,
    Win,
    Playing(PlayingFrame),
}

/// The cells of a cached path, if there is one.
pub open spec fn path_view(path: Option<SolutionPath>) -> Option<Seq<Coord>> {
    match path {
        Some(p) => Some(path_cells(p)),
        None => None,
    }
}

/// No cell of the sequence is followed by itself.
pub open spec fn steps_differ(cells: Seq<Coord>) -> bool {
    forall|i: int| 0 <= i < cells.len() - 1 ==> #[trigger] cells[i] != cells[i + 1]
}

/// The repaint of one door: needed exactly when what is shown differs from
/// what is there.
pub open spec fn door_update(shown: bool, open: bool) -> Option<bool> {
    if shown != open {
        Some(open)
    } else {
        None
    }
}

fn update_door(shown: bool, open: bool) -> (r: Option<bool>)
    ensures
        r == door_update(shown, open),
{
    if shown != open {
        Some(open)
    } else {
        None
    }
}

/// A game in progress.
pub struct PlayingPhaseData {
    pub maze: QuintiMaze,
    pub position: Coord,
    pub next_redraw: RedrawMode,
    pub show_position: bool,
    pub direction_hint: Option<Direction>,
    pub path_to_exit: Option<SolutionPath>,
    pub facing: Direction,
    pub start: u64,
    pub showing: Showing,
}

impl PlayingPhaseData {
    /// The player stands in the grid and faces a compass direction, and a
    /// cached path never stays on a cell.
    pub open spec fn wf(&self) -> bool {
        &&& QuintiMaze::in_bounds(self.position)
        &&& is_compass(self.facing)
        &&& match self.path_to_exit {
            Some(p) => steps_differ(path_cells(p)),
            None => true,
        }
    }

    /// A game that has just begun at time `ticks`: the player stands at the
    /// origin facing north, nothing is cached and everything is to be
    /// painted.
    pub open spec fn is_fresh(&self, ticks: u64) -> bool {
        &&& self.position == (Coord { x: 0, y: 0, z: 0 })
        &&& self.next_redraw == RedrawMode::Full
        &&& !self.show_position
        &&& self.direction_hint is None
        &&& self.path_to_exit is None
        &&& self.facing == Direction::North
        &&& self.start == ticks
        &&& self.showing == Showing::nothing()
    }

    /// The hint and the cached path after a step onto `position`: a path
    /// whose back is `position` is followed, any other is dropped.
    pub open spec fn followed(path: Option<Seq<Coord>>, position: Coord) -> (
        Option<Direction>,
        Option<Seq<Coord>>,
    ) {
        if path is Some && path.unwrap().len() >= 2 && path.unwrap().last() == position {
            let cells = path.unwrap();
            (Some(position.spec_direction_to(cells[cells.len() - 2])), Some(cells.drop_last()))
        } else {
            (None, None)
        }
    }

    /// How a move through `door` changes the game: through an open door the
    /// player steps and the hint follows; a closed door changes nothing.
    pub open spec fn moved_through(before: Self, after: Self, door: VisibleDoors) -> bool {
        let direction = door.spec_direction(before.facing);
        if before.maze.door(before.position, direction) {
            let position = before.position.moved(direction);
            let kept = Self::followed(path_view(before.path_to_exit), position);
            &&& path_view(after.path_to_exit) == kept.1
            &&& after == (PlayingPhaseData {
                position,
                next_redraw: RedrawMode::Status,
                direction_hint: kept.0,
                path_to_exit: after.path_to_exit,
                ..before
            })
        } else {
            after == before
        }
    }

    /// How asking for a hint changes the game: with a way out the hint
    /// points to its first step and the rest is cached; without one the
    /// hint and the cache stay.
    pub open spec fn hinted(before: Self, after: Self) -> bool {
        match exit_path(before.maze, before.position) {
            Some(path) => {
                &&& path_view(after.path_to_exit) == Some(path.drop_last())
                &&& after == (PlayingPhaseData {
                    next_redraw: RedrawMode::Status,
                    direction_hint: Some(
                        before.position.spec_direction_to(path[path.len() - 2]),
                    ),
                    path_to_exit: after.path_to_exit,
                    ..before
                })
            },
            None => after == (PlayingPhaseData { next_redraw: RedrawMode::Status, ..before }),
        }
    }

    /// How a command changes the game.
    pub open spec fn commanded(before: Self, after: Self, command: Command) -> bool {
        match command {
            Command::TurnLeft => after == (PlayingPhaseData {
                facing: VisibleDoors::Left.spec_direction(before.facing),
                next_redraw: RedrawMode::Status,
                ..before
            }),
            Command::TurnRight => after == (PlayingPhaseData {
                facing: VisibleDoors::Right.spec_direction(before.facing),
                next_redraw: RedrawMode::Status,
                ..before
            }),
            Command::ToggleShowPosition => after == (PlayingPhaseData {
                show_position: !before.show_position,
                next_redraw: RedrawMode::Status,
                ..before
            }),
            Command::ShowHints => Self::hinted(before, after),
            _ => Self::moved_through(before, after, command.door().unwrap()),
        }
    }

    /// Whether a move through `door` makes the player step out of the grid.
    pub open spec fn wins_through(&self, door: VisibleDoors) -> bool {
        let direction = door.spec_direction(self.facing);
        self.maze.door(self.position, direction) && QuintiMaze::spec_is_win(
            self.position.moved(direction),
        )
    }

    /// Whether a command makes the player step out of the grid.
    pub open spec fn wins(&self, command: Command) -> bool {
        match command.door() {
            Some(door) => self.wins_through(door),
            None => false,
        }
    }

    /// What a frame at time `ticks` paints, given the game before it.
    pub open spec fn frame(before: Self, ticks: u64) -> PlayingFrame {
        let clear = before.next_redraw == RedrawMode::Full;
        let shown = if clear {
            Showing::nothing()
        } else {
            before.showing
        };
        let seen = Showing::of(before.maze.cell_at(before.position), before.facing);
        let elapsed = if ticks >= before.start {
            (ticks - before.start) as u64
        } else {
            0u64
        };
        PlayingFrame {
            clear,
            right: door_update(shown.right, seen.right),
            left: door_update(shown.left, seen.left),
            top: door_update(shown.top, seen.top),
            bottom: door_update(shown.bottom, seen.bottom),
            front: door_update(shown.front, seen.front),
            status: if before.next_redraw != RedrawMode::Time {
                StatusUpdate::Full {
                    facing: before.facing,
                    position: if before.show_position {
                        Some(before.position)
                    } else {
                        None
                    },
                    hint: before.direction_hint,
                    elapsed,
                }
            } else {
                StatusUpdate::Time { elapsed }
            },
        }
    }

    /// Begins a game at time `ticks` in a maze generated from `ticks`.
    pub fn new(ticks: u64) -> (r: Self)
        ensures
            r.is_fresh(ticks),
            is_generated(r.maze, true),
            r.wf(),
    {
        let mut generator = MazeGenerator::default();
        generator.generate(Some(ticks));
        Self::with_maze(generator.take(), ticks)
    }

    /// Begins a game at time `ticks` in `maze`.
    pub fn with_maze(maze: QuintiMaze, ticks: u64) -> (r: Self)
        ensures
            r.is_fresh(ticks),
            r.maze == maze,
            r.wf(),
    {
        Self {
            maze,
            position: Coord::default(),
            next_redraw: RedrawMode::default(),
            show_position: false,
            direction_hint: None,
            path_to_exit: None,
            facing: Direction::default(),
            start: ticks,
            showing: Showing::default(),
        }
    }

    /// Says what the next frame has to paint and remembers what it shows.
    /// The elapsed time is `ticks` less the start of the game, and zero
    /// for a `ticks` before that.
    pub fn draw_playing(&mut self, ticks: u64) -> (r: PlayingFrame)
        requires
            old(self).wf(),
        ensures
            final(self).wf(),
            r == Self::frame(*old(self), ticks),
            *final(self) == (PlayingPhaseData {
                next_redraw: RedrawMode::Time,
                showing: Showing::of(old(self).maze.cell_at(old(self).position), old(self).facing),
                ..*old(self)
            }),
    {
        let clear = self.next_redraw == RedrawMode::Full;
        if clear {
            self.showing = Showing::default();
        }
        let cell = self.maze.get_cell(&self.position);

        let showing_right = cell.right(self.facing);
        let right = update_door(self.showing.right, showing_right);
        self.showing.right = showing_right;

        let showing_left = cell.left(self.facing);
        let left = update_door(self.showing.left, showing_left);
        self.showing.left = showing_left;

        let showing_top = cell.top();
        let top = update_door(self.showing.top, showing_top);
        self.showing.top = showing_top;

        let showing_bottom = cell.bottom();
        let bottom = update_door(self.showing.bottom, showing_bottom);
        self.showing.bottom = showing_bottom;

        let showing_front = cell.front(self.facing);
        let front = update_door(self.showing.front, showing_front);
        self.showing.front = showing_front;

        let elapsed = if ticks >= self.start {
            ticks - self.start
        } else {
            0
        };
        let status = if self.next_redraw != RedrawMode::Time {
            StatusUpdate::Full {
                facing: self.facing,
                position: if self.show_position {
                    Some(self.position)
                } else {
                    None
                },
                hint: self.direction_hint,
                elapsed,
            }
        } else {
            StatusUpdate::Time { elapsed }
        };
        self.next_redraw = RedrawMode::Time;
        PlayingFrame { clear, right, left, top, bottom, front, status }
    }

    /// Steps through `door` if it is open. Returns whether the player has
    /// left the grid.
    pub fn try_move(&mut self, door: VisibleDoors) -> (won: bool)
        requires
            old(self).wf(),
        ensures
            Self::moved_through(*old(self), *final(self), door),
            won == QuintiMaze::spec_is_win(final(self).position),
            won == old(self).wins_through(door),
            !won ==> final(self).wf(),
    {
        let cell = self.maze.get_cell(&self.position);
        let old_position = self.position;
        let direction = door.direction(self.facing);
        proof {
            lemma_step_and_back(old_position, direction);
        }
        if cell.has_door(direction) {
            self.position = self.position.move_in_direction(direction);
        }
        if self.position != old_position {
            self.next_redraw = RedrawMode::Status;
            self.direction_hint = None;
            let path_to_exit = self.path_to_exit.take();
            if let Some(mut path_to_exit) = path_to_exit {
                let ghost cells = path_cells(path_to_exit);
                let on_path = path_pop_back(&mut path_to_exit);
                let arrived = match on_path {
                    Some(cell) => cell == self.position,
                    None => false,
                };
                if arrived {
                    if let Some(next_position) = path_back(&path_to_exit) {
                        assert(next_position == cells[cells.len() - 2]);
                        assert(cells[cells.len() - 2] != cells[cells.len() - 2 + 1]);
                        self.direction_hint = Some(self.position.direction_to(next_position));
                        self.path_to_exit = Some(path_to_exit);
                        assert(steps_differ(cells.drop_last())) by {
                            assert forall|i: int| 0 <= i < cells.drop_last().len() - 1 implies (
                            #[trigger] cells.drop_last()[i]) != cells.drop_last()[i + 1] by {
                                assert(cells[i] != cells[i + 1]);
                            }
                        }
                    }
                }
            }
        }
        self.is_win()
    }

/// Turns the player a quarter turn to the left.
    pub fn turn_left(&mut self)
        ensures
            Self::commanded(*old(self), *final(self), Command::TurnLeft),
            old(self).wf() ==> final(self).wf(),
    {
        self.facing = VisibleDoors::Left.direction(self.facing);
        self.next_redraw = RedrawMode::Status;
    }

/// Turns the player a quarter turn to the right.
    pub fn turn_right(&mut self)
        ensures
            Self::commanded(*old(self), *final(self), Command::TurnRight),
            old(self).wf() ==> final(self).wf(),
    {
        self.facing = VisibleDoors::Right.direction(self.facing);
        self.next_redraw = RedrawMode::Status;
    }

/// Shows the position on the status line, or hides it again.
    pub fn toggle_show_position(&mut self)
        ensures
            Self::commanded(*old(self), *final(self), Command::ToggleShowPosition),
            old(self).wf() ==> final(self).wf(),
    {
        self.show_position = !self.show_position;
        self.next_redraw = RedrawMode::Status;
    }

    /// Looks for a way out from where the player stands and, if there is
    /// one, points the hint at its first step, which is through an open
    /// door.
    pub fn show_direction_hint(&mut self)
        requires
            old(self).wf(),
        ensures
            Self::hinted(*old(self), *final(self)),
            final(self).wf(),
            exit_path(old(self).maze, old(self).position) is Some ==> final(self).direction_hint
                is Some && old(self).maze.door(
                old(self).position,
                final(self).direction_hint.unwrap(),
            ),
    {
        let (_found, mut path) = find_path_to_exit(&self.maze, self.position);
        let ghost cells = path_cells(path);
        proof {
            if exit_path(self.maze, self.position) is Some {
                lemma_exit_path_is_way_out(self.maze, self.position);
                lemma_way_out_steps(self.maze, cells, self.position);
            }
        }
        path_pop_back(&mut path);
        let next_position = path_back(&path);
        if let Some(next_position) = next_position {
            self.direction_hint = Some(self.position.direction_to(next_position));
            self.path_to_exit = Some(path);
        }
        self.next_redraw = RedrawMode::Status;
    }

    /// Carries out `command`. Returns whether the player has left the
    /// grid.
    pub fn handle_command(&mut self, command: Command) -> (is_win: bool)
        requires
            old(self).wf(),
        ensures
            Self::commanded(*old(self), *final(self), command),
            is_win == old(self).wins(command),
            !is_win ==> final(self).wf(),
    {
        let mut is_win = false;
        match command {
            Command::MoveForward => {
                is_win = self.try_move(VisibleDoors::Forward);
            },
            Command::MoveRight => {
                is_win = self.try_move(VisibleDoors::Right);
            },
            Command::MoveLeft => {
                is_win = self.try_move(VisibleDoors::Left);
            },
            Command::MoveUp => {
                is_win = self.try_move(VisibleDoors::Up);
            },
            Command::MoveDown => {
                is_win = self.try_move(VisibleDoors::Down);
            },
            Command::TurnLeft => {
                self.turn_left();
            },
            Command::TurnRight => {
                self.turn_right();
            },
            Command::ToggleShowPosition => {
                self.toggle_show_position();
            },
            Command::ShowHints => {
                self.show_direction_hint();
            },
        }
        is_win
    }

/// Whether the player stands outside the grid.
    pub fn is_win(&self) -> (r: bool)
        ensures
            r == QuintiMaze::spec_is_win(self.position),
    {
        self.maze.is_win(&self.position)
    }
}

/// On a way out from `start`, every cell differs from the next, and the
/// first step leaves `start` through an open door in the direction that
/// `direction_to` gives.
pub proof fn lemma_way_out_steps(maze: QuintiMaze, path: Seq<Coord>, start: Coord)
    requires
        QuintiMaze::in_bounds(start),
        is_way_out(maze, path, start),
    ensures
        steps_differ(path),
        steps_differ(path.drop_last()),
        start.moved(start.spec_direction_to(path[path.len() - 2])) == path[path.len() - 2],
        maze.door(start, start.spec_direction_to(path[path.len() - 2])),
{
    assert forall|i: int| 0 <= i < path.len() - 1 implies #[trigger] path[i] != path[i + 1] by {
        let a = path[i + 1];
        let d = choose|d: Direction| #[trigger] maze.door(a, d) && a.moved(d) == path[i];
        lemma_step_and_back(a, d);
    }
    assert forall|i: int| 0 <= i < path.drop_last().len() - 1 implies (#[trigger] path.drop_last()[i])
        != path.drop_last()[i + 1] by {
        assert(path[i] != path[i + 1]);
    }
    let last = path.len() - 2;
    assert(path[last + 1] == start);
    let d = choose|d: Direction| #[trigger] maze.door(start, d) && start.moved(d) == path[last];
    lemma_step_and_back(start, d);
}

/// The phases of the game.
pub enum Phase {
    /// Waiting for a key; the flag tells whether the prompt was painted.
    Start(bool),
    /// A game in progress.
    Playing(PlayingPhaseData),
    /// Won; the flag tells whether the victory screen was painted.
    Done(bool),
}

/// The game and the machine it runs on. `upcoming` holds the maze that was
/// generated when the last game was won, for the next game to use.
pub struct Game<T: PlatformSpecific> {
    pub platform: T,
    pub phase: Phase,
    pub upcoming: Option<QuintiMaze>,
}

impl<T: PlatformSpecific> Default for Game<T> {
    fn default() -> (r: Self)
        ensures
            r.phase == Phase::Start(false),
            r.upcoming is None,
            r.wf(),
    {
        Self { platform: T::default(), phase: Phase::Start(false), upcoming: None }
    }
}

impl<T: PlatformSpecific> Game<T> {
    /// A game in progress is well formed and played in a generated maze,
    /// and so is a maze that waits for the next game.
    pub open spec fn wf(&self) -> bool {
        &&& match self.phase {
            Phase::Playing(playing) => playing.wf() && is_generated(playing.maze, true),
            _ => true,
        }
        &&& match self.upcoming {
            Some(maze) => is_generated(maze, true),
            None => true,
        }
    }

    /// How painting a frame changes the game, and what the frame is: the
    /// start prompt and the victory screen are painted once, and a game
    /// in progress is painted as `PlayingPhaseData::frame` says for some
    /// reading of the clock.
    pub open spec fn drawn(before: Self, after: Self, frame: Frame) -> bool {
        &&& after.upcoming == before.upcoming
        &&& match before.phase {
            Phase::Start(done) => after.phase == Phase::Start(true) && frame == (if done {
                Frame::Nothing
            } else {
                Frame::Start
            }),
            Phase::Done(done) => after.phase == Phase::Done(true) && frame == (if done {
                Frame::Nothing
            } else {
                Frame::Win
            }),
            Phase::Playing(playing) => exists|ticks: u64|
                frame == Frame::Playing(#[trigger] PlayingPhaseData::frame(playing, ticks))
                    && after.phase == Phase::Playing(
                    PlayingPhaseData {
                        next_redraw: RedrawMode::Time,
                        showing: Showing::of(playing.maze.cell_at(playing.position), playing.facing),
                        ..playing
                    },
                ),
        }
    }

    /// How a key press changes the game, and whether the key is passed on
    /// as a command. A game in progress passes it on and stays as it is.
    /// After a win the key brings back the start prompt. At the start
    /// prompt it begins a fresh game, in the upcoming maze if there is
    /// one.
    pub open spec fn key_pressed(before: Self, after: Self, passed_on: bool) -> bool {
        match before.phase {
            Phase::Playing(_) => passed_on && after.phase == before.phase && after.upcoming
                == before.upcoming,
            Phase::Done(_) => !passed_on && after.phase == Phase::Start(false) && after.upcoming
                == before.upcoming,
            Phase::Start(_) => !passed_on && after.upcoming is None && (match after.phase {
                Phase::Playing(playing) => (exists|ticks: u64| #[trigger] playing.is_fresh(ticks))
                    && (before.upcoming is Some ==> playing.maze == before.upcoming.unwrap()),
                _ => false,
            }),
        }
    }

    /// How a command changes the game. Outside a game in progress it
    /// changes nothing. A command that takes the player out of the grid
    /// ends the game and leaves a maze for the next one; any other changes
    /// the game in progress as `PlayingPhaseData::commanded` says.
    pub open spec fn commanded(before: Self, after: Self, command: Command) -> bool {
        match before.phase {
            Phase::Playing(playing) => if playing.wins(command) {
                after.phase == Phase::Done(false) && after.upcoming is Some
            } else {
                after.upcoming == before.upcoming && (match after.phase {
                    Phase::Playing(next) => PlayingPhaseData::commanded(playing, next, command),
                    _ => false,
                })
            },
            _ => after.phase == before.phase && after.upcoming == before.upcoming,
        }
    }

/// A game at its start prompt, on a platform in its default state.
    pub fn new() -> (r: Self)
        ensures
            r.phase == Phase::Start(false),
            r.upcoming is None,
            r.wf(),
    {
        Self { platform: T::default(), phase: Phase::Start(false), upcoming: None }
    }

    /// Whether the game has been won and waits for a key.
    pub fn is_win(&self) -> (r: bool)
        ensures
            r == (self.phase is Done),
    {
        match self.phase {
            Phase::Done(_) => true,
            _ => false,
        }
    }

    /// Says what the next frame has to paint. The start prompt and the
    /// victory screen are painted once; a game in progress is painted as
    /// `PlayingPhaseData::frame` says, at the time the platform gives.
    pub fn draw(&mut self) -> (r: Frame)
        requires
            old(self).wf(),
        ensures
            final(self).wf(),
            Self::drawn(*old(self), *final(self), r),
    {
        match &mut self.phase {
            Phase::Playing(playing_state) => {
                let ticks = self.platform.ticks();
                Frame::Playing(playing_state.draw_playing(ticks))
            },
            Phase::Done(drawn) => {
                if !*drawn {
                    *drawn = true;
                    Frame::Win
                } else {
                    Frame::Nothing
                }
            },
            Phase::Start(drawn) => {
                if !*drawn {
                    *drawn = true;
                    Frame::Start
                } else {
                    Frame::Nothing
                }
            },
        }
    }

    /// Tells whether a key press is a command. While a game is in progress
    /// it is. At the start prompt the key begins a game, in the upcoming
    /// maze if there is one and else in a new one; after a win it brings
    /// the start prompt back. In both cases the key is used up.
    pub fn key_hit(&mut self) -> (r: bool)
        requires
            old(self).wf(),
        ensures
            final(self).wf(),
            Self::key_pressed(*old(self), *final(self), r),
    {
        match self.phase {
            Phase::Playing(_) => true,
            Phase::Start(_) => {
                let ticks = self.platform.ticks();
                let playing = match self.upcoming.take() {
                    Some(maze) => PlayingPhaseData::with_maze(maze, ticks),
                    None => PlayingPhaseData::new(ticks),
                };
                assert(playing.is_fresh(ticks));
                self.phase = Phase::Playing(playing);
                false
            },
            Phase::Done(_) => {
                self.phase = Phase::Start(false);
                false
            },
        }
    }

    /// Carries out `command` while a game is in progress and ignores it
    /// otherwise. A command that takes the player out of the grid ends the
    /// game: the victory tune is started once, and the maze for the next
    /// game is generated at once, from the time the platform gives.
    pub fn handle_command(&mut self, command: Command)
        requires
            old(self).wf(),
        ensures
            final(self).wf(),
            Self::commanded(*old(self), *final(self), command),
    {
        let won = match &mut self.phase {
            Phase::Playing(playing_state) => playing_state.handle_command(command),
            _ => false,
        };
        if won {
            self.phase = Phase::Done(false);
            self.platform.play_victory_notes();
            let seed = self.platform.ticks();
            let mut generator = MazeGenerator::default();
            generator.generate(Some(seed));
            self.upcoming = Some(generator.take());
        }
    }
}

/// Four quarter turns to the same side leave a game as it was, but for the
/// repaint they ask for.
pub proof fn lemma_four_turns_come_back(
    s0: PlayingPhaseData,
    s1: PlayingPhaseData,
    s2: PlayingPhaseData,
    s3: PlayingPhaseData,
    s4: PlayingPhaseData,
    turn: Command,
)
    requires
        s0.wf(),
        turn == Command::TurnLeft || turn == Command::TurnRight,
        PlayingPhaseData::commanded(s0, s1, turn),
        PlayingPhaseData::commanded(s1, s2, turn),
        PlayingPhaseData::commanded(s2, s3, turn),
        PlayingPhaseData::commanded(s3, s4, turn),
    ensures
        s4.facing == s0.facing,
        s4 == (PlayingPhaseData { next_redraw: RedrawMode::Status, ..s0 }),
{
}

/// A move against a closed door changes nothing at all: not the position,
/// not the hint, not what is to be repainted.
pub proof fn lemma_wall_changes_nothing(
    before: PlayingPhaseData,
    after: PlayingPhaseData,
    command: Command,
)
    requires
        command.door() is Some,
        !before.maze.door(
            before.position,
            command.door().unwrap().spec_direction(before.facing),
        ),
        PlayingPhaseData::commanded(before, after, command),
    ensures
        after == before,
        !before.wins(command),
{
}

/// Asking for a hint where there is no way out leaves the hint and the
/// cached path as they were.
pub proof fn lemma_no_way_out_no_hint(before: PlayingPhaseData, after: PlayingPhaseData)
    requires
        exit_path(before.maze, before.position) is None,
        PlayingPhaseData::commanded(before, after, Command::ShowHints),
    ensures
        after.direction_hint == before.direction_hint,
        after.path_to_exit == before.path_to_exit,
        after.position == before.position,
{
}

/// A move in the direction of a fresh hint follows the way out that the
/// hint was taken from: the player arrives on its next cell, and unless
/// that cell lies outside the grid, the hint then points through an open
/// door to the cell after it and the rest of the way stays cached.
pub proof fn lemma_hint_is_followed(
    before: PlayingPhaseData,
    hinted: PlayingPhaseData,
    after: PlayingPhaseData,
    command: Command,
)
    requires
        before.wf(),
        exit_path(before.maze, before.position) is Some,
        PlayingPhaseData::commanded(before, hinted, Command::ShowHints),
        command.door() is Some,
        Some(command.door().unwrap().spec_direction(hinted.facing)) == hinted.direction_hint,
        PlayingPhaseData::commanded(hinted, after, command),
    ensures
        ({
            let path = exit_path(before.maze, before.position).unwrap();
            &&& after.position == path[path.len() - 2]
            &&& path.len() == 2 <==> hinted.wins(command)
            &&& path.len() > 2 ==> {
                &&& after.direction_hint == Some(
                    after.position.spec_direction_to(path[path.len() - 3]),
                )
                &&& after.maze.door(after.position, after.direction_hint.unwrap())
                &&& after.position.moved(after.direction_hint.unwrap()) == path[path.len() - 3]
                &&& path_view(after.path_to_exit) == Some(path.drop_last().drop_last())
            }
        }),
{
    let path = exit_path(before.maze, before.position).unwrap();
    lemma_exit_path_is_way_out(before.maze, before.position);
    lemma_way_out_steps(before.maze, path, before.position);
    let rest = path.drop_last();
    assert(rest.last() == path[path.len() - 2]);
    if path.len() > 2 {
        let here = path[path.len() - 2];
        let there = path[path.len() - 3];
        assert(rest[rest.len() - 2] == there);
        assert(path[path.len() - 3 + 1] == here);
        assert(door_between(before.maze, path[path.len() - 3 + 1], there));
        let d = choose|d: Direction| #[trigger] before.maze.door(here, d) && here.moved(d) == there;
        lemma_step_and_back(here, d);
    } else {
        assert(path[0] == rest.last());
    }
}

/// A command that takes the player out of the grid ends the game with a
/// generated maze ready for the next one. The key pressed after that
/// brings back the start prompt and is used up, and the key after that
/// begins a fresh game in that maze and is used up too.
pub proof fn lemma_win_then_keys<T: PlatformSpecific>(
    before: Game<T>,
    won: Game<T>,
    prompt: Game<T>,
    next: Game<T>,
    command: Command,
    first_passed_on: bool,
    second_passed_on: bool,
)
    requires
        before.phase is Playing,
        before.phase->Playing_0.wins(command),
        Game::commanded(before, won, command),
        won.wf(),
        Game::key_pressed(won, prompt, first_passed_on),
        Game::key_pressed(prompt, next, second_passed_on),
    ensures
        won.phase == Phase::Done(false),
        won.upcoming is Some,
        is_generated(won.upcoming.unwrap(), true),
        !first_passed_on,
        prompt.phase == Phase::Start(false),
        prompt.upcoming == won.upcoming,
        !second_passed_on,
        next.phase is Playing,
        next.phase->Playing_0.maze == won.upcoming.unwrap(),
        next.phase->Playing_0.position == (Coord { x: 0, y: 0, z: 0 }),
        next.upcoming is None,
{
}

} // verus!
