//! The game rules of the heart sandbox: modes, the black and white holes,
//! the gravity direction, the heart size, and the scoring of the three
//! games. The physics itself is floating point and is done by the caller;
//! the rules decide what each input does and tell the caller what to do to
//! the hearts.

use vstd::prelude::*;

verus! {

/// The game being played.
#[derive(PartialEq, Eq, Structural, Clone, Copy, Debug)]
pub enum GameMode {
    /// Free play.
    Sandbox,
    /// Keep the hearts off the floor; the score is the time survived.
    Juggler,
    /// Push a heart into the target rings.
    TargetZones,
    /// Bring the heart to the hole with as few touches as possible.
    HeartGolf,
}

/// A key, as far as the rules tell keys apart.
#[derive(PartialEq, Eq, Structural, Clone, Copy, Debug)]
pub enum Key {
    Esc,
    Up,
    Down,
    Left,
    Right,
    Char(char),
    Other,
}

/// An input event.
#[derive(PartialEq, Eq, Structural, Clone, Copy, Debug)]
pub enum Input {
    /// A key event; `press` is false for repeats and releases.
    Key { key: Key, press: bool },
    ScrollUp,
    ScrollDown,
    /// The terminal now has this many columns and rows.
    Resize(u16, u16),
    /// Any other event.
    Other,
}

/// A direction on the screen (rows grow downwards).
#[derive(PartialEq, Eq, Structural, Clone, Copy, Debug)]
pub enum Direction {
    Down,
    Left,
    Up,
    Right,
}

/// Where the single heart of a freshly started game is placed.
#[derive(PartialEq, Eq, Structural, Clone, Copy, Debug)]
pub enum Layout {
    /// Centred, a third of the way down; the spawn timer and the game time restart.
    Juggler,
    /// In the centre; the target is removed.
    Targets,
    /// Halfway down, a quarter of the way across; the target is removed.
    Golf,
}

/// What the caller has to do after an input.
#[derive(PartialEq, Eq, Structural, Clone, Copy, Debug)]
pub enum Action {
    Nothing,
    /// Leave the program.
    Quit,
    /// Add a heart at the cursor with a random motion.
    SpawnAtCursor,
    /// Give every heart a kick in this direction.
    PushAll(Direction),
    /// Replace all hearts by one resting heart placed as given.
    Restart(Layout),
    /// Remove the current target.
    ClearTarget,
}

/// The discrete state of the sandbox.
#[derive(Clone, Copy, Debug)]
pub struct GameState {
    pub mode: GameMode,
    /// The cursor pulls the hearts in.
    pub blackhole: bool,
    /// The cursor pushes the hearts away.
    pub whitehole: bool,
    /// 0 down, 1 left, 2 up, 3 right.
    pub gravity_dir: u8,
    /// Size of the hearts, in terminal columns.
    pub heart_size: u32,
    pub score: u32,
    /// Touches on the current golf hole.
    pub golf_touches: u32,
    /// The golf hole being played.
    pub golf_hole: u32,
    pub targets_hit: u32,
    /// The cursor was touching the golf heart at the last mouse move.
    pub golf_touching: bool,
    pub width: u16,
    pub height: u16,
}

pub const DEFAULT_HEART_SIZE: u32 = 24;

pub const MIN_HEART_SIZE: u32 = 8;

pub const MAX_HEART_SIZE: u32 = 60;

impl GameState {
    /// The invariant of every state the game reaches: at most one hole is
    /// on, the black hole only in free play, the white hole only in free
    /// play or the target game, gravity one of the four directions, and the
    /// heart size an even number of columns from 8 to 60.
    pub open spec fn wf(&self) -> bool {
        &&& !(self.blackhole && self.whitehole)
        &&& self.blackhole ==> self.mode == GameMode::Sandbox
        &&& self.whitehole ==> (self.mode == GameMode::Sandbox || self.mode
            == GameMode::TargetZones)
        &&& self.gravity_dir < 4
        &&& MIN_HEART_SIZE <= self.heart_size <= MAX_HEART_SIZE
        &&& self.heart_size % 2 == 0
    }

    /// The state at start-up, in free play on a terminal of the given size.
    pub open spec fn initial(width: u16, height: u16) -> GameState {
        GameState {
            mode: GameMode::Sandbox,
            blackhole: false,
            whitehole: false,
            gravity_dir: 0,
            heart_size: DEFAULT_HEART_SIZE,
            score: 0,
            golf_touches: 0,
            golf_hole: 0,
            targets_hit: 0,
            golf_touching: false,
            width,
            height,
        }
    }

    /// Computes `initial`.
    pub fn new(width: u16, height: u16) -> (s: GameState)
        ensures
            s == GameState::initial(width, height),
            s.wf(),
    {
        GameState {
            mode: GameMode::Sandbox,
            blackhole: false,
            whitehole: false,
            gravity_dir: 0,
            heart_size: DEFAULT_HEART_SIZE,
            score: 0,
            golf_touches: 0,
            golf_hole: 0,
            targets_hit: 0,
            golf_touching: false,
            width,
            height,
        }
    }

    /// The state and action after the key `c` is pressed.
    pub open spec fn press(self, c: char) -> (GameState, Action) {
        let s = self;
        if c == 'q' {
            (s, if s.mode == GameMode::Sandbox { Action::SpawnAtCursor } else { Action::Nothing })
        } else if c == 'w' {
            if s.mode == GameMode::Sandbox {
                (GameState { blackhole: !s.blackhole, whitehole: false, ..s }, Action::Nothing)
            } else {
                (s, Action::Nothing)
            }
        } else if c == 'e' {
            if s.mode == GameMode::Sandbox || s.mode == GameMode::TargetZones {
                (GameState { whitehole: !s.whitehole, blackhole: false, ..s }, Action::Nothing)
            } else {
                (s, Action::Nothing)
            }
        } else if c == 'r' {
            (GameState { gravity_dir: ((s.gravity_dir + 1) % 4) as u8, ..s }, Action::Nothing)
        } else if c == '0' {
            (
                GameState { mode: GameMode::Sandbox, blackhole: false, whitehole: false, ..s },
                Action::Nothing,
            )
        } else if c == '1' {
            (
                GameState {
                    mode: GameMode::Juggler,
                    blackhole: false,
                    whitehole: false,
                    score: 0,
                    gravity_dir: 0,
                    ..s
                },
                Action::Restart(Layout::Juggler),
            )
        } else if c == '2' {
            (
                GameState {
                    mode: GameMode::TargetZones,
                    blackhole: false,
                    whitehole: false,
                    targets_hit: 0,
                    gravity_dir: 0,
                    ..s
                },
                Action::Restart(Layout::Targets),
            )
        } else if c == '3' {
            (
                GameState {
                    mode: GameMode::HeartGolf,
                    blackhole: false,
                    whitehole: false,
                    golf_touches: 0,
                    golf_hole: 1,
                    score: 0,
                    gravity_dir: 0,
                    ..s
                },
                Action::Restart(Layout::Golf),
            )
        } else {
            (s, Action::Nothing)
        }
    }

    /// The state and action after `input`. Escape and the arrow keys act on
    /// every key event; the letter and digit keys only when pressed.
    pub open spec fn step(self, input: Input) -> (GameState, Action) {
        let s = self;
        match input {
            Input::Key { key, press } => match key {
                Key::Esc => (s, Action::Quit),
                Key::Up => (s, Action::PushAll(Direction::Up)),
                Key::Down => (s, Action::PushAll(Direction::Down)),
                Key::Left => (s, Action::PushAll(Direction::Left)),
                Key::Right => (s, Action::PushAll(Direction::Right)),
                Key::Char(c) => if press {
                    s.press(c)
                } else {
                    (s, Action::Nothing)
                },
                Key::Other => (s, Action::Nothing),
            },
            Input::ScrollUp => (
                GameState {
                    heart_size: if s.heart_size + 2 <= MAX_HEART_SIZE {
                        (s.heart_size + 2) as u32
                    } else {
                        MAX_HEART_SIZE
                    },
                    ..s
                },
                Action::Nothing,
            ),
            Input::ScrollDown => (
                GameState {
                    heart_size: if s.heart_size >= MIN_HEART_SIZE + 2 {
                        (s.heart_size - 2) as u32
                    } else {
                        MIN_HEART_SIZE
                    },
                    ..s
                },
                Action::Nothing,
            ),
            Input::Resize(w, h) => (
                GameState { width: w, height: h, ..s },
                if s.mode == GameMode::TargetZones || s.mode == GameMode::HeartGolf {
                    Action::ClearTarget
                } else {
                    Action::Nothing
                },
            ),
            Input::Other => (s, Action::Nothing),
        }
    }

    fn on_press(&mut self, c: char) -> (a: Action)
        requires
            old(self).wf(),
        ensures
            (*final(self), a) == old(self).press(c),
    {
        if c == 'q' {
            if self.mode == GameMode::Sandbox {
                Action::SpawnAtCursor
            } else {
                Action::Nothing
            }
        } else if c == 'w' {
            if self.mode == GameMode::Sandbox {
                self.blackhole = !self.blackhole;
                self.whitehole = false;
            }
            Action::Nothing
        } else if c == 'e' {
            if self.mode == GameMode::Sandbox || self.mode == GameMode::TargetZones {
                self.whitehole = !self.whitehole;
                self.blackhole = false;
            }
            Action::Nothing
        } else if c == 'r' {
            self.gravity_dir = (self.gravity_dir + 1) % 4;
            Action::Nothing
        } else if c == '0' {
            self.mode = GameMode::Sandbox;
            self.blackhole = false;
            self.whitehole = false;
            Action::Nothing
        } else if c == '1' {
            self.mode = GameMode::Juggler;
            self.blackhole = false;
            self.whitehole = false;
            self.score = 0;
            self.gravity_dir = 0;
            Action::Restart(Layout::Juggler)
        } else if c == '2' {
            self.mode = GameMode::TargetZones;
            self.blackhole = false;
            self.whitehole = false;
            self.targets_hit = 0;
            self.gravity_dir = 0;
            Action::Restart(Layout::Targets)
        } else if c == '3' {
            self.mode = GameMode::HeartGolf;
            self.blackhole = false;
            self.whitehole = false;
            self.golf_touches = 0;
            self.golf_hole = 1;
            self.score = 0;
            self.gravity_dir = 0;
            Action::Restart(Layout::Golf)
        } else {
            Action::Nothing
        }
    }

    /// Applies `input` to the state and returns what the caller must do.
    pub fn on_input(&mut self, input: Input) -> (a: Action)
        requires
            old(self).wf(),
        ensures
            (*final(self), a) == old(self).step(input),
            final(self).wf(),
    {
        proof {
            lemma_step_keeps_wf(*self, input);
        }
        match input {
            Input::Key { key, press } => match key {
                Key::Esc => Action::Quit,
                Key::Up => Action::PushAll(Direction::Up),
                Key::Down => Action::PushAll(Direction::Down),
                Key::Left => Action::PushAll(Direction::Left),
                Key::Right => Action::PushAll(Direction::Right),
                Key::Char(c) => if press {
                    self.on_press(c)
                } else {
                    Action::Nothing
                },
                Key::Other => Action::Nothing,
            },
            Input::ScrollUp => {
                self.heart_size = if self.heart_size + 2 <= MAX_HEART_SIZE {
                    self.heart_size + 2
                } else {
                    MAX_HEART_SIZE
                };
                Action::Nothing
            },
            Input::ScrollDown => {
                self.heart_size = if self.heart_size >= MIN_HEART_SIZE + 2 {
                    self.heart_size - 2
                } else {
                    MIN_HEART_SIZE
                };
                Action::Nothing
            },
            Input::Resize(w, h) => {
                self.width = w;
                self.height = h;
                if self.mode == GameMode::TargetZones || self.mode == GameMode::HeartGolf {
                    Action::ClearTarget
                } else {
                    Action::Nothing
                }
            },
            Input::Other => Action::Nothing,
        }
    }
}

/// Every input keeps the state well formed.
pub proof fn lemma_step_keeps_wf(s: GameState, input: Input)
    requires
        s.wf(),
    ensures
        s.step(input).0.wf(),
{
}


/// The most hearts the juggler game spawns up to.
pub const JUGGLER_MAX_HEARTS: usize = 20;

impl GameState {
    /// The direction gravity pulls in.
    pub open spec fn gravity(&self) -> Direction {
        if self.gravity_dir == 0 {
            Direction::Down
        } else if self.gravity_dir == 1 {
            Direction::Left
        } else if self.gravity_dir == 2 {
            Direction::Up
        } else {
            Direction::Right
        }
    }

    /// Computes `gravity`.
    pub fn gravity_direction(&self) -> (d: Direction)
        ensures
            d == self.gravity(),
    {
        if self.gravity_dir == 0 {
            Direction::Down
        } else if self.gravity_dir == 1 {
            Direction::Left
        } else if self.gravity_dir == 2 {
            Direction::Up
        } else {
            Direction::Right
        }
    }

    /// Moving the cursor into a heart kicks it only while no hole is on.
    pub fn cursor_kicks(&self) -> (b: bool)
        ensures
            b == (!self.blackhole && !self.whitehole),
    {
        !self.blackhole && !self.whitehole
    }

    /// Columns kept free at the right of the play area: the side panel and
    /// its border during a game, the border alone in free play.
    pub fn right_margin(&self) -> (m: u16)
        ensures
            m == (if self.mode != GameMode::Sandbox { 27u16 } else { 2u16 }),
    {
        if self.mode != GameMode::Sandbox {
            27
        } else {
            2
        }
    }

    /// The state after a mouse move that kicked (`any_hit`) or missed every
    /// heart: in golf a new touch is counted when the cursor was not already
    /// touching.
    pub open spec fn after_swipe(self, any_hit: bool) -> GameState {
        if self.mode == GameMode::HeartGolf {
            GameState {
                golf_touches: if any_hit && !self.golf_touching {
                    (self.golf_touches + 1) as u32
                } else {
                    self.golf_touches
                },
                golf_touching: any_hit,
                ..self
            }
        } else {
            self
        }
    }

    /// Applies `after_swipe`.
    pub fn swipe(&mut self, any_hit: bool)
        requires
            old(self).wf(),
            old(self).golf_touches < u32::MAX,
        ensures
            *final(self) == old(self).after_swipe(any_hit),
            final(self).wf(),
    {
        if self.mode == GameMode::HeartGolf {
            if any_hit && !self.golf_touching {
                self.golf_touches = self.golf_touches + 1;
            }
            self.golf_touching = any_hit;
        }
    }

    /// The state after a frame of the juggler game: the score is the time
    /// survived in tenths of a second, and the game ends (back to free play)
    /// when a heart touched the floor.
    pub open spec fn after_juggler_frame(self, tenths: u32, floor_touched: bool) -> GameState {
        GameState {
            score: tenths,
            mode: if floor_touched {
                GameMode::Sandbox
            } else {
                self.mode
            },
            ..self
        }
    }

    /// Applies `after_juggler_frame`.
    pub fn juggler_frame(&mut self, tenths: u32, floor_touched: bool)
        requires
            old(self).wf(),
            old(self).mode == GameMode::Juggler,
        ensures
            *final(self) == old(self).after_juggler_frame(tenths, floor_touched),
            final(self).wf(),
    {
        self.score = tenths;
        if floor_touched {
            self.mode = GameMode::Sandbox;
        }
    }

    /// The state after a heart reached the target: one more hit, worth 100
    /// points each.
    pub open spec fn after_target_hit(self) -> GameState {
        GameState {
            targets_hit: (self.targets_hit + 1) as u32,
            score: ((self.targets_hit + 1) * 100) as u32,
            ..self
        }
    }

    /// Applies `after_target_hit`; the caller removes the target.
    pub fn target_hit(&mut self)
        requires
            old(self).wf(),
            (old(self).targets_hit + 1) * 100 <= u32::MAX,
        ensures
            *final(self) == old(self).after_target_hit(),
            final(self).wf(),
    {
        self.targets_hit = self.targets_hit + 1;
        self.score = self.targets_hit * 100;
    }

    /// Points for sinking the golf heart after `touches` touches: 1000 less
    /// 50 per touch, never below 0.
    pub open spec fn hole_points(touches: u32) -> u32 {
        if touches * 50 >= 1000 {
            0
        } else {
            (1000 - touches * 50) as u32
        }
    }

    /// The state after the golf heart reached the hole: the points are
    /// added, the next hole starts with no touches.
    pub open spec fn after_hole(self) -> GameState {
        GameState {
            score: (self.score + GameState::hole_points(self.golf_touches)) as u32,
            golf_hole: (self.golf_hole + 1) as u32,
            golf_touches: 0,
            ..self
        }
    }

    /// Applies `after_hole`; the caller removes the target and puts the
    /// heart back.
    pub fn hole_done(&mut self)
        requires
            old(self).wf(),
            old(self).golf_touches * 50 <= u32::MAX,
            old(self).score + GameState::hole_points(old(self).golf_touches) <= u32::MAX,
            old(self).golf_hole < u32::MAX,
        ensures
            *final(self) == old(self).after_hole(),
            final(self).wf(),
    {
        let points = 1000u32.saturating_sub(self.golf_touches * 50);
        self.score = self.score + points;
        self.golf_hole = self.golf_hole + 1;
        self.golf_touches = 0;
    }
}

/// The juggler game adds a heart when five seconds passed since the last
/// one and there are fewer than 20.
pub fn juggler_should_spawn(five_seconds_passed: bool, hearts: usize) -> (b: bool)
    ensures
        b == (five_seconds_passed && hearts < JUGGLER_MAX_HEARTS),
{
    five_seconds_passed && hearts < JUGGLER_MAX_HEARTS
}


// ---------------------------------------------------------------- laws

pub open spec fn pressed(c: char) -> Input {
    Input::Key { key: Key::Char(c), press: true }
}

/// Pressing `r` four times turns gravity once round and changes nothing else.
pub proof fn lemma_gravity_cycles(s: GameState)
    requires
        s.wf(),
    ensures
        s.step(pressed('r')).0.step(pressed('r')).0.step(pressed('r')).0.step(pressed('r')).0
            == s,
        s.step(pressed('r')).0.gravity_dir == (s.gravity_dir + 1) % 4,
{
}

/// In free play, with the white hole off, `w` twice leaves the state as it was.
pub proof fn lemma_blackhole_toggle(s: GameState)
    requires
        s.wf(),
        s.mode == GameMode::Sandbox,
        !s.whitehole,
    ensures
        s.step(pressed('w')).0.blackhole == !s.blackhole,
        s.step(pressed('w')).0.step(pressed('w')).0 == s,
{
}

/// In free play or the target game, with the black hole off, `e` twice leaves
/// the state as it was.
pub proof fn lemma_whitehole_toggle(s: GameState)
    requires
        s.wf(),
        s.mode == GameMode::Sandbox || s.mode == GameMode::TargetZones,
        !s.blackhole,
    ensures
        s.step(pressed('e')).0.whitehole == !s.whitehole,
        s.step(pressed('e')).0.step(pressed('e')).0 == s,
{
}

/// Starting a game, from any state, turns the holes off, points gravity down
/// and resets that game's counters.
pub proof fn lemma_games_start_fresh(s: GameState)
    requires
        s.wf(),
    ensures
        ({
            let (t, a) = s.step(pressed('1'));
            t.mode == GameMode::Juggler && t.score == 0 && t.gravity_dir == 0 && !t.blackhole
                && !t.whitehole && a == Action::Restart(Layout::Juggler)
        }),
        ({
            let (t, a) = s.step(pressed('2'));
            t.mode == GameMode::TargetZones && t.targets_hit == 0 && t.gravity_dir == 0
                && !t.blackhole && !t.whitehole && a == Action::Restart(Layout::Targets)
        }),
        ({
            let (t, a) = s.step(pressed('3'));
            t.mode == GameMode::HeartGolf && t.score == 0 && t.golf_hole == 1 && t.golf_touches
                == 0 && t.gravity_dir == 0 && !t.blackhole && !t.whitehole && a
                == Action::Restart(Layout::Golf)
        }),
        ({
            let (t, a) = s.step(pressed('0'));
            t.mode == GameMode::Sandbox && !t.blackhole && !t.whitehole && a == Action::Nothing
        }),
{
}

/// Escape always quits and changes nothing; a letter or digit key that is
/// not a press does nothing.
pub proof fn lemma_quiet_keys(s: GameState, c: char)
    ensures
        s.step(Input::Key { key: Key::Esc, press: true }) == (s, Action::Quit),
        s.step(Input::Key { key: Key::Esc, press: false }) == (s, Action::Quit),
        s.step(Input::Key { key: Key::Char(c), press: false }) == (s, Action::Nothing),
{
}

/// Scrolling up then down restores the heart size unless it was at the
/// largest size; down then up unless it was at the smallest.
pub proof fn lemma_scroll_round_trip(s: GameState)
    requires
        s.wf(),
    ensures
        s.heart_size < MAX_HEART_SIZE ==> s.step(Input::ScrollUp).0.step(Input::ScrollDown).0
            == s,
        s.heart_size > MIN_HEART_SIZE ==> s.step(Input::ScrollDown).0.step(Input::ScrollUp).0
            == s,
        s.step(Input::ScrollUp).0.heart_size >= s.heart_size,
        s.step(Input::ScrollDown).0.heart_size <= s.heart_size,
{
}

/// A golf hole is worth at most 1000 points, 1000 without a touch, and 50
/// fewer for each touch down to 0.
pub proof fn lemma_hole_points(touches: u32)
    ensures
        GameState::hole_points(touches) <= 1000,
        touches == 0 ==> GameState::hole_points(touches) == 1000,
        touches >= 20 ==> GameState::hole_points(touches) == 0,
        touches < 20 ==> GameState::hole_points(touches) + 50 * touches == 1000,
{
}

/// A golf touch is counted when the cursor starts touching the heart, not
/// while it stays on it.
pub proof fn lemma_touch_counted_once(s: GameState)
    requires
        s.mode == GameMode::HeartGolf,
        !s.golf_touching,
        s.golf_touches + 2 <= u32::MAX,
    ensures
        s.after_swipe(true).after_swipe(true).golf_touches == s.golf_touches + 1,
        s.after_swipe(true).after_swipe(false).after_swipe(true).golf_touches == s.golf_touches
            + 2,
        s.after_swipe(false).golf_touches == s.golf_touches,
{
}

/// In the target game the score is always 100 per target hit.
pub proof fn lemma_target_score(s: GameState)
    requires
        (s.targets_hit + 1) * 100 <= u32::MAX,
    ensures
        s.after_target_hit().score == s.after_target_hit().targets_hit * 100,
        s.after_target_hit().targets_hit == s.targets_hit + 1,
{
}

/// Sinking a golf heart adds its points, moves to the next hole, and the
/// next hole starts untouched.
pub proof fn lemma_hole_scoring(s: GameState)
    requires
        s.score + GameState::hole_points(s.golf_touches) <= u32::MAX,
        s.golf_hole < u32::MAX,
    ensures
        s.after_hole().score == s.score + GameState::hole_points(s.golf_touches),
        s.after_hole().golf_hole == s.golf_hole + 1,
        s.after_hole().golf_touches == 0,
        s.after_hole().mode == s.mode,
{
}


/// Each arrow key, pressed or not, pushes every heart in its own direction
/// and leaves the state alone.
pub proof fn lemma_arrows_push_their_way(s: GameState, p: bool)
    ensures
        s.step(Input::Key { key: Key::Down, press: p }) == (s, Action::PushAll(Direction::Down)),
        s.step(Input::Key { key: Key::Up, press: p }) == (s, Action::PushAll(Direction::Up)),
        s.step(Input::Key { key: Key::Left, press: p }) == (s, Action::PushAll(Direction::Left)),
        s.step(Input::Key { key: Key::Right, press: p }) == (s, Action::PushAll(Direction::Right)),
        s.step(Input::Key { key: Key::Other, press: p }) == (s, Action::Nothing),
{
}

/// `q` spawns a heart at the cursor in free play and does nothing in a game;
/// the state is unchanged either way.
pub proof fn lemma_spawn_only_in_free_play(s: GameState)
    ensures
        s.step(pressed('q')).0 == s,
        s.mode == GameMode::Sandbox ==> s.step(pressed('q')).1 == Action::SpawnAtCursor,
        s.mode != GameMode::Sandbox ==> s.step(pressed('q')).1 == Action::Nothing,
{
}

/// `w` outside free play and `e` in the juggler and golf games change nothing.
pub proof fn lemma_holes_refused_in_games(s: GameState)
    ensures
        s.mode != GameMode::Sandbox ==> s.step(pressed('w')) == (s, Action::Nothing),
        (s.mode == GameMode::Juggler || s.mode == GameMode::HeartGolf) ==> s.step(pressed('e'))
            == (s, Action::Nothing),
        s.mode == GameMode::Sandbox ==> s.step(pressed('w')).0.blackhole == !s.blackhole
            && !s.step(pressed('w')).0.whitehole,
{
}

/// Scrolling changes only the heart size, by two columns within 8 to 60.
pub proof fn lemma_scroll_steps_by_two(s: GameState)
    requires
        s.wf(),
    ensures
        s.step(Input::ScrollUp) == (GameState {
            heart_size: if s.heart_size == 60 { 60 } else { (s.heart_size + 2) as u32 },
            ..s
        }, Action::Nothing),
        s.step(Input::ScrollDown) == (GameState {
            heart_size: if s.heart_size == 8 { 8 } else { (s.heart_size - 2) as u32 },
            ..s
        }, Action::Nothing),
{
}

/// A resize records the new size, changes nothing else, and removes the
/// target exactly in the target and golf games.
pub proof fn lemma_resize(s: GameState, w: u16, h: u16)
    ensures
        s.step(Input::Resize(w, h)).0 == (GameState { width: w, height: h, ..s }),
        (s.mode == GameMode::TargetZones || s.mode == GameMode::HeartGolf) ==> s.step(
            Input::Resize(w, h),
        ).1 == Action::ClearTarget,
        (s.mode == GameMode::Sandbox || s.mode == GameMode::Juggler) ==> s.step(
            Input::Resize(w, h),
        ).1 == Action::Nothing,
        s.step(Input::Other) == (s, Action::Nothing),
{
}


/// A juggler frame sets the score to the tenths of a second survived and
/// ends the game, back to free play, exactly when a heart touched the
/// floor; nothing else changes.
pub proof fn lemma_juggler_frame(s: GameState, tenths: u32, floor_touched: bool)
    requires
        s.mode == GameMode::Juggler,
    ensures
        s.after_juggler_frame(tenths, floor_touched).score == tenths,
        s.after_juggler_frame(tenths, floor_touched).mode == (if floor_touched {
            GameMode::Sandbox
        } else {
            GameMode::Juggler
        }),
        s.after_juggler_frame(tenths, floor_touched) == (GameState {
            score: tenths,
            mode: s.after_juggler_frame(tenths, floor_touched).mode,
            ..s
        }),
{
}

/// Gravity pulls down, left, up and right for directions 0, 1, 2 and 3.
pub proof fn lemma_gravity_directions(s: GameState)
    requires
        s.wf(),
    ensures
        s.gravity_dir == 0 ==> s.gravity() == Direction::Down,
        s.gravity_dir == 1 ==> s.gravity() == Direction::Left,
        s.gravity_dir == 2 ==> s.gravity() == Direction::Up,
        s.gravity_dir == 3 ==> s.gravity() == Direction::Right,
{
}

} // verus!
