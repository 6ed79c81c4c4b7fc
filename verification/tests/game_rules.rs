use heart_cli::game::{juggler_should_spawn, Action, Direction, GameMode, GameState, Input, Key, Layout};

fn press(c: char) -> Input {
    Input::Key { key: Key::Char(c), press: true }
}

fn release(c: char) -> Input {
    Input::Key { key: Key::Char(c), press: false }
}

#[test]
fn starts_in_free_play() {
    let s = GameState::new(80, 24);
    assert_eq!(s.mode, GameMode::Sandbox);
    assert_eq!((s.gravity_dir, s.heart_size, s.score), (0, 24, 0));
    assert!(!s.blackhole && !s.whitehole);
}

#[test]
fn escape_quits_and_arrows_push() {
    let mut s = GameState::new(80, 24);
    assert_eq!(s.on_input(Input::Key { key: Key::Esc, press: false }), Action::Quit);
    assert_eq!(s.on_input(Input::Key { key: Key::Up, press: true }), Action::PushAll(Direction::Up));
    assert_eq!(s.on_input(Input::Key { key: Key::Left, press: false }), Action::PushAll(Direction::Left));
    assert_eq!(s.on_input(Input::Key { key: Key::Other, press: true }), Action::Nothing);
}

#[test]
fn gravity_turns_round_in_four_presses() {
    let mut s = GameState::new(80, 24);
    let dirs: Vec<Direction> = (0..5)
        .map(|_| {
            let d = s.gravity_direction();
            s.on_input(press('r'));
            d
        })
        .collect();
    assert_eq!(dirs, vec![Direction::Down, Direction::Left, Direction::Up, Direction::Right, Direction::Down]);
    s.on_input(release('r'));
    assert_eq!(s.gravity_dir, 1);
}

#[test]
fn holes_exclude_each_other() {
    let mut s = GameState::new(80, 24);
    s.on_input(press('w'));
    assert!(s.blackhole && !s.whitehole);
    s.on_input(press('e'));
    assert!(!s.blackhole && s.whitehole);
    s.on_input(press('e'));
    assert!(!s.blackhole && !s.whitehole);
    s.on_input(press('w'));
    s.on_input(press('w'));
    assert!(!s.blackhole);
    assert!(!s.cursor_kicks() == (s.blackhole || s.whitehole));
}

#[test]
fn spawning_only_in_free_play() {
    let mut s = GameState::new(80, 24);
    assert_eq!(s.on_input(press('q')), Action::SpawnAtCursor);
    assert_eq!(s.on_input(release('q')), Action::Nothing);
    assert_eq!(s.on_input(press('1')), Action::Restart(Layout::Juggler));
    assert_eq!(s.on_input(press('q')), Action::Nothing);
    s.on_input(press('w'));
    assert!(!s.blackhole);
}

#[test]
fn white_hole_allowed_in_target_game_only() {
    let mut s = GameState::new(80, 24);
    s.on_input(press('2'));
    s.on_input(press('e'));
    assert!(s.whitehole);
    s.on_input(press('3'));
    assert!(!s.whitehole);
    s.on_input(press('e'));
    assert!(!s.whitehole);
    assert_eq!(s.right_margin(), 27);
    s.on_input(press('0'));
    assert_eq!(s.right_margin(), 2);
}

#[test]
fn games_start_with_fresh_counters() {
    let mut s = GameState::new(80, 24);
    s.on_input(press('r'));
    assert_eq!(s.on_input(press('3')), Action::Restart(Layout::Golf));
    assert_eq!((s.mode, s.golf_hole, s.golf_touches, s.score, s.gravity_dir), (GameMode::HeartGolf, 1, 0, 0, 0));
    s.swipe(true);
    s.hole_done();
    assert_eq!(s.on_input(press('2')), Action::Restart(Layout::Targets));
    assert_eq!((s.mode, s.targets_hit), (GameMode::TargetZones, 0));
    assert_eq!(s.score, 950);
}

#[test]
fn scroll_resizes_within_bounds() {
    let mut s = GameState::new(80, 24);
    for _ in 0..30 {
        s.on_input(Input::ScrollUp);
    }
    assert_eq!(s.heart_size, 60);
    s.on_input(Input::ScrollDown);
    assert_eq!(s.heart_size, 58);
    for _ in 0..40 {
        s.on_input(Input::ScrollDown);
    }
    assert_eq!(s.heart_size, 8);
    s.on_input(Input::ScrollUp);
    s.on_input(Input::ScrollDown);
    assert_eq!(s.heart_size, 8);
}

#[test]
fn resize_clears_target_in_target_games() {
    let mut s = GameState::new(80, 24);
    assert_eq!(s.on_input(Input::Resize(100, 30)), Action::Nothing);
    assert_eq!((s.width, s.height), (100, 30));
    s.on_input(press('2'));
    assert_eq!(s.on_input(Input::Resize(90, 30)), Action::ClearTarget);
    s.on_input(press('3'));
    assert_eq!(s.on_input(Input::Resize(90, 31)), Action::ClearTarget);
    s.on_input(press('1'));
    assert_eq!(s.on_input(Input::Resize(90, 32)), Action::Nothing);
    assert_eq!(s.on_input(Input::Other), Action::Nothing);
}

#[test]
fn golf_counts_touches_and_scores_holes() {
    let mut s = GameState::new(80, 24);
    s.on_input(press('3'));
    s.swipe(true);
    s.swipe(true);
    s.swipe(false);
    s.swipe(true);
    assert_eq!(s.golf_touches, 2);
    s.hole_done();
    assert_eq!((s.score, s.golf_hole, s.golf_touches), (900, 2, 0));
    for _ in 0..25 {
        s.swipe(true);
        s.swipe(false);
    }
    s.hole_done();
    assert_eq!((s.score, s.golf_hole), (900, 3));
    s.hole_done();
    assert_eq!(s.score, 1900);
}

#[test]
fn swipes_outside_golf_change_nothing() {
    let mut s = GameState::new(80, 24);
    s.swipe(true);
    assert_eq!(s.golf_touches, 0);
    assert!(!s.golf_touching);
}

#[test]
fn targets_score_100_each() {
    let mut s = GameState::new(80, 24);
    s.on_input(press('2'));
    s.target_hit();
    s.target_hit();
    s.target_hit();
    assert_eq!((s.targets_hit, s.score), (3, 300));
}

#[test]
fn juggler_scores_time_and_ends_on_the_floor() {
    let mut s = GameState::new(80, 24);
    s.on_input(press('1'));
    s.juggler_frame(17, false);
    assert_eq!((s.score, s.mode), (17, GameMode::Juggler));
    s.juggler_frame(42, true);
    assert_eq!((s.score, s.mode), (42, GameMode::Sandbox));
    assert!(juggler_should_spawn(true, 19));
    assert!(!juggler_should_spawn(true, 20));
    assert!(!juggler_should_spawn(false, 1));
}
