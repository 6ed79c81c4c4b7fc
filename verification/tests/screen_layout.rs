use heart_cli::game::{GameMode, GameState};
use heart_cli::screen::{
    counter_text, frame_bottom, frame_cursor, frame_panel, frame_top, mode_title_text,
    score_text, Geometry, Shade, Write,
};

fn lum_of(s: Shade) -> f64 {
    match s {
        Shade::Wall => -1.0,
        Shade::GravityWall => -1.5,
        Shade::Label => -8.5,
        Shade::Blank => 0.0,
        Shade::Cursor => -5.0,
        Shade::Void => -10.0,
    }
}

fn apply(writes: &[Write], output: &mut [u8], lum: &mut [f64]) {
    for &(idx, ch, shade) in writes {
        output[idx] = ch;
        lum[idx] = lum_of(shade);
    }
}

/// The drawing of the screen as plain loops over the buffers, to compare against.
#[allow(clippy::too_many_arguments)]
fn drawn_by_loops(
    w: usize,
    h: usize,
    game_mode: GameMode,
    gravity_dir: u8,
    mode_str: &str,
    score_str: &str,
    info_str: &str,
    cursor: Option<(i32, i32)>,
    blackhole: bool,
    output: &mut [u8],
    lum_buffer: &mut [f64],
) {
    let panel_top = h.saturating_sub(5);
    let panel_x = w.saturating_sub(25);
    let right_border = if game_mode != GameMode::Sandbox && panel_x > 1 { panel_x } else { w - 1 };
    for x in 0..=right_border {
        let ch = if x == 0 || x == right_border { b'+' } else { b'-' };
        output[x] = ch;
        lum_buffer[x] = if gravity_dir == 2 { -1.5 } else { -1.0 };
    }
    for y in 1..panel_top {
        output[y * w] = b'|';
        lum_buffer[y * w] = if gravity_dir == 1 { -1.5 } else { -1.0 };
        if game_mode != GameMode::Sandbox && panel_x > 1 {
        } else {
            output[y * w + w - 1] = b'|';
            lum_buffer[y * w + w - 1] = if gravity_dir == 3 { -1.5 } else { -1.0 };
        }
    }
    if game_mode != GameMode::Sandbox && panel_x > 1 {
        for y in 1..panel_top {
            let idx = y * w + panel_x;
            output[idx] = b'|';
            lum_buffer[idx] = -1.0;
        }
        output[panel_x] = b'+';
        lum_buffer[panel_x] = -1.0;
        let idx = panel_top * w + panel_x;
        output[idx] = b'+';
        lum_buffer[idx] = -1.0;
        for x in (panel_x + 1)..(w - 1) {
            output[x] = b'-';
            lum_buffer[x] = -1.0;
        }
        for (row, text) in [(2, mode_str), (4, score_str), (6, info_str)] {
            for (i, ch) in text.bytes().enumerate() {
                if panel_x + 2 + i < w - 1 {
                    let idx = row * w + panel_x + 2 + i;
                    output[idx] = ch;
                    lum_buffer[idx] = -8.5;
                }
            }
        }
    }
    if let Some((cx, cy)) = cursor {
        if cx >= 1 && cx < w as i32 - 1 && cy >= 1 && cy < h as i32 - 1 {
            let idx = cy as usize * w + cx as usize;
            output[idx] = b'O';
            lum_buffer[idx] = -5.0;
        }
    }
    if blackhole {
        let (cx, cy) = cursor.unwrap_or((0, 0));
        for dy in -1i32..=1 {
            for dx in -2i32..=2 {
                let sx = cx + dx;
                let sy = cy + dy;
                if sx >= 1 && sx < w as i32 - 1 && sy >= 1 && sy < h as i32 - 1 {
                    let dist = ((dx as f64 / 2.0).powi(2) + (dy as f64).powi(2)).sqrt();
                    if dist <= 1.2 {
                        let idx = sy as usize * w + sx as usize;
                        output[idx] = b' ';
                        lum_buffer[idx] = -10.0;
                    }
                }
            }
        }
    }
    let right_edge = right_border;
    for x in 0..w {
        let idx = panel_top * w + x;
        let ch = if x == 0 || x == w - 1 || x == right_edge { b'+' } else { b'-' };
        output[idx] = ch;
        if x <= right_edge {
            lum_buffer[idx] = if gravity_dir == 0 { -1.5 } else { -1.0 };
        } else {
            lum_buffer[idx] = -1.0;
        }
    }
    for y in (panel_top + 1)..h {
        for x in 1..(w - 1) {
            let idx = y * w + x;
            output[idx] = b' ';
            lum_buffer[idx] = 0.0;
        }
    }
    let controls1 = "0: Sandbox | 1: Juggler | 2: Targets | 3: Golf | R: gravity | Q: spawn | ESC: quit";
    let controls2 = "W: black hole | E: white hole | Arrows: push | Scroll: resize";
    for (row, text) in [(panel_top + 1, controls1), (panel_top + 2, controls2)] {
        for (i, ch) in text.bytes().enumerate() {
            if 2 + i < w - 1 {
                let idx = row * w + 2 + i;
                output[idx] = ch;
                lum_buffer[idx] = -8.5;
            }
        }
    }
    for y in panel_top..h {
        output[y * w] = b'|';
        output[y * w + w - 1] = b'|';
        lum_buffer[y * w] = -1.0;
        lum_buffer[y * w + w - 1] = -1.0;
    }
    for x in 0..w {
        let idx = (h - 1) * w + x;
        output[idx] = if x == 0 || x == w - 1 { b'+' } else { b'-' };
        lum_buffer[idx] = -1.0;
    }
}

fn state(mode_key: char) -> GameState {
    let mut s = GameState::new(100, 30);
    s.on_input(heart_cli::game::Input::Key { key: heart_cli::game::Key::Char(mode_key), press: true });
    s
}

fn check(w: u16, h: u16, s: &GameState, cursor: Option<(i32, i32)>, info: &str) {
    let g = Geometry::new(w, h, s.mode, s.gravity_dir);
    let (wu, hu) = (w as usize, h as usize);
    let title = mode_title_text(s.mode);
    let score = score_text(s.score);
    let info_bytes: Vec<u8> = info.bytes().collect();
    let mut out_a = vec![b'x'; wu * hu];
    let mut lum_a = vec![7.0; wu * hu];
    apply(&frame_top(&g), &mut out_a, &mut lum_a);
    apply(&frame_panel(&g, &title, &score, &info_bytes), &mut out_a, &mut lum_a);
    let (cx, cy) = cursor.unwrap_or((0, 0));
    apply(&frame_cursor(&g, cx, cy, cursor.is_some(), s.blackhole), &mut out_a, &mut lum_a);
    apply(&frame_bottom(&g), &mut out_a, &mut lum_a);
    let mut out_b = vec![b'x'; wu * hu];
    let mut lum_b = vec![7.0; wu * hu];
    drawn_by_loops(
        wu,
        hu,
        s.mode,
        s.gravity_dir,
        &String::from_utf8(title).unwrap(),
        &String::from_utf8(score).unwrap(),
        info,
        cursor,
        s.blackhole,
        &mut out_b,
        &mut lum_b,
    );
    assert_eq!(out_a, out_b, "{}x{} {:?}", w, h, s.mode);
    assert_eq!(lum_a, lum_b, "{}x{} {:?}", w, h, s.mode);
}

#[test]
fn layout_matches_plain_loops() {
    let mut golf = state('3');
    golf.swipe(true);
    let info_golf = String::from_utf8(counter_text(&golf).unwrap()).unwrap();
    for (w, h) in [(100u16, 30u16), (60, 12), (40, 10), (28, 9), (27, 8)] {
        check(w, h, &state('0'), Some((10, 5)), "");
        check(w, h, &golf, Some((3, 2)), &info_golf);
        check(w, h, &state('2'), None, " Hits: 0 ");
        check(w, h, &state('1'), Some((1, 1)), " Time: 3.2s ");
    }
}

#[test]
fn black_hole_and_gravity_walls_match_plain_loops() {
    let mut s = state('0');
    s.on_input(heart_cli::game::Input::Key { key: heart_cli::game::Key::Char('w'), press: true });
    for g in 0..4 {
        for (cx, cy) in [(10, 5), (1, 1), (0, 0), (58, 10), (-3, 4)] {
            check(60, 12, &s, Some((cx, cy)), "");
        }
        s.on_input(heart_cli::game::Input::Key { key: heart_cli::game::Key::Char('r'), press: true });
        assert_eq!(s.gravity_dir, (g + 1) % 4);
    }
}

#[test]
fn panel_texts() {
    assert_eq!(mode_title_text(GameMode::HeartGolf), b" GOLF ".to_vec());
    assert_eq!(mode_title_text(GameMode::Juggler), b" JUGGLER ".to_vec());
    assert_eq!(score_text(1234), b" Score: 1234 ".to_vec());
    let mut s = state('3');
    s.swipe(true);
    assert_eq!(counter_text(&s), Some(b" Hole: 1 Hits: 1 ".to_vec()));
    let mut t = state('2');
    t.target_hit();
    assert_eq!(counter_text(&t), Some(b" Hits: 1 ".to_vec()));
    assert_eq!(counter_text(&state('1')), None);
    assert_eq!(counter_text(&state('0')), Some(Vec::new()));
}

#[test]
fn geometry_of_small_and_large_screens() {
    let g = Geometry::new(100, 30, GameMode::TargetZones, 0);
    assert_eq!((g.panel_top, g.panel_x, g.panel, g.right_edge), (25, 75, true, 75));
    let g = Geometry::new(26, 4, GameMode::TargetZones, 0);
    assert_eq!((g.panel_top, g.panel_x, g.panel, g.right_edge), (0, 1, false, 25));
    let g = Geometry::new(100, 30, GameMode::Sandbox, 0);
    assert_eq!((g.panel, g.right_edge), (false, 99));
}
