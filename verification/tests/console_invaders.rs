use dc34_badge::airsea::AirSea;
use dc34_badge::attract::{
    airsea_autopilot, autopilot, led_colour, EndReason, FrameStart, Game, Session, RUN_MS,
};

fn lit(fb: &[u32; 512], x: usize, y: usize) -> bool {
    let bn = x + 128 * y;
    fb[bn >> 5] & (1u32 << (bn & 31)) == 0
}

fn alive_count(g: &Game) -> usize {
    g.alive.iter().map(|r| r.iter().filter(|a| **a).count()).sum()
}

#[test]
fn console_new_game() {
    let g = Game::new(0x1234);
    assert_eq!((g.fx, g.fy, g.dir, g.player), (6, 26, 1, 51));
    assert_eq!(g.shot, None);
    assert_eq!(g.bomb, None);
    assert_eq!(g.score, 0);
    assert!(!g.over);
    assert_eq!(g.tick, 0);
    assert_eq!(g.rng, 0x1235);
    assert_eq!(alive_count(&g), 15);
}

#[test]
fn console_autopilot_first_move() {
    let g = Game::new(0x1234);
    assert_eq!(autopilot(&g), (-1, false));
}

#[test]
fn console_sixty_autopilot_frames() {
    let mut g = Game::new(0x1234);
    let mut kills = Vec::new();
    for i in 0..60 {
        let (d, f) = autopilot(&g);
        if g.step(d, f) {
            kills.push((i, g.score));
        }
    }
    assert_eq!(kills, vec![(15, 10)]);
    assert_eq!((g.fx, g.fy, g.dir, g.player), (12, 31, -1, 31));
    assert_eq!(g.shot, Some((44, 94)));
    assert_eq!(g.bomb, Some((46, 110)));
    assert_eq!(g.score, 10);
    assert!(g.over);
    assert_eq!(g.tick, 24);
    assert_eq!(g.rng, 3767523532);
    assert_eq!(alive_count(&g), 14);
}

#[test]
fn console_score_counts_kills() {
    // every frame that reports a kill adds 10, 20 or 30 and removes one alien
    let mut g = Game::new(42);
    for _ in 0..400 {
        if g.over {
            break;
        }
        let before = g.score;
        let left = alive_count(&g);
        let (d, f) = autopilot(&g);
        let hit = g.step(d, f);
        if hit {
            assert!([10, 20, 30].contains(&(g.score - before)));
            assert_eq!(alive_count(&g), left - 1);
        } else {
            assert_eq!(g.score, before);
            assert_eq!(alive_count(&g), left);
        }
    }
}

#[test]
fn console_over_game_stands_still() {
    let mut g = Game::new(1);
    g.over = true;
    let tick = g.tick;
    assert!(!g.step(1, true));
    assert_eq!(g.tick, tick);
    assert_eq!(g.shot, None);
}

#[test]
fn console_render_new_game() {
    let g = Game::new(3);
    let mut fb = [0u32; 512];
    g.render(&mut fb);
    // the ground line
    assert!(lit(&fb, 0, 127));
    assert!(lit(&fb, 127, 127));
    // the cannon's tip and its full base row
    assert!(lit(&fb, 63, 108));
    assert!(!lit(&fb, 61, 108));
    assert!(lit(&fb, 51, 116));
    assert!(lit(&fb, 76, 116));
    assert!(!lit(&fb, 77, 116));
    // the top left squid's first row
    assert!(lit(&fb, 12, 26));
    assert!(!lit(&fb, 11, 26));
}

#[test]
fn console_led_colour_values() {
    assert_eq!(led_colour(0, 0), (40, 0, 0));
    assert_eq!(led_colour(0, 8), (255, 40, 0));
    assert_eq!(led_colour(50, 0), (32, 40, 0));
    assert_eq!(led_colour(100, 0), (0, 40, 16));
    assert_eq!(led_colour(255, 0), (40, 0, 0));
}

#[test]
fn console_airsea_autopilot_moves() {
    let s = AirSea::new(0);
    let (d, _f) = airsea_autopilot(&s);
    assert!(d == -1 || d == 0 || d == 1);
}

#[test]
fn session_ends_on_quit_and_timeout() {
    let mut s = Session::new(7);
    assert!(s.demo);
    assert_eq!(s.frames, 0);
    assert_eq!(s.begin_frame(false, 0), FrameStart::Play);
    assert_eq!(s.begin_frame(false, RUN_MS), FrameStart::Play);
    assert_eq!(s.begin_frame(false, RUN_MS + 1), FrameStart::Ended(EndReason::Timeout));
    assert_eq!(s.begin_frame(true, 0), FrameStart::Ended(EndReason::Quit));
}

#[test]
fn session_demo_restarts_lost_game() {
    let mut s = Session::new(7);
    s.game.over = true;
    assert_eq!(s.begin_frame(false, 0), FrameStart::Restarted);
    let next = 7u32.wrapping_mul(1664525).wrapping_add(1013904223);
    assert_eq!(s.seed, next);
    assert!(!s.game.over);
    assert_eq!(s.game.rng, next | 1);
}

#[test]
fn session_human_loss_ends() {
    let mut s = Session::new(7);
    s.play_frame(1, false);
    assert!(!s.demo);
    s.game.over = true;
    assert_eq!(s.begin_frame(false, 0), FrameStart::Ended(EndReason::Destroyed));
}

#[test]
fn session_reasserts_every_twentieth_frame() {
    let mut s = Session::new(11);
    let mut played = 0u32;
    let mut reasserts = 0u32;
    while played < 40 {
        if s.begin_frame(false, 0) != FrameStart::Play {
            continue;
        }
        let r = s.play_frame(0, false);
        played += 1;
        assert_eq!(s.frames, played);
        assert_eq!(r, played % 20 == 0);
        if r {
            reasserts += 1;
        }
    }
    assert_eq!(reasserts, 2);
    assert!(s.demo);
}

#[test]
fn end_reason_labels() {
    assert_eq!(EndReason::Destroyed.label(), "destroyed");
    assert_eq!(EndReason::Quit.label(), "quit");
    assert_eq!(EndReason::Timeout.label(), "timeout");
}

#[test]
fn console_autopilot_aims_lowest_live_alien() {
    let mut g = Game::new(1);
    g.alive = [[false; 5]; 3];
    // nothing alive: stand still, hold fire
    assert_eq!(autopilot(&g), (0, false));
    // one squid right of the muzzle: move right
    g.alive[0][3] = true;
    assert_eq!(autopilot(&g), (1, false));
    // a lower crab left of the muzzle wins over the squid
    g.alive[1][0] = true;
    assert_eq!(autopilot(&g), (-1, false));
    // lined up with the muzzle (64): fire
    g.alive = [[false; 5]; 3];
    g.alive[2][2] = true; // centre 6 + 46 + 11 = 63
    assert_eq!(autopilot(&g), (0, true));
}
