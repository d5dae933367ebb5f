use dc34_badge::airsea::AirSea;
use dc34_badge::badge::{Badge, Effect, Keys};
use dc34_badge::menu::{GameKind, LedMode};

fn quiet() -> Keys {
    Keys { dx: 0, fire: false, menu: false, updown: 0 }
}

fn menu_key() -> Keys {
    Keys { dx: 0, fire: false, menu: true, updown: 0 }
}

fn down() -> Keys {
    Keys { dx: 0, fire: false, menu: false, updown: 1 }
}

fn fire() -> Keys {
    Keys { dx: 0, fire: true, menu: false, updown: 0 }
}

#[test]
fn badge_boots_in_demo() {
    let b = Badge::new(5);
    assert!(!b.ctl.in_menu);
    assert!(!b.ctl.sleeping);
    assert_eq!(b.ctl.sel, 0);
    assert_eq!(b.ctl.game_kind, GameKind::Invaders);
    assert_eq!(b.ctl.led_mode, LedMode::GameReactive);
    assert_eq!(b.ctl.bright, 200);
    assert!(b.ctl.demo);
    assert_eq!(b.ctl.t, 0);
    assert_eq!(b.game.rng, 5);
    assert_eq!(b.airsea.rng, AirSea::new(5 ^ 0x5AA5_1234).rng);
}

#[test]
fn badge_first_play_frame_effects() {
    let mut b = Badge::new(5);
    let e = b.frame(quiet());
    assert_eq!(e, vec![Effect::FeedWatchdog, Effect::ShowFrame, Effect::ShowLeds, Effect::Sleep(100)]);
    assert_eq!(b.ctl.t, 1);
    assert_eq!(b.game.tick, 1);
    assert!(b.ctl.demo);
}

#[test]
fn badge_reasserts_brightness_every_fifty_frames() {
    let mut b = Badge::new(9);
    let mut count = 0;
    for _ in 0..100 {
        let e = b.frame(quiet());
        if b.ctl.t % 50 == 0 {
            assert!(e.contains(&Effect::Brightness(200)));
            count += 1;
        }
    }
    assert_eq!(count, 2);
}

#[test]
fn badge_menu_toggle_and_draw() {
    let mut b = Badge::new(5);
    let e = b.frame(menu_key());
    assert!(b.ctl.in_menu);
    assert_eq!(&e[..2], &[Effect::FeedWatchdog, Effect::Brightness(200)]);
    assert_eq!(&e[2..], &[Effect::ShowFrame, Effect::ShowLeds, Effect::Sleep(100)]);
    // the game does not move while the menu is open
    let tick = b.game.tick;
    b.frame(quiet());
    assert_eq!(b.game.tick, tick);
    b.frame(menu_key());
    assert!(!b.ctl.in_menu);
}

#[test]
fn badge_brightness_cycle() {
    let mut b = Badge::new(5);
    b.frame(menu_key());
    for _ in 0..3 {
        b.frame(down());
    }
    assert_eq!(b.ctl.sel, 3);
    let mut seen = Vec::new();
    for _ in 0..4 {
        let e = b.frame(fire());
        assert!(e.contains(&Effect::Brightness(b.ctl.bright)));
        seen.push(b.ctl.bright);
    }
    assert_eq!(seen, vec![255, 40, 120, 200]);
}

#[test]
fn badge_cursor_wraps() {
    let mut b = Badge::new(5);
    b.frame(menu_key());
    b.frame(Keys { dx: 0, fire: false, menu: false, updown: -1 });
    assert_eq!(b.ctl.sel, 4);
    b.frame(down());
    assert_eq!(b.ctl.sel, 0);
}

#[test]
fn badge_game_switch_deals_new_game() {
    let mut b = Badge::new(5);
    b.frame(menu_key());
    b.frame(down());
    b.frame(fire());
    assert_eq!(b.ctl.game_kind, GameKind::AirSea);
    let next = 5u32.wrapping_mul(1664525).wrapping_add(1013904223);
    assert_eq!(b.ctl.seed, next);
    assert!(b.ctl.demo);
    assert_eq!(b.game.rng, next | 1);
    // back to play: Air-Sea steps now
    b.frame(menu_key());
    let tick = b.airsea.tick;
    b.frame(quiet());
    assert_eq!(b.airsea.tick, tick + 1);
}

#[test]
fn badge_leds_mode_pick() {
    let mut b = Badge::new(5);
    b.frame(menu_key());
    b.frame(down());
    b.frame(down());
    b.frame(fire());
    assert_eq!(b.ctl.led_mode, LedMode::Rainbow);
}

#[test]
fn badge_sleep_and_wake() {
    let mut b = Badge::new(5);
    b.frame(menu_key());
    for _ in 0..4 {
        b.frame(down());
    }
    let e = b.frame(fire());
    assert_eq!(
        e,
        vec![Effect::FeedWatchdog, Effect::LedsOff, Effect::SetPower(false), Effect::Sleep(300)]
    );
    assert!(b.ctl.sleeping);
    assert!(!b.ctl.in_menu);
    // asleep: dark, and nothing moves
    let fb = b.fb;
    let tick = b.game.tick;
    for _ in 0..5 {
        let e = b.frame(quiet());
        assert_eq!(e, vec![Effect::FeedWatchdog, Effect::LedsOff, Effect::Sleep(150)]);
    }
    assert_eq!(b.fb, fb);
    assert_eq!(b.game.tick, tick);
    // any button wakes it
    let e = b.frame(Keys { dx: 1, fire: false, menu: false, updown: 0 });
    assert_eq!(&e[..3], &[Effect::FeedWatchdog, Effect::SetPower(true), Effect::Brightness(200)]);
    assert!(!b.ctl.sleeping);
}

#[test]
fn badge_press_takes_over_and_idle_hands_back() {
    let mut b = Badge::new(5);
    b.frame(Keys { dx: 1, fire: false, menu: false, updown: 0 });
    assert!(!b.ctl.demo);
    assert_eq!(b.ctl.idle_ms, 0);
    let seed = b.ctl.seed;
    for _ in 0..200 {
        b.frame(quiet());
    }
    // a lost game is dealt again with the autopilot driving; otherwise the
    // human keeps the game for 20 s of quiet and loses it on the next frame
    if b.ctl.seed == seed {
        assert!(!b.ctl.demo);
        assert_eq!(b.ctl.idle_ms, 20_000);
        b.frame(quiet());
        if b.ctl.seed == seed {
            assert!(b.ctl.demo);
            assert_eq!(b.ctl.idle_ms, 20_100);
        }
    } else {
        assert!(b.ctl.demo);
    }
}

#[test]
fn badge_any_button_takes_over_in_play() {
    let mut b = Badge::new(5);
    // up from the autopilot
    b.frame(Keys { dx: 0, fire: false, menu: false, updown: -1 });
    assert!(!b.ctl.in_menu);
    assert!(!b.ctl.demo);
    assert_eq!(b.ctl.idle_ms, 0);
    b.frame(quiet());
    b.frame(quiet());
    if !b.ctl.demo {
        assert_eq!(b.ctl.idle_ms, 200);
        // down restarts the idle clock
        b.frame(Keys { dx: 0, fire: false, menu: false, updown: 1 });
        assert!(!b.ctl.demo);
        assert_eq!(b.ctl.idle_ms, 0);
    }
}

#[test]
fn badge_new_buffers_and_airsea() {
    let b = Badge::new(77);
    assert!(b.fb.iter().all(|w| *w == 0xFFFF_FFFF));
    assert!(b.leds.iter().all(|p| *p == (0, 0, 0)));
    let s = AirSea::new(77 ^ 0x5AA5_1234);
    assert_eq!((b.airsea.gun_x, b.airsea.shot, b.airsea.score, b.airsea.rng), (s.gun_x, s.shot, s.score, s.rng));
    for i in 0..6 {
        let (t, u) = (b.airsea.targets[i], s.targets[i]);
        assert_eq!((t.x, t.y, t.vx, t.plane, t.alive), (u.x, u.y, u.vx, u.plane, u.alive));
    }
}

#[test]
fn badge_every_frame_feeds_watchdog_then_sleeps_once() {
    let mut b = Badge::new(3);
    let script = [
        quiet(),
        menu_key(),
        down(),
        fire(),
        menu_key(),
        Keys { dx: -1, fire: true, menu: false, updown: 0 },
        menu_key(),
        down(),
        down(),
        fire(),
        fire(),
        quiet(),
    ];
    for i in 0..300 {
        let e = b.frame(script[i % script.len()]);
        assert!(e.len() >= 2);
        assert_eq!(e[0], Effect::FeedWatchdog);
        assert!(e[1..].iter().all(|x| *x != Effect::FeedWatchdog));
        assert!(e[..e.len() - 1].iter().all(|x| !matches!(x, Effect::Sleep(_))));
        assert!(matches!(e.last(), Some(Effect::Sleep(100)) | Some(Effect::Sleep(150)) | Some(Effect::Sleep(300))));
    }
}
