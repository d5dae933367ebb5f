use dc34_badge::menu::{
    clear, draw_menu, glyph, hsv, invert, led_frame, led_open, led_push, px, sos_on, text, GameKind,
    Item, LedMode, ITEMS,
};

fn lit(fb: &[u32; 512], x: usize, y: usize) -> bool {
    let bn = x + 128 * y;
    fb[bn >> 5] & (1u32 << (bn & 31)) == 0
}

fn lit_count(fb: &[u32; 512]) -> usize {
    let mut n = 0;
    for y in 0..128 {
        for x in 0..128 {
            if lit(fb, x, y) {
                n += 1;
            }
        }
    }
    n
}

#[test]
fn px_sets_one_pixel() {
    let mut fb = [0xFFFF_FFFFu32; 512];
    px(&mut fb, 3, 1, true);
    assert!(lit(&fb, 3, 1));
    assert_eq!(lit_count(&fb), 1);
    // bit 3 + 128 = 131 -> word 4, bit 3
    assert_eq!(fb[4], !(1u32 << 3));
    px(&mut fb, 3, 1, false);
    assert_eq!(lit_count(&fb), 0);
    // off the panel: ignored
    px(&mut fb, -1, 0, true);
    px(&mut fb, 128, 0, true);
    px(&mut fb, 0, 128, true);
    assert_eq!(lit_count(&fb), 0);
}

#[test]
fn clear_darkens_everything() {
    let mut fb = [0u32; 512];
    clear(&mut fb);
    assert!(fb.iter().all(|w| *w == 0xFFFF_FFFF));
    assert_eq!(lit_count(&fb), 0);
}

#[test]
fn invert_flips_a_rectangle() {
    let mut fb = [0xFFFF_FFFFu32; 512];
    invert(&mut fb, 10, 20, 14, 23);
    assert_eq!(lit_count(&fb), 4 * 3);
    assert!(lit(&fb, 10, 20));
    assert!(lit(&fb, 13, 22));
    assert!(!lit(&fb, 14, 22));
    assert!(!lit(&fb, 13, 23));
}

#[test]
fn invert_twice_restores() {
    let mut fb = [0xFFFF_FFFFu32; 512];
    text(&mut fb, "HELLO", 4, 4, 2);
    let before = fb;
    invert(&mut fb, 0, 0, 60, 30);
    assert_ne!(fb, before);
    invert(&mut fb, 0, 0, 60, 30);
    assert_eq!(fb, before);
}

#[test]
fn glyph_a_first_column() {
    let mut fb = [0xFFFF_FFFFu32; 512];
    glyph(&mut fb, 'A', 0, 0, 1);
    assert!(!lit(&fb, 0, 0));
    assert!(!lit(&fb, 0, 1));
    for y in 2..7 {
        assert!(lit(&fb, 0, y));
    }
    assert!(!lit(&fb, 0, 7));
}

#[test]
fn glyph_lower_case_draws_upper() {
    let mut up = [0xFFFF_FFFFu32; 512];
    let mut low = [0xFFFF_FFFFu32; 512];
    glyph(&mut up, 'A', 5, 5, 2);
    glyph(&mut low, 'a', 5, 5, 2);
    assert_eq!(up, low);
    assert!(lit_count(&up) > 0);
}

#[test]
fn glyph_unknown_draws_nothing() {
    let mut fb = [0xFFFF_FFFFu32; 512];
    glyph(&mut fb, '~', 0, 0, 1);
    glyph(&mut fb, 'A', 0, 0, 0);
    assert_eq!(lit_count(&fb), 0);
}

#[test]
fn text_spaces_glyphs_six_apart() {
    let mut a = [0xFFFF_FFFFu32; 512];
    let mut b = [0xFFFF_FFFFu32; 512];
    text(&mut a, "AB", 0, 0, 1);
    glyph(&mut b, 'A', 0, 0, 1);
    glyph(&mut b, 'B', 6, 0, 1);
    assert_eq!(a, b);
}

#[test]
fn hsv_values() {
    assert_eq!(hsv(0, 60), (60, 0, 0));
    assert_eq!(hsv(43, 60), (60, 60, 0));
    assert_eq!(hsv(100, 255), (0, 255, 84));
    assert_eq!(hsv(255, 100), (100, 0, 6));
    assert_eq!(hsv(77, 0), (0, 0, 0));
}

#[test]
fn sos_timeline() {
    assert!(sos_on(0));
    assert!(!sos_on(3));
    assert!(sos_on(6));
    assert!(!sos_on(15));
    assert!(sos_on(24));
    assert!(!sos_on(33));
    assert!(!sos_on(81));
    assert!(!sos_on(101));
    assert!(sos_on(102));
}

#[test]
fn sos_repeats_every_102_frames() {
    for t in 0..500u32 {
        assert_eq!(sos_on(t), sos_on(t + 102));
    }
}

#[test]
fn led_mode_labels_and_cycle() {
    assert_eq!(LedMode::GameReactive.label(), "LEDS: GAME");
    assert_eq!(LedMode::Rainbow.label(), "LEDS: RAINBOW");
    assert_eq!(LedMode::Off.label(), "LEDS: OFF");
    let mut m = LedMode::GameReactive;
    let mut seen = Vec::new();
    for _ in 0..7 {
        seen.push(m);
        m = m.next();
    }
    assert_eq!(m, LedMode::GameReactive);
    assert_eq!(
        seen,
        vec![
            LedMode::GameReactive,
            LedMode::Rainbow,
            LedMode::Chase,
            LedMode::Blink,
            LedMode::Sos,
            LedMode::Random,
            LedMode::Off
        ]
    );
}

#[test]
fn game_kind_labels_and_toggle() {
    assert_eq!(GameKind::Invaders.label(), "GAME: INVADERS");
    assert_eq!(GameKind::AirSea.label(), "GAME: AIR-SEA");
    assert_eq!(GameKind::Invaders.next(), GameKind::AirSea);
    assert_eq!(GameKind::AirSea.next().next(), GameKind::AirSea);
}

#[test]
fn menu_items_in_order() {
    assert_eq!(ITEMS, [Item::Resume, Item::Game, Item::Leds, Item::Bright, Item::Sleep]);
}

#[test]
fn led_frame_blink() {
    assert!(led_frame(LedMode::Blink, 0, false).iter().all(|p| *p == (90, 90, 90)));
    assert!(led_frame(LedMode::Blink, 5, false).iter().all(|p| *p == (0, 0, 0)));
    assert_eq!(led_frame(LedMode::Blink, 3, true), led_frame(LedMode::Blink, 13, true));
}

#[test]
fn led_frame_chase() {
    let s = led_frame(LedMode::Chase, 0, false);
    assert_eq!(s[0], (10, 10, 10));
    assert_eq!(s[1], (10, 10, 10));
    assert_eq!(s[2], (120, 0, 40));
    assert_eq!(s[3], (40, 0, 13));
    assert_eq!(s[4], (12, 0, 4));
    for i in 5..10 {
        assert_eq!(s[i], (0, 0, 0));
    }
    // one head, wherever it has run to
    for t in 0..40u32 {
        let s = led_frame(LedMode::Chase, t, false);
        assert_eq!(s[2..].iter().filter(|p| p.0 == 120).count(), 1);
        assert_eq!(s[2 + (t as usize / 2) % 8].0, 120);
    }
}

#[test]
fn led_frame_game_reactive_and_off() {
    assert!(led_frame(LedMode::GameReactive, 0, true).iter().all(|p| *p == (255, 40, 0)));
    assert!(led_frame(LedMode::GameReactive, 0, false).iter().all(|p| *p == (30, 0, 0)));
    for t in [0u32, 7, 1000] {
        assert!(led_frame(LedMode::Off, t, true).iter().all(|p| *p == (0, 0, 0)));
    }
}

#[test]
fn led_frame_sos_and_rainbow() {
    assert!(led_frame(LedMode::Sos, 0, false).iter().all(|p| *p == (160, 160, 160)));
    assert!(led_frame(LedMode::Sos, 4, false).iter().all(|p| *p == (0, 0, 0)));
    let r = led_frame(LedMode::Rainbow, 0, false);
    assert_eq!(r[0], (60, 0, 0));
    assert_eq!(r[1], hsv(25, 60));
    assert_eq!(r[9], hsv(225, 60));
}

#[test]
fn led_frame_random_is_a_function_of_the_frame() {
    for t in [0u32, 1, 29, 30, 31, 300, 12345] {
        assert_eq!(led_frame(LedMode::Random, t, false), led_frame(LedMode::Random, t, true));
    }
}

#[test]
fn led_driver_absent() {
    let mut ws = led_open();
    assert!(ws.is_none());
    led_push(&mut ws, &[(1, 2, 3); 10]);
    assert!(ws.is_none());
}

#[test]
fn draw_menu_highlights_selection() {
    let mut fb = [0u32; 512];
    draw_menu(&mut fb, 0, GameKind::Invaders, LedMode::GameReactive, 200);
    assert!(lit(&fb, 5, 33));
    let mut fb2 = [0u32; 512];
    draw_menu(&mut fb2, 1, GameKind::Invaders, LedMode::GameReactive, 200);
    assert!(!lit(&fb2, 5, 33));
    assert_ne!(fb, fb2);
}

#[test]
fn glyph_unknown_ignores_position_and_scale() {
    let mut fb = [0x1234_5678u32; 512];
    let before = fb;
    glyph(&mut fb, '~', isize::MAX, isize::MIN, isize::MAX);
    glyph(&mut fb, '#', -5, 3, 2);
    assert_eq!(fb, before);
}

#[test]
fn draw_menu_past_last_row_highlights_nothing() {
    let mut a = [0u32; 512];
    let mut b = [0u32; 512];
    draw_menu(&mut a, 5, GameKind::AirSea, LedMode::Sos, 40);
    draw_menu(&mut b, 99, GameKind::AirSea, LedMode::Sos, 40);
    assert_eq!(a, b);
    // selecting row 2 adds its cursor and inverts its band
    let mut c = [0u32; 512];
    draw_menu(&mut c, 2, GameKind::AirSea, LedMode::Sos, 40);
    text(&mut a, ">", 6, 34 + 28, 1);
    invert(&mut a, 4, 32 + 28, 124, 43 + 28);
    text(&mut a, "SEL:OPEN  FIRE:PICK", 6, 116, 1);
    assert_eq!(a, c);
}
