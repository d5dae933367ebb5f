//! The full badge app: attract-mode game, menu, LED patterns and sleep, as
//! one frame-by-frame state machine. The caller feeds it the buttons pressed
//! since the last frame and carries out the effects it hands back, in order.
//!
//! BUTTONS
//!   Select .............. open / close the menu
//!   Up / Down ........... move the menu cursor
//!   Center / fire ....... choose, or shoot in-game
//!   Left / Right ........ move ship in-game
//!
//! Any button press takes the game off autopilot; 20s idle hands it back.
use vstd::prelude::*;
use crate::fb::{on_screen, is_lit};
use crate::menu::{
    GameKind, LedMode, LED_N, ITEMS, Item, draw_menu, menu_lit, led_frame, led_frame_ok,
    led_pixel, led_mode_after, game_kind_after,
};
use crate::attract::{
    Game, autopilot, airsea_autopilot, steer, aim, airsea_aim, stepped, step_ok, invaders_lit,
    next_seed, is_new_game, SCALE,
};
use crate::airsea::{AirSea, airsea_lit, is_new_airsea};

verus! {

/// The buttons pressed since the last frame: left/right as -1/+1, fire,
/// the menu toggle, and up/down as -1/+1.
#[derive(Clone, Copy, PartialEq, Eq, Debug)]
pub struct Keys {
    pub dx: isize,
    pub fire: bool,
    pub menu: bool,
    pub updown: i32,
}

/// What the caller must do, in order, after a frame.
#[derive(Clone, Copy, PartialEq, Eq, Debug, Structural)]
pub enum Effect {
    /// Feed the reset watchdog.
    FeedWatchdog,
    /// Switch the panel on or off.
    SetPower(bool),
    /// Set the panel brightness.
    Brightness(u8),
    /// Send the frame buffer to the panel and flush it.
    ShowFrame,
    /// Send the strip in `leds` to the LEDs.
    ShowLeds,
    /// Send an all-dark strip to the LEDs.
    LedsOff,
    /// Sleep this many milliseconds.
    Sleep(u32),
}

/// Everything but the games and the buffers.
#[derive(Clone, Copy, PartialEq, Eq, Debug, Structural)]
pub struct Controls {
    pub in_menu: bool,
    pub sleeping: bool,
    pub sel: usize,
    pub game_kind: GameKind,
    pub led_mode: LedMode,
    pub bright: u8,
    pub demo: bool,
    pub idle_ms: u32,
    pub t: u32,
    pub flash_ttl: u8,
    pub seed: u32,
}

pub struct Badge {
    pub ctl: Controls,
    pub game: Game,
    pub airsea: AirSea,
    pub fb: [u32; 512],
    pub leds: [(u8, u8, u8); LED_N],
}

/// Some button was pressed.
pub open spec fn any_key(k: Keys) -> bool {
    k.dx != 0 || k.fire || k.menu || k.updown != 0
}

/// The brightness after choosing BRIGHT: 40, 120, 200, 255 and round again.
pub open spec fn next_bright(b: u8) -> u8 {
    if b < 80 {
        120
    } else if b < 160 {
        200
    } else if b < 240 {
        255
    } else {
        40
    }
}

/// The frame count, the wake-up, and the menu toggle at the top of a frame.
/// Gives the controls, the effects so far, and whether the frame goes on (a
/// sleeping badge stays dark until a button wakes it).
pub open spec fn front(c: Controls, k: Keys) -> (Controls, Seq<Effect>, bool) {
    let c0 = Controls { t: c.t.wrapping_add(1), ..c };
    let e0 = seq![Effect::FeedWatchdog];
    if c.sleeping && !any_key(k) {
        (c0, e0 + seq![Effect::LedsOff, Effect::Sleep(150)], false)
    } else {
        let c1 = Controls { sleeping: false, ..c0 };
        let e1 = if c.sleeping { e0 + seq![Effect::SetPower(true), Effect::Brightness(c.bright)] } else { e0 };
        if k.menu {
            (Controls { in_menu: !c1.in_menu, ..c1 }, e1.push(Effect::Brightness(c1.bright)), true)
        } else {
            (c1, e1, true)
        }
    }
}

/// The menu's keys: up/down move the cursor round the five rows, fire picks
/// the row. Gives the controls, the effects, whether the frame goes on to
/// draw, and whether a new Invaders game is dealt.
pub open spec fn menu_keys(c: Controls, k: Keys) -> (Controls, Seq<Effect>, bool, bool) {
    let sel = if k.updown != 0 { ((c.sel + k.updown) % 5) as usize } else { c.sel };
    let c1 = Controls { sel, ..c };
    if !k.fire {
        (c1, seq![], true, false)
    } else if sel == 0 {
        (Controls { in_menu: false, ..c1 }, seq![], true, false)
    } else if sel == 1 {
        (Controls { game_kind: game_kind_after(c.game_kind), seed: next_seed(c.seed), demo: true, ..c1 }, seq![], true, true)
    } else if sel == 2 {
        (Controls { led_mode: led_mode_after(c.led_mode), ..c1 }, seq![], true, false)
    } else if sel == 3 {
        (Controls { bright: next_bright(c.bright), ..c1 }, seq![Effect::Brightness(next_bright(c.bright))], true, false)
    } else {
        (Controls { sleeping: true, in_menu: false, ..c1 }, seq![Effect::LedsOff, Effect::SetPower(false), Effect::Sleep(300)], false, false)
    }
}

/// The autopilot bookkeeping in play: any button press takes over and
/// restarts the idle clock; otherwise a human game idles in 100 ms steps and
/// hands back to the autopilot after 20 s.
pub open spec fn idle_after(c: Controls, k: Keys) -> Controls {
    if any_key(k) {
        Controls { demo: false, idle_ms: 0, ..c }
    } else if !c.demo {
        let idle = if c.idle_ms + 100 > u32::MAX { u32::MAX } else { (c.idle_ms + 100) as u32 };
        Controls { idle_ms: idle, demo: idle > 20_000, ..c }
    } else {
        c
    }
}

/// The controls the game is played with: the autopilot's or the buttons'.
pub open spec fn invaders_controls(c: Controls, g: Game, k: Keys) -> (isize, bool) {
    if c.demo {
        steer(aim(g.alive, g.fx as int, g.fy as int, 15).0, g.player + 13 * SCALE / 2)
    } else {
        (k.dx, k.fire)
    }
}

/// The controls Air-Sea is played with: the autopilot's or the buttons'.
pub open spec fn airsea_controls(c: Controls, s: AirSea, k: Keys) -> (isize, bool) {
    if c.demo {
        steer(airsea_aim(s.targets@, 6).0, s.gun_x + 5)
    } else {
        (k.dx, k.fire)
    }
}

/// The tail of a drawn frame: show it, push the LED strip for this frame
/// (flashing after a hit), run the flash down, re-assert the brightness every
/// 50 frames, and sleep 100 ms.
pub open spec fn tail_effects(c: Controls) -> Seq<Effect> {
    let e = seq![Effect::ShowFrame, Effect::ShowLeds];
    let e1 = if c.t % 50 == 0 { e.push(Effect::Brightness(c.bright)) } else { e };
    e1.push(Effect::Sleep(100))
}

/// The controls after the tail of a drawn frame: the flash runs down by one.
pub open spec fn tail_ctl(c: Controls) -> Controls {
    Controls { flash_ttl: if c.flash_ttl > 0 { (c.flash_ttl - 1) as u8 } else { 0 }, ..c }
}

/// `leds` is the strip for the frame with controls `c`.
pub open spec fn leds_for(leds: [(u8, u8, u8); LED_N], c: Controls) -> bool {
    forall|i: int| 0 <= i < 10 ==> #[trigger] leds@[i] == led_pixel(c.led_mode, c.t, c.flash_ttl > 0, i)
}

/// The Invaders part of a frame in play, from controls `c` (after the idle
/// bookkeeping) and game `g` to controls `c2`, game `g2` and effects `e`:
/// the game steps with the autopilot's or the buttons' controls, a hit
/// starts a 3-frame flash, and a lost game is replaced by one dealt from the
/// next seed with the autopilot driving, re-asserting the brightness.
pub open spec fn invaders_part(c: Controls, g: Game, k: Keys, c2: Controls, g2: Game, e: Seq<Effect>) -> bool {
    let (d, f) = invaders_controls(c, g, k);
    exists|g1: Game, hit: bool| {
        &&& #[trigger] stepped(g, g1, d, f, hit)
        &&& {
            let c1 = if hit { Controls { flash_ttl: 3, ..c } } else { c };
            if g1.over {
                &&& c2 == Controls { seed: next_seed(c1.seed), demo: true, ..c1 }
                &&& is_new_game(g2, c2.seed)
                &&& e == seq![Effect::Brightness(c1.bright)]
            } else {
                c2 == c1 && g2 == g1 && e == Seq::<Effect>::empty()
            }
        }
    }
}

/// The Air-Sea part of a frame in play: the game steps with the autopilot's
/// or the buttons' controls, and a hit starts a 3-frame flash.
pub open spec fn airsea_part(c: Controls, s: AirSea, k: Keys, c2: Controls, s2: AirSea) -> bool {
    let (d, f) = airsea_controls(c, s, k);
    exists|hit: bool| {
        &&& #[trigger] crate::airsea::stepped(s, s2, d, f, hit)
        &&& c2 == if hit { Controls { flash_ttl: 3, ..c } } else { c }
    }
}

/// The rest of a frame spent in the menu, from the badge `s` (its frame
/// counted and woken) to `t` with effects `e`: the menu keys act; unless the
/// badge went to sleep, a new Invaders game is dealt if chosen, the menu is
/// drawn and the frame's tail runs.
pub open spec fn menu_frame(s: Badge, t: Badge, k: Keys, e: Seq<Effect>) -> bool {
    let (c2, e2, go2, deal) = menu_keys(s.ctl, k);
    if !go2 {
        t.ctl == c2 && t.game == s.game && t.airsea == s.airsea && t.fb == s.fb && t.leds == s.leds && e == e2
    } else {
        &&& deal ==> is_new_game(t.game, c2.seed)
        &&& !deal ==> t.game == s.game
        &&& t.airsea == s.airsea
        &&& forall|a: int, b: int| on_screen(a, b) ==> #[trigger] is_lit(t.fb@, a, b) == menu_lit(
            c2.sel as int, c2.game_kind, c2.led_mode, c2.bright, a, b)
        &&& leds_for(t.leds, c2)
        &&& t.ctl == tail_ctl(c2)
        &&& e == e2 + tail_effects(c2)
    }
}

/// The rest of a frame spent in play, from the badge `s` (its frame counted
/// and woken) to `t` with effects `e`: the autopilot bookkeeping, a step of
/// the game chosen, drawing it, and the frame's tail.
pub open spec fn play_frame(s: Badge, t: Badge, k: Keys, e: Seq<Effect>) -> bool {
    let c2 = idle_after(s.ctl, k);
    exists|c3: Controls, e3: Seq<Effect>| #![trigger tail_ctl(c3), e3 + tail_effects(c3)] {
        &&& tail_ctl(c3) == t.ctl
        &&& if c2.game_kind == GameKind::Invaders {
            &&& invaders_part(c2, s.game, k, c3, t.game, e3)
            &&& t.airsea == s.airsea
            &&& forall|a: int, b: int| on_screen(a, b) ==> #[trigger] is_lit(t.fb@, a, b) == invaders_lit(t.game, a, b)
        } else {
            &&& airsea_part(c2, s.airsea, k, c3, t.airsea)
            &&& e3 == Seq::<Effect>::empty()
            &&& t.game == s.game
            &&& forall|a: int, b: int| on_screen(a, b) ==> #[trigger] is_lit(t.fb@, a, b) == airsea_lit(t.airsea, a, b)
        }
        &&& leds_for(t.leds, c3)
        &&& e == e3 + tail_effects(c3)
    }
}

/// `t` and the effects `e` are what one frame makes of the badge `s` with
/// the keys `k`: the top of the frame (`front`), then, unless the badge
/// sleeps on, the menu or the game.
pub open spec fn badge_frame(s: Badge, t: Badge, k: Keys, e: Seq<Effect>) -> bool {
    let (c1, e1, go) = front(s.ctl, k);
    let s1 = Badge { ctl: c1, ..s };
    if !go {
        t == s1 && e == e1
    } else {
        &&& e.len() >= e1.len()
        &&& e.take(e1.len() as int) == e1
        &&& c1.in_menu ==> menu_frame(s1, t, k, e.skip(e1.len() as int))
        &&& !c1.in_menu ==> play_frame(s1, t, k, e.skip(e1.len() as int))
    }
}

/// The frame computes without overflow: the cursor's move fits an `i32`, the
/// game played steps without overflow, and the LED pattern of the frame
/// computes.
pub open spec fn frame_ok(s: Badge, k: Keys) -> bool {
    let (c1, e1, go) = front(s.ctl, k);
    go ==> if c1.in_menu {
        let (c2, e2, go2, deal) = menu_keys(c1, k);
        &&& k.updown != 0 ==> c1.sel + k.updown <= i32::MAX
        &&& go2 ==> led_frame_ok(c2.led_mode, c2.t)
    } else {
        let c2 = idle_after(c1, k);
        &&& c2.game_kind == GameKind::Invaders ==> step_ok(s.game, invaders_controls(c2, s.game, k).0, invaders_controls(c2, s.game, k).1)
        &&& c2.game_kind == GameKind::AirSea ==> crate::airsea::step_ok(s.airsea, airsea_controls(c2, s.airsea, k).0, airsea_controls(c2, s.airsea, k).1)
        &&& led_frame_ok(c2.led_mode, c2.t)
    }
}

fn front_keys(c0: Controls, k: Keys) -> (r: (Controls, Vec<Effect>, bool))
    ensures
        (r.0, r.1@, r.2) == front(c0, k),
{
    let mut c = c0;
    let mut eff: Vec<Effect> = Vec::new();
    c.t = c.t.wrapping_add(1);
    eff.push(Effect::FeedWatchdog);
    let any = k.dx != 0 || k.fire || k.menu || k.updown != 0;
    // ---- sleep: everything dark until a button wakes it
    if c.sleeping {
        if any {
            c.sleeping = false;
            eff.push(Effect::SetPower(true));
            eff.push(Effect::Brightness(c.bright));
        } else {
            eff.push(Effect::LedsOff);
            eff.push(Effect::Sleep(150));
            assert(eff@ =~= seq![Effect::FeedWatchdog] + seq![Effect::LedsOff, Effect::Sleep(150)]);
            return (c, eff, false);
        }
    }
    if k.menu {
        c.in_menu = !c.in_menu;
        eff.push(Effect::Brightness(c.bright));
    }
    assert(eff@ =~= front(c0, k).1);
    (c, eff, true)
}

fn menu_step(c0: Controls, k: Keys) -> (r: (Controls, Vec<Effect>, bool, bool))
    requires
        c0.sel < 5,
        k.updown != 0 ==> c0.sel + k.updown <= i32::MAX,
    ensures
        (r.0, r.1@, r.2, r.3) == menu_keys(c0, k),
        r.0.sel < 5,
{
    let mut c = c0;
    let mut eff: Vec<Effect> = Vec::new();
    let hu = k.updown;
    if hu != 0 {
        let n = ITEMS.len() as i32;
        let m = (c.sel as i32 + hu) % n;
        c.sel = ((m + n) % n) as usize;
        assert(c.sel == (c0.sel + hu) % 5);
    }
    let mut deal = false;
    if k.fire {
        match ITEMS[c.sel] {
            Item::Resume => c.in_menu = false,
            Item::Game => {
                c.game_kind = c.game_kind.next();
                c.seed = c.seed.wrapping_mul(1664525).wrapping_add(1013904223);
                c.demo = true;
                deal = true;
            },
            Item::Leds => c.led_mode = c.led_mode.next(),
            Item::Bright => {
                c.bright = match c.bright {
                    0..=79 => 120,
                    80..=159 => 200,
                    160..=239 => 255,
                    _ => 40,
                };
                eff.push(Effect::Brightness(c.bright));
            },
            Item::Sleep => {
                c.sleeping = true;
                c.in_menu = false;
                eff.push(Effect::LedsOff);
                eff.push(Effect::SetPower(false));
                eff.push(Effect::Sleep(300));
                assert(eff@ =~= seq![Effect::LedsOff, Effect::SetPower(false), Effect::Sleep(300)]);
                return (c, eff, false, false);
            },
        }
    }
    assert(eff@ =~= menu_keys(c0, k).1);
    (c, eff, true, deal)
}

fn idle_step(c0: Controls, k: Keys) -> (c: Controls)
    ensures
        c == idle_after(c0, k),
{
    let mut c = c0;
    if k.dx != 0 || k.fire || k.menu || k.updown != 0 {
        c.demo = false;
        c.idle_ms = 0;
    } else if !c.demo {
        c.idle_ms = c.idle_ms.saturating_add(100);
        if c.idle_ms > 20_000 {
            c.demo = true;
        }
    }
    c
}

impl Badge {
    /// What every badge state keeps: both games well-formed, the cursor on a row.
    pub open spec fn wf(&self) -> bool {
        &&& self.game.wf()
        &&& self.airsea.wf()
        &&& self.ctl.sel < 5
    }
}


impl Badge {
    /// The Invaders part of a frame in play; see `invaders_part`.
    fn play_invaders(&mut self, keys: Keys) -> (e: Vec<Effect>)
        requires
            old(self).game.wf(),
            step_ok(old(self).game, invaders_controls(old(self).ctl, old(self).game, keys).0,
                invaders_controls(old(self).ctl, old(self).game, keys).1),
        ensures
            final(self).game.wf(),
            invaders_part(old(self).ctl, old(self).game, keys, final(self).ctl, final(self).game, e@),
            final(self).airsea == old(self).airsea,
            final(self).leds == old(self).leds,
            forall|a: int, b: int| on_screen(a, b) ==> #[trigger] is_lit(final(self).fb@, a, b) == invaders_lit(final(self).game, a, b),
    {
        let ghost c2 = self.ctl;
        let ghost g0 = self.game;
        let mut eff: Vec<Effect> = Vec::new();
        let (d, f) = if self.ctl.demo { autopilot(&self.game) } else { (keys.dx, keys.fire) };
        let hit = self.game.step(d, f);
        let ghost g1 = self.game;
        if hit {
            self.ctl.flash_ttl = 3;
        }
        if self.game.over {
            self.ctl.seed = self.ctl.seed.wrapping_mul(1664525).wrapping_add(1013904223);
            self.game = Game::new(self.ctl.seed);
            self.ctl.demo = true;
            eff.push(Effect::Brightness(self.ctl.bright));
        }
        self.game.render(&mut self.fb);
        proof {
            assert(stepped(g0, g1, d, f, hit));
            if g1.over {
                assert(eff@ =~= seq![Effect::Brightness(c2.bright)]);
            } else {
                assert(eff@ =~= Seq::<Effect>::empty());
            }
        }
        eff
    }

    /// The Air-Sea part of a frame in play; see `airsea_part`.
    fn play_airsea(&mut self, keys: Keys)
        requires
            old(self).airsea.wf(),
            crate::airsea::step_ok(old(self).airsea, airsea_controls(old(self).ctl, old(self).airsea, keys).0,
                airsea_controls(old(self).ctl, old(self).airsea, keys).1),
        ensures
            final(self).airsea.wf(),
            airsea_part(old(self).ctl, old(self).airsea, keys, final(self).ctl, final(self).airsea),
            final(self).game == old(self).game,
            final(self).leds == old(self).leds,
            forall|a: int, b: int| on_screen(a, b) ==> #[trigger] is_lit(final(self).fb@, a, b) == airsea_lit(final(self).airsea, a, b),
    {
        let ghost s0 = self.airsea;
        let (d, f) = if self.ctl.demo { airsea_autopilot(&self.airsea) } else { (keys.dx, keys.fire) };
        let hit = self.airsea.step(d, f);
        if hit {
            self.ctl.flash_ttl = 3;
        }
        self.airsea.render(&mut self.fb);
        proof {
            assert(crate::airsea::stepped(s0, self.airsea, d, f, hit));
        }
    }

    /// A badge as it boots: the Invaders demo dealt from `seed`, Air-Sea dealt
    /// from `seed ^ 0x5AA5_1234`, game-reactive LEDs at brightness 200.
    pub fn new(seed: u32) -> (b: Badge)
        ensures
            b.wf(),
            is_new_game(b.game, seed),
            is_new_airsea(b.airsea, seed ^ 0x5AA5_1234u32),
            forall|i: int| 0 <= i < 512 ==> b.fb@[i] == 0xFFFF_FFFFu32,
            forall|i: int| 0 <= i < 10 ==> b.leds@[i] == (0u8, 0u8, 0u8),
            b.ctl == (Controls {
                in_menu: false,
                sleeping: false,
                sel: 0,
                game_kind: GameKind::Invaders,
                led_mode: LedMode::GameReactive,
                bright: 200,
                demo: true,
                idle_ms: 0,
                t: 0,
                flash_ttl: 0,
                seed,
            }),
    {
        Badge {
            ctl: Controls {
                in_menu: false,
                sleeping: false,
                sel: 0,
                game_kind: GameKind::Invaders,
                led_mode: LedMode::GameReactive,
                bright: 200,
                demo: true,
                idle_ms: 0,
                t: 0,
                flash_ttl: 0,
                seed,
            },
            game: Game::new(seed),
            airsea: AirSea::new(seed ^ 0x5AA5_1234),
            fb: [0xFFFF_FFFFu32; 512],
            leds: [(0u8, 0u8, 0u8); LED_N],
        }
    }

    /// Runs one frame with the buttons `keys` pressed since the last one, and
    /// returns what the caller must then do, in order.
    pub fn frame(&mut self, keys: Keys) -> (eff: Vec<Effect>)
        requires
            old(self).wf(),
            frame_ok(*old(self), keys),
        ensures
            final(self).wf(),
            badge_frame(*old(self), *final(self), keys, eff@),
    {
        let (c1, mut eff, go) = front_keys(self.ctl, keys);
        let ghost e1 = eff@;
        self.ctl = c1;
        if !go {
            return eff;
        }
        let mut rest = if self.ctl.in_menu { self.menu_part(keys) } else { self.play_part(keys) };
        let ghost r = rest@;
        eff.append(&mut rest);
        assert(eff@.take(e1.len() as int) =~= e1);
        assert(eff@.skip(e1.len() as int) =~= r);
        eff
    }

    /// The rest of a frame in the menu; see `menu_frame`.
    fn menu_part(&mut self, keys: Keys) -> (eff: Vec<Effect>)
        requires
            old(self).wf(),
            keys.updown != 0 ==> old(self).ctl.sel + keys.updown <= i32::MAX,
            ({
                let (c2, e2, go2, deal) = menu_keys(old(self).ctl, keys);
                go2 ==> led_frame_ok(c2.led_mode, c2.t)
            }),
        ensures
            final(self).wf(),
            menu_frame(*old(self), *final(self), keys, eff@),
    {
        let (c2, mut eff, go2, deal) = menu_step(self.ctl, keys);
        self.ctl = c2;
        if !go2 {
            return eff;
        }
        if deal {
            self.game = Game::new(self.ctl.seed);
        }
        draw_menu(&mut self.fb, self.ctl.sel, self.ctl.game_kind, self.ctl.led_mode, self.ctl.bright);
        self.tail(&mut eff);
        eff
    }

    /// The rest of a frame in play; see `play_frame`.
    fn play_part(&mut self, keys: Keys) -> (eff: Vec<Effect>)
        requires
            old(self).wf(),
            ({
                let c2 = idle_after(old(self).ctl, keys);
                &&& c2.game_kind == GameKind::Invaders ==> step_ok(old(self).game, invaders_controls(c2, old(self).game, keys).0, invaders_controls(c2, old(self).game, keys).1)
                &&& c2.game_kind == GameKind::AirSea ==> crate::airsea::step_ok(old(self).airsea, airsea_controls(c2, old(self).airsea, keys).0, airsea_controls(c2, old(self).airsea, keys).1)
                &&& led_frame_ok(c2.led_mode, c2.t)
            }),
        ensures
            final(self).wf(),
            play_frame(*old(self), *final(self), keys, eff@),
    {
        self.ctl = idle_step(self.ctl, keys);
        let mut eff: Vec<Effect> = Vec::new();
        match self.ctl.game_kind {
            GameKind::Invaders => {
                eff = self.play_invaders(keys);
            },
            GameKind::AirSea => {
                self.play_airsea(keys);
            },
        }
        let ghost c3 = self.ctl;
        let ghost e3 = eff@;
        self.tail(&mut eff);
        proof {
            assert(tail_ctl(c3) == self.ctl);
            assert(eff@ == e3 + tail_effects(c3));
        }
        eff
    }

    /// The tail of a drawn frame; see `tail_effects`.
    fn tail(&mut self, eff: &mut Vec<Effect>)
        requires
            led_frame_ok(old(self).ctl.led_mode, old(self).ctl.t),
        ensures
            final(eff)@ == old(eff)@ + tail_effects(old(self).ctl),
            final(self).ctl == tail_ctl(old(self).ctl),
            leds_for(final(self).leds, old(self).ctl),
            final(self).game == old(self).game,
            final(self).airsea == old(self).airsea,
            final(self).fb == old(self).fb,
    {
        eff.push(Effect::ShowFrame);
        self.leds = led_frame(self.ctl.led_mode, self.ctl.t, self.ctl.flash_ttl > 0);
        eff.push(Effect::ShowLeds);
        self.ctl.flash_ttl = self.ctl.flash_ttl.saturating_sub(1);
        // Re-assert brightness periodically: it starts at zero, so any reset
        // would otherwise leave a black screen forever.
        if self.ctl.t % 50 == 0 {
            eff.push(Effect::Brightness(self.ctl.bright));
        }
        eff.push(Effect::Sleep(100));
        assert(eff@ =~= old(eff)@ + tail_effects(old(self).ctl));
    }
}


/// Choosing BRIGHT steps round 40, 120, 200, 255: any brightness lands on
/// that cycle, and four picks come back to where they started.
pub proof fn law_brightness_cycle(b: u8)
    ensures
        next_bright(b) == 40 || next_bright(b) == 120 || next_bright(b) == 200 || next_bright(b) == 255,
        next_bright(next_bright(next_bright(next_bright(next_bright(b))))) == next_bright(b),
        next_bright(40) == 120 && next_bright(120) == 200 && next_bright(200) == 255 && next_bright(255) == 40,
{
}

/// No buttons at all.
pub open spec fn quiet() -> Keys {
    Keys { dx: 0, fire: false, menu: false, updown: 0 }
}

/// The autopilot bookkeeping after `n` frames of play without a button.
pub open spec fn idle_frames(c: Controls, n: nat) -> Controls
    decreases n,
{
    if n == 0 { c } else { idle_after(idle_frames(c, (n - 1) as nat), quiet()) }
}

proof fn lemma_idle_count(c: Controls, n: nat)
    requires
        !c.demo,
        c.idle_ms == 0,
        n <= 200,
    ensures
        !idle_frames(c, n).demo,
        idle_frames(c, n).idle_ms == 100 * n,
        idle_frames(c, n).game_kind == c.game_kind,
    decreases n,
{
    if n > 0 {
        lemma_idle_count(c, (n - 1) as nat);
    }
}

/// 20 s of play without a button hands the game back to the autopilot: a
/// human game that just saw a press is still human after 200 quiet frames
/// of 100 ms, and back on autopilot after the 201st.
pub proof fn law_idle_handback(c: Controls)
    requires
        !c.demo,
        c.idle_ms == 0,
    ensures
        !idle_frames(c, 200).demo,
        idle_frames(c, 201).demo,
{
    lemma_idle_count(c, 200);
}

/// Any button press in play takes the game off the autopilot and restarts
/// the idle clock.
pub proof fn law_press_takes_over(c: Controls, k: Keys)
    requires
        any_key(k),
    ensures
        !idle_after(c, k).demo,
        idle_after(c, k).idle_ms == 0,
{
}

/// A sleeping badge that sees no button only feeds the watchdog, keeps the
/// LEDs dark and sleeps 150 ms; nothing else changes but the frame count.
pub proof fn law_sleep_stays_dark(s: Badge, t: Badge, k: Keys, e: Seq<Effect>)
    requires
        badge_frame(s, t, k, e),
        s.ctl.sleeping,
        !any_key(k),
    ensures
        e == seq![Effect::FeedWatchdog, Effect::LedsOff, Effect::Sleep(150)],
        t.ctl == (Controls { t: s.ctl.t.wrapping_add(1), ..s.ctl }),
        t.game == s.game,
        t.airsea == s.airsea,
        t.fb == s.fb,
        t.leds == s.leds,
{
    assert(seq![Effect::FeedWatchdog] + seq![Effect::LedsOff, Effect::Sleep(150)] =~= seq![Effect::FeedWatchdog, Effect::LedsOff, Effect::Sleep(150)]);
}

/// Any button wakes a sleeping badge: the panel is switched on at the
/// current brightness.
pub proof fn law_button_wakes(s: Badge, t: Badge, k: Keys, e: Seq<Effect>)
    requires
        badge_frame(s, t, k, e),
        s.ctl.sleeping,
        any_key(k),
    ensures
        e.len() >= 3,
        e[0] == Effect::FeedWatchdog,
        e[1] == Effect::SetPower(true),
        e[2] == Effect::Brightness(s.ctl.bright),
{
    let (c1, e1, go) = front(s.ctl, k);
    assert(e1.len() >= 3);
    assert(e.take(e1.len() as int) == e1);
    assert(e[0] == e.take(e1.len() as int)[0]);
    assert(e[1] == e.take(e1.len() as int)[1]);
    assert(e[2] == e.take(e1.len() as int)[2]);
}

/// The games stand still while the menu is open: a frame in the menu leaves
/// Air-Sea as it was, and the Invaders game too unless GAME was picked, which
/// deals a fresh one from the new seed.
pub proof fn law_menu_pauses_play(s: Badge, t: Badge, k: Keys, e: Seq<Effect>)
    requires
        badge_frame(s, t, k, e),
        front(s.ctl, k).2,
        front(s.ctl, k).0.in_menu,
    ensures
        t.airsea == s.airsea,
        t.game == s.game || is_new_game(t.game, t.ctl.seed),
{
}

/// An effect that neither feeds the watchdog nor sleeps.
pub open spec fn busy(x: Effect) -> bool {
    x != Effect::FeedWatchdog && !(x is Sleep)
}

/// `r` is busy work ending in a sleep of 100, 150 or 300 ms.
pub open spec fn ends_in_sleep(r: Seq<Effect>) -> bool {
    &&& r.len() >= 1
    &&& r.last() == Effect::Sleep(100) || r.last() == Effect::Sleep(150) || r.last() == Effect::Sleep(300)
    &&& forall|i: int| 0 <= i < r.len() - 1 ==> #[trigger] busy(r[i])
}

proof fn lemma_busy_then_sleep(q: Seq<Effect>, ms: u32)
    requires
        forall|i: int| 0 <= i < q.len() ==> #[trigger] busy(q[i]),
        ms == 100 || ms == 150 || ms == 300,
    ensures
        ends_in_sleep(q.push(Effect::Sleep(ms))),
{
    let r = q.push(Effect::Sleep(ms));
    assert forall|i: int| 0 <= i < r.len() - 1 implies #[trigger] busy(r[i]) by {
        assert(r[i] == q[i]);
    }
}

proof fn lemma_tail_sleeps(q: Seq<Effect>, c: Controls)
    requires
        forall|i: int| 0 <= i < q.len() ==> #[trigger] busy(q[i]),
    ensures
        ends_in_sleep(q + tail_effects(c)),
{
    let e = seq![Effect::ShowFrame, Effect::ShowLeds];
    let e1 = if c.t % 50 == 0 { e.push(Effect::Brightness(c.bright)) } else { e };
    let p = q + e1;
    assert forall|i: int| 0 <= i < p.len() implies #[trigger] busy(p[i]) by {
        if i < q.len() {
            assert(p[i] == q[i]);
        } else {
            assert(p[i] == e1[i - q.len()]);
        }
    }
    lemma_busy_then_sleep(p, 100);
    assert(q + tail_effects(c) =~= p.push(Effect::Sleep(100)));
}

proof fn lemma_rest_sleeps(s: Badge, t: Badge, k: Keys, r: Seq<Effect>)
    requires
        s.ctl.in_menu ==> menu_frame(s, t, k, r),
        !s.ctl.in_menu ==> play_frame(s, t, k, r),
    ensures
        ends_in_sleep(r),
{
    if s.ctl.in_menu {
        let (c2, e2, go2, deal) = menu_keys(s.ctl, k);
        if !go2 {
            lemma_busy_then_sleep(seq![Effect::LedsOff, Effect::SetPower(false)], 300);
            assert(r =~= seq![Effect::LedsOff, Effect::SetPower(false)].push(Effect::Sleep(300)));
        } else {
            assert forall|i: int| 0 <= i < e2.len() implies #[trigger] busy(e2[i]) by {}
            lemma_tail_sleeps(e2, c2);
        }
    } else {
        let c2 = idle_after(s.ctl, k);
        let (c3, e3) = choose|c3: Controls, e3: Seq<Effect>| #![trigger tail_ctl(c3), e3 + tail_effects(c3)] {
            &&& tail_ctl(c3) == t.ctl
            &&& if c2.game_kind == GameKind::Invaders {
                &&& invaders_part(c2, s.game, k, c3, t.game, e3)
                &&& t.airsea == s.airsea
                &&& forall|a: int, b: int| on_screen(a, b) ==> #[trigger] is_lit(t.fb@, a, b) == invaders_lit(t.game, a, b)
            } else {
                &&& airsea_part(c2, s.airsea, k, c3, t.airsea)
                &&& e3 == Seq::<Effect>::empty()
                &&& t.game == s.game
                &&& forall|a: int, b: int| on_screen(a, b) ==> #[trigger] is_lit(t.fb@, a, b) == airsea_lit(t.airsea, a, b)
            }
            &&& leds_for(t.leds, c3)
            &&& r == e3 + tail_effects(c3)
        };
        assert forall|i: int| 0 <= i < e3.len() implies #[trigger] busy(e3[i]) by {}
        lemma_tail_sleeps(e3, c3);
    }
}

proof fn lemma_front_effects(c: Controls, k: Keys)
    ensures
        front(c, k).2 ==> {
            let e1 = front(c, k).1;
            &&& e1.len() >= 1
            &&& e1[0] == Effect::FeedWatchdog
            &&& forall|i: int| 1 <= i < e1.len() ==> #[trigger] busy(e1[i])
        },
        !front(c, k).2 ==> front(c, k).1 == seq![Effect::FeedWatchdog, Effect::LedsOff, Effect::Sleep(150)],
{
    let e1 = front(c, k).1;
    if front(c, k).2 {
        assert forall|i: int| 1 <= i < e1.len() implies #[trigger] busy(e1[i]) by {}
    } else {
        assert(e1 =~= seq![Effect::FeedWatchdog, Effect::LedsOff, Effect::Sleep(150)]);
    }
}

/// Every frame feeds the watchdog first and exactly once, and ends in its
/// one sleep, of at most 300 ms; nothing in between feeds or sleeps.
#[verifier::spinoff_prover]
#[verifier::rlimit(40)]
pub proof fn law_watchdog_fed_each_frame(s: Badge, t: Badge, k: Keys, e: Seq<Effect>)
    requires
        badge_frame(s, t, k, e),
    ensures
        e.len() >= 2,
        e[0] == Effect::FeedWatchdog,
        forall|i: int| 1 <= i < e.len() ==> #[trigger] e[i] != Effect::FeedWatchdog,
        forall|i: int| 0 <= i < e.len() - 1 ==> !(#[trigger] e[i] is Sleep),
        e.last() == Effect::Sleep(100) || e.last() == Effect::Sleep(150) || e.last() == Effect::Sleep(300),
{
    let (c1, e1, go) = front(s.ctl, k);
    lemma_front_effects(s.ctl, k);
    if go {
        let r = e.skip(e1.len() as int);
        let s1 = Badge { ctl: c1, ..s };
        lemma_rest_sleeps(s1, t, k, r);
        assert(e =~= e1 + r);
        assert forall|i: int| 1 <= i < e.len() implies #[trigger] e[i] != Effect::FeedWatchdog by {
            if i < e1.len() {
                assert(busy(e1[i]));
            } else if i - e1.len() < r.len() - 1 {
                assert(busy(r[i - e1.len()]));
            }
        }
        assert forall|i: int| 0 <= i < e.len() - 1 implies !(#[trigger] e[i] is Sleep) by {
            if 1 <= i < e1.len() {
                assert(busy(e1[i]));
            } else if i >= e1.len() {
                assert(busy(r[i - e1.len()]));
            }
        }
    }
}

/// The menu cursor moves one row per press of up or down and wraps round the
/// five rows; fire picks the row under it: RESUME closes the menu, GAME
/// switches the game and deals a fresh one with the autopilot driving, LEDS
/// steps the LED mode, BRIGHT steps the brightness and sets it, SLEEP darkens
/// everything and sleeps.
pub proof fn law_menu_cursor_and_pick(c: Controls, k: Keys)
    requires
        c.sel < 5,
    ensures
        k.updown == 1 ==> menu_keys(c, k).0.sel == if c.sel == 4 { 0 } else { c.sel + 1 },
        k.updown == -1 ==> menu_keys(c, k).0.sel == if c.sel == 0 { 4 } else { c.sel - 1 },
        k.updown == 0 ==> menu_keys(c, k).0.sel == c.sel,
        !k.fire ==> menu_keys(c, k).1.len() == 0 && menu_keys(c, k).2 && !menu_keys(c, k).3,
        k.fire && k.updown == 0 && c.sel == 0 ==> !menu_keys(c, k).0.in_menu && menu_keys(c, k).2,
        k.fire && k.updown == 0 && c.sel == 1 ==> menu_keys(c, k).0.game_kind != c.game_kind && menu_keys(c, k).0.demo
            && menu_keys(c, k).3 && menu_keys(c, k).0.seed == next_seed(c.seed),
        k.fire && k.updown == 0 && c.sel == 2 ==> menu_keys(c, k).0.led_mode == led_mode_after(c.led_mode),
        k.fire && k.updown == 0 && c.sel == 3 ==> menu_keys(c, k).0.bright == next_bright(c.bright)
            && menu_keys(c, k).1 == seq![Effect::Brightness(next_bright(c.bright))],
        k.fire && k.updown == 0 && c.sel == 4 ==> menu_keys(c, k).0.sleeping && !menu_keys(c, k).0.in_menu
            && !menu_keys(c, k).2 && menu_keys(c, k).1 == seq![Effect::LedsOff, Effect::SetPower(false), Effect::Sleep(300)],
{
}

/// The Select key opens a closed menu and closes an open one.
pub proof fn law_select_toggles_menu(c: Controls, k: Keys)
    requires
        k.menu,
    ensures
        front(c, k).2,
        front(c, k).0.in_menu == !c.in_menu,
{
}
} // verus!
