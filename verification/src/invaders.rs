//! Space Invaders for the DEF CON 34 badge, the standalone firmware build:
//! the game logic, and the set of lit pixels that a frame puts on the panel.
//!
//! POLARITY (verified on hardware): a cleared panel is black and a set bit
//! renders dark, so sprites are drawn with the colour that clears a bit.
use vstd::prelude::*;
use crate::fb::{on_screen, in_rect, sprite_covers, sprite_row_covers, row_bit_on};
use crate::menu::{H, W};
use crate::airsea::xorshift;
use crate::attract::{
    SQUID, CRAB, OCTO, CANNON, COLS, ROWS, PITCH_Y, SCALE, sprite_rows, sprite_w, cell_alive, alive_count, box_x,
    box_y, box_w, fleet_lo, fleet_hi, first_alien_hit, row_points, live_cells, kills,
    lemma_fleet_bounds, lemma_live_cells, lemma_count_le, dead_points, lemma_kill_points,
    lemma_first_hit_alive, lemma_killed_count,
};

verus! {

#[verifier::external_type_specification]
#[verifier::external_body]
#[verifier::reject_recursive_types(T)]
pub struct ExHeaplessVec<T, const N: usize>(heapless::Vec<T, N>);

/// What the fixed-capacity list of live aliens holds, in order.
pub uninterp spec fn live_list(v: heapless::Vec<(usize, usize), 15>) -> Seq<(usize, usize)>;

/// `heapless::Vec::new`: an empty list.
#[verifier::external_body]
fn live_new() -> (v: heapless::Vec<(usize, usize), 15>)
    ensures
        live_list(v) == Seq::<(usize, usize)>::empty(),
{
    heapless::Vec::new()
}

/// `heapless::Vec::push`: appends `item` while fewer than 15 items are held
/// and reports success; on a full list it hands `item` back (reported here as
/// `false`) and the list is unchanged.
#[verifier::external_body]
fn live_push(v: &mut heapless::Vec<(usize, usize), 15>, item: (usize, usize)) -> (pushed: bool)
    ensures
        pushed == (live_list(*old(v)).len() < 15),
        live_list(*old(v)).len() < 15 ==> live_list(*final(v)) == live_list(*old(v)).push(item),
        live_list(*old(v)).len() >= 15 ==> live_list(*final(v)) == live_list(*old(v)),
{
    match v.push(item) {
        Ok(()) => true,
        Err(_) => false,
    }
}

/// `heapless::Vec::as_slice`: the items held, in order.
#[verifier::external_body]
fn live_as_slice(v: &heapless::Vec<(usize, usize), 15>) -> (s: &[(usize, usize)])
    ensures
        s@ == live_list(*v),
{
    v.as_slice()
}

pub struct Game {
    pub alive: [[bool; COLS]; ROWS],
    pub fleet_x: isize,
    pub fleet_y: isize,
    pub dir: isize,
    pub player_x: isize,
    pub shot: Option<(isize, isize)>,
    pub bomb: Option<(isize, isize)>,
    pub score: u32,
    pub over: bool,
    /// Set for one frame when an alien dies — the caller flashes the LEDs.
    pub killed_this_frame: bool,
    pub tick: u32,
    pub rng: u32,
}

/// The cannon's position after the left and right buttons: 3 pixels a
/// frame each way, kept 2 pixels inside the screen.
pub open spec fn player_moved(x: int, left: bool, right: bool) -> int {
    let x1 = if left { if x - 3 < 2 { 2 } else { x - 3 } } else { x };
    if right { if x1 + 3 > W - 13 * SCALE - 2 { W - 13 * SCALE - 2 } else { x1 + 3 } } else { x1 }
}

/// How many frames apart the fleet moves with `left` aliens alive: 11 for a
/// full fleet and one less for every four lost — the arcade game's rising panic.
pub open spec fn fleet_period(left: int) -> int {
    12 - (1 + (15 - left) / 4)
}

/// The fleet's `(x, y, dir)` after the march of a frame whose counter is
/// `tick`: on the beat, 2 pixels sideways, or, with its leading live alien
/// at the edge, turned round and 6 pixels lower.
pub open spec fn fleet_march(g: Game, tick: u32) -> (int, int, int) {
    if tick as int % fleet_period(alive_count(g.alive, 15)) == 0 {
        let lo = fleet_lo(g.alive, g.fleet_x as int, 15);
        let hi = fleet_hi(g.alive, g.fleet_x as int, 15);
        if (g.dir > 0 && hi >= W - 2) || (g.dir < 0 && lo <= 2) {
            (g.fleet_x as int, g.fleet_y + 6, -g.dir)
        } else {
            (g.fleet_x + g.dir * 2, g.fleet_y as int, g.dir as int)
        }
    } else {
        (g.fleet_x as int, g.fleet_y as int, g.dir as int)
    }
}

/// The player shot climbs 5 pixels and leaves above the top, or stops in
/// the first live alien (row by row) whose box it enters. Gives the alien
/// hit, the shot left in flight and the points scored.
pub open spec fn shot_climb(alive: [[bool; COLS]; ROWS], fx: int, fy: int, shot: Option<(isize, isize)>) -> (Option<int>, Option<(isize, isize)>, int) {
    match shot {
        None => (None, None, 0),
        Some((sx, sy)) => {
            let ny = sy - 5;
            if ny < 0 {
                (None, None, 0)
            } else {
                match first_alien_hit(alive, fx, fy, sx as int, ny, 0) {
                    Some(k) => (Some(k), None, row_points(k / 5)),
                    None => (None, Some((sx, ny as isize)), 0),
                }
            }
        }
    }
}

/// With no bomb falling, one draw in 24 drops a bomb from the middle of the
/// bottom of a live alien that a second draw picks. Gives the bomb and the
/// generator state.
pub open spec fn bomb_release(alive: [[bool; COLS]; ROWS], fx: int, fy: int, bomb: Option<(isize, isize)>, rng: u32) -> (Option<(isize, isize)>, u32) {
    if bomb is None {
        let r1 = xorshift(rng);
        let live = live_cells(alive, 15);
        if r1 % 24 == 0 && live.len() > 0 {
            let r2 = xorshift(r1);
            let (r, c) = live[r2 as int % live.len() as int];
            let k = r * 5 + c;
            (Some(((box_x(fx, k) + box_w(k) / 2) as isize, (box_y(fy, k) + 16) as isize)), r2)
        } else {
            (None, r1)
        }
    } else {
        (bomb, rng)
    }
}

/// The bomb falls 3 pixels and leaves below the bottom.
pub open spec fn bomb_drop3(bomb: Option<(isize, isize)>) -> Option<(isize, isize)> {
    match bomb {
        None => None,
        Some((bx, by)) => if by + 3 >= H { None } else { Some((bx, (by + 3) as isize)) },
    }
}

/// `t` is the game `g` one frame on with the buttons `left`, `right` and
/// `fire`: the frame counts, the cannon moves (firing if no shot is in
/// flight), the fleet marches, the shot flies, a bomb drops and falls, and
/// the game ends when the bomb strikes the cannon, the fleet is gone or it
/// has come down to the cannon. A finished game stays as it is.
pub open spec fn updated(g: Game, t: Game, left: bool, right: bool, fire: bool) -> bool {
    if g.over {
        t == g
    } else {
        let tick = g.tick.wrapping_add(1);
        let p = player_moved(g.player_x as int, left, right);
        let shot1 = if fire && g.shot is None { Some(((p + 13) as isize, (H - 20) as isize)) } else { g.shot };
        let (fx, fy, dir) = fleet_march(g, tick);
        let (k, shot2, pts) = shot_climb(g.alive, fx, fy, shot1);
        let (bomb1, rng1) = bomb_release(t.alive, fx, fy, g.bomb, g.rng);
        let bomb2 = bomb_drop3(bomb1);
        &&& k matches Some(k) ==> kills(g.alive, t.alive, k)
        &&& k is None ==> t.alive == g.alive
        &&& t.tick == tick
        &&& t.player_x == p
        &&& t.fleet_x == fx
        &&& t.fleet_y == fy
        &&& t.dir == dir
        &&& t.shot == shot2
        &&& t.score == g.score + pts
        &&& t.killed_this_frame == (k is Some)
        &&& t.bomb == bomb2
        &&& t.rng == rng1
        &&& t.over == ((bomb2 matches Some((bx, by)) && by >= H - 18 && p <= bx < p + 13 * SCALE)
            || alive_count(t.alive, 15) == 0 || fy + 3 * PITCH_Y >= H - 20)
    }
}

/// One frame computes without overflow: a kill's points fit the score.
pub open spec fn update_ok(g: Game, left: bool, right: bool, fire: bool) -> bool {
    !g.over ==> {
        let tick = g.tick.wrapping_add(1);
        let p = player_moved(g.player_x as int, left, right);
        let shot1 = if fire && g.shot is None { Some(((p + 13) as isize, (H - 20) as isize)) } else { g.shot };
        let (fx, fy, dir) = fleet_march(g, tick);
        g.score + shot_climb(g.alive, fx, fy, shot1).2 <= u32::MAX
    }
}

fn sprite_for(row: usize) -> (r: (&'static [u16; 8], isize))
    ensures
        r.0@ == sprite_rows(row as int),
        r.1 == sprite_w(row as int),
{
    match row {
        0 => (&SQUID, 8),
        1 => (&CRAB, 11),
        _ => (&OCTO, 11),
    }
}

impl Game {
    /// What every game state keeps: the fleet, the cannon, the shot and the
    /// bomb within the ranges play moves them in, and a running game has an
    /// alien left and a fleet above the cannon.
    pub open spec fn wf(&self) -> bool {
        &&& self.dir == 1 || self.dir == -1
        &&& 2 <= self.player_x <= W - 13 * SCALE - 2
        &&& -100 <= self.fleet_x <= 120
        &&& 0 <= self.fleet_y <= 60
        &&& self.shot matches Some((sx, sy)) ==> 15 <= sx <= 113 && 0 <= sy <= 108
        &&& self.bomb matches Some((bx, by)) ==> -100 <= bx <= 250 && 0 <= by < 128
        &&& !self.over ==> alive_count(self.alive, 15) > 0 && self.fleet_y < 54
    }

    pub fn new(seed: u32) -> (g: Self)
        ensures
            g.wf(),
            forall|k: int| 0 <= k < 15 ==> #[trigger] cell_alive(g.alive, k),
            g.fleet_x == 6,
            g.fleet_y == 30,
            g.dir == 1,
            g.player_x == W / 2 - 13,
            g.shot is None,
            g.bomb is None,
            g.score == 0,
            !g.over,
            !g.killed_this_frame,
            g.tick == 0,
            g.rng == seed | 1,
    {
        let g = Game {
            alive: [[true; COLS]; ROWS],
            fleet_x: 6,
            fleet_y: 30,
            dir: 1,
            player_x: W / 2 - 13,
            shot: None,
            bomb: None,
            score: 0,
            over: false,
            killed_this_frame: false,
            tick: 0,
            rng: seed | 1,
        };
        assert forall|k: int| 0 <= k < 15 implies #[trigger] cell_alive(g.alive, k) by {}
        proof { lemma_full_count(g.alive, 15); }
        g
    }

    fn rand(&mut self) -> (r: u32)
        ensures
            r == xorshift(old(self).rng),
            *final(self) == (Game { rng: r, ..*old(self) }),
    {
        // xorshift32 — the SCE TRNG is overkill for picking which alien shoots
        self.rng ^= self.rng << 13;
        self.rng ^= self.rng >> 17;
        self.rng ^= self.rng << 5;
        self.rng
    }

    /// The box of alien `(r, c)`: left, top, width, height.
    fn alien_box(&self, r: usize, c: usize) -> (b: (isize, isize, isize, isize))
        requires
            r < 3,
            c < 5,
            -100 <= self.fleet_x <= 120,
            0 <= self.fleet_y <= 60,
        ensures
            b.0 == box_x(self.fleet_x as int, r * 5 + c),
            b.1 == box_y(self.fleet_y as int, r * 5 + c),
            b.2 == box_w(r * 5 + c),
            b.3 == 16,
    {
        let (_, w) = sprite_for(r);
        let x = self.fleet_x + c as isize * 23;
        let y = self.fleet_y + r as isize * 18;
        (x, y, w * SCALE, 8 * SCALE)
    }

    /// Advances one frame with the buttons `left`, `right` and `fire`.
    #[verifier::rlimit(40)]
    pub fn update(&mut self, left: bool, right: bool, fire: bool)
        requires
            old(self).wf(),
            update_ok(*old(self), left, right, fire),
        ensures
            final(self).wf(),
            updated(*old(self), *final(self), left, right, fire),
    {
        if self.over {
            return;
        }
        self.tick = self.tick.wrapping_add(1);
        self.killed_this_frame = false;

        // player
        if left {
            self.player_x = (self.player_x - 3).max(2);
        }
        if right {
            self.player_x = (self.player_x + 3).min(W - 13 * SCALE - 2);
        }
        if fire && self.shot.is_none() {
            self.shot = Some((self.player_x + 13 * SCALE / 2, H - 20));
        }
        self.march();
        self.fly_shot();
        self.release_bomb();
        if let Some((bx, by)) = self.bomb {
            let ny = by + 3;
            self.bomb = if ny >= H { None } else { Some((bx, ny)) };
            if let Some((bx, by)) = self.bomb {
                if by >= H - 18 && bx >= self.player_x && bx < self.player_x + 13 * SCALE {
                    self.over = true;
                }
            }
        }
        if self.remaining() == 0 || self.fleet_y + (ROWS as isize) * PITCH_Y >= H - 20 {
            self.over = true;
        }
    }

    /// The fleet marches faster as it thins out.
    fn march(&mut self)
        requires
            old(self).wf(),
            !old(self).over,
        ensures
            (final(self).fleet_x as int, final(self).fleet_y as int, final(self).dir as int) == fleet_march(*old(self), old(self).tick),
            *final(self) == (Game { fleet_x: final(self).fleet_x, fleet_y: final(self).fleet_y, dir: final(self).dir, ..*old(self) }),
            -100 <= final(self).fleet_x <= 120,
            0 <= final(self).fleet_y <= 60,
            final(self).dir == 1 || final(self).dir == -1,
    {
        let ghost g0 = *self;
        let speed = 1 + (COLS * ROWS - self.remaining()) / 4;
        let period = 12u32.saturating_sub(speed as u32).max(2);
        assert(period == fleet_period(alive_count(g0.alive, 15)));
        if self.tick % period == 0 {
            let mut lo = W;
            let mut hi: isize = 0;
            let mut k: usize = 0;
            while k < 15
                invariant
                    k <= 15,
                    *self == g0,
                    g0.wf(),
                    lo == fleet_lo(self.alive, self.fleet_x as int, k as int),
                    hi == fleet_hi(self.alive, self.fleet_x as int, k as int),
                    -100 <= lo <= 128,
                    0 <= hi <= 250,
                decreases 15 - k,
            {
                let r = k / 5;
                let c = k % 5;
                if self.alive[r][c] {
                    let (x, _, w, _) = self.alien_box(r, c);
                    lo = lo.min(x);
                    hi = hi.max(x + w);
                }
                k += 1;
            }
            proof { lemma_fleet_bounds(g0.alive, g0.fleet_x as int, 15); }
            if (self.dir > 0 && hi >= W - 2) || (self.dir < 0 && lo <= 2) {
                self.dir = -self.dir;
                self.fleet_y += 6;
            } else {
                self.fleet_x += self.dir * 2;
            }
        }
    }

    /// The player shot climbs 5 pixels and may kill an alien.
    fn fly_shot(&mut self)
        requires
            -100 <= old(self).fleet_x <= 120,
            0 <= old(self).fleet_y <= 60,
            old(self).shot matches Some((sx, sy)) ==> 15 <= sx <= 113 && 0 <= sy <= 108,
            old(self).score + shot_climb(old(self).alive, old(self).fleet_x as int, old(self).fleet_y as int, old(self).shot).2 <= u32::MAX,
            !old(self).killed_this_frame,
        ensures
            ({
                let (k, shot2, pts) = shot_climb(old(self).alive, old(self).fleet_x as int, old(self).fleet_y as int, old(self).shot);
                &&& k matches Some(k) ==> kills(old(self).alive, final(self).alive, k)
                &&& k is None ==> final(self).alive == old(self).alive
                &&& final(self).shot == shot2
                &&& final(self).score == old(self).score + pts
                &&& final(self).killed_this_frame == (k is Some)
                &&& *final(self) == (Game { alive: final(self).alive, shot: shot2, score: final(self).score, killed_this_frame: final(self).killed_this_frame, ..*old(self) })
            }),
    {
        let ghost g1 = *self;
        if let Some((sx, sy)) = self.shot {
            let ny = sy - 5;
            self.shot = if ny < 0 { None } else { Some((sx, ny)) };
            if let Some((sx, sy)) = self.shot {
                let mut k: usize = 0;
                while k < 15 && !self.killed_this_frame
                    invariant
                        k <= 15,
                        -100 <= self.fleet_x <= 120,
                        0 <= self.fleet_y <= 60,
                        g1.shot matches Some((x, y)) && x == sx && y - 5 == sy && 0 <= sy,
                        g1.score + shot_climb(g1.alive, g1.fleet_x as int, g1.fleet_y as int, g1.shot).2 <= u32::MAX,
                        !g1.killed_this_frame,
                        !self.killed_this_frame ==> first_alien_hit(g1.alive, g1.fleet_x as int, g1.fleet_y as int, sx as int, sy as int, 0)
                            == first_alien_hit(g1.alive, g1.fleet_x as int, g1.fleet_y as int, sx as int, sy as int, k as int),
                        !self.killed_this_frame ==> *self == (Game { shot: Some((sx, sy)), ..g1 }),
                        self.killed_this_frame ==> ({
                            let (kk, shot2, pts) = shot_climb(g1.alive, g1.fleet_x as int, g1.fleet_y as int, g1.shot);
                            &&& kk matches Some(kk) && kills(g1.alive, self.alive, kk)
                            &&& self.shot == shot2
                            &&& self.score == g1.score + pts
                            &&& *self == (Game { shot: shot2, score: self.score, alive: self.alive, killed_this_frame: true, ..g1 })
                        }),
                    decreases 15 - k,
                {
                    let r = k / 5;
                    let c = k % 5;
                    if self.alive[r][c] {
                        let (x, y, w, h) = self.alien_box(r, c);
                        if sx >= x && sx < x + w && sy >= y && sy < y + h {
                            let mut row = self.alive[r];
                            row[c] = false;
                            self.alive[r] = row;
                            self.shot = None;
                            self.score += match r {
                                0 => 30,
                                1 => 20,
                                _ => 10,
                            };
                            self.killed_this_frame = true;
                            assert(kills(g1.alive, self.alive, k as int));
                        }
                    }
                    k += 1;
                }
            }
        }
    }

    /// With no bomb falling, one draw in 24 drops a bomb from a live alien
    /// that a second draw picks.
    fn release_bomb(&mut self)
        requires
            -100 <= old(self).fleet_x <= 120,
            0 <= old(self).fleet_y <= 60,
        ensures
            ({
                let (b, r) = bomb_release(old(self).alive, old(self).fleet_x as int, old(self).fleet_y as int, old(self).bomb, old(self).rng);
                *final(self) == (Game { bomb: b, rng: r, ..*old(self) })
            }),
            final(self).bomb != old(self).bomb ==> (final(self).bomb matches Some((bx, by)) && -100 <= bx <= 223 && 0 <= by <= 112),
    {
        if self.bomb.is_none() && self.rand() % 24 == 0 {
            let mut live = live_new();
            let mut k: usize = 0;
            while k < 15
                invariant
                    k <= 15,
                    live_list(live) == live_cells(self.alive, k as int),
                decreases 15 - k,
            {
                let r = k / 5;
                let c = k % 5;
                if self.alive[r][c] {
                    proof {
                        lemma_live_cells(self.alive, k as int);
                        lemma_count_le(self.alive, k as int);
                    }
                    let _ = live_push(&mut live, (r, c));
                }
                k += 1;
            }
            proof { lemma_live_cells(self.alive, 15); }
            let cells = live_as_slice(&live);
            if cells.len() > 0 {
                let (r, c) = cells[(self.rand() as usize) % cells.len()];
                let (x, y, w, h) = self.alien_box(r, c);
                self.bomb = Some((x + w / 2, y + h));
            }
        }
    }

    /// The number of live aliens.
    fn remaining(&self) -> (n: usize)
        ensures
            n == alive_count(self.alive, 15),
            n <= 15,
    {
        let mut n: usize = 0;
        let mut k: usize = 0;
        while k < 15
            invariant
                k <= 15,
                n == alive_count(self.alive, k as int),
                n <= k,
            decreases 15 - k,
        {
            if self.alive[k / 5][k % 5] {
                n += 1;
            }
            k += 1;
        }
        n
    }
}

/// The pixels that the live aliens among the first `n` cells cover.
pub open spec fn fleet_cover(g: Game, n: int, a: int, b: int) -> bool
    decreases n,
{
    if n <= 0 {
        false
    } else {
        let k = n - 1;
        fleet_cover(g, n - 1, a, b) || (cell_alive(g.alive, k) && sprite_covers(
            sprite_rows(k / 5),
            8,
            sprite_w(k / 5),
            box_x(g.fleet_x as int, k),
            box_y(g.fleet_y as int, k),
            2,
            a,
            b,
        ))
    }
}

/// The points that a frame of `g` lights on the cleared panel: the live
/// aliens and the cannon (clipped to the panel), the shot and the bomb as
/// 2x5 streaks (clipped top and bottom only), and the ground line.
pub open spec fn frame_point(g: Game, a: int, b: int) -> bool {
    ||| on_screen(a, b) && fleet_cover(g, 15, a, b)
    ||| on_screen(a, b) && sprite_covers(CANNON@, 8, 13, g.player_x as int, H - 18, 2, a, b)
    ||| (g.shot matches Some((sx, sy)) && (a == sx || a == sx + 1) && sy <= b < sy + 5 && 0 <= b < H)
    ||| (g.bomb matches Some((bx, by)) && (a == bx || a == bx + 1) && by <= b < by + 5 && 0 <= b < H)
    ||| b == H - 1 && 0 <= a < W
}

/// Adds the point `(x, y)` to the list.
fn put(pts: &mut Vec<(isize, isize)>, x: isize, y: isize)
    ensures
        forall|p: (isize, isize)| #[trigger] final(pts)@.contains(p) == (old(pts)@.contains(p) || p == (x, y)),
{
    let ghost before = pts@;
    pts.push((x, y));
    assert forall|p: (isize, isize)| #[trigger] pts@.contains(p) == (before.contains(p) || p == (x, y)) by {
        if before.contains(p) {
            let i = choose|i: int| 0 <= i < before.len() && before[i] == p;
            assert(pts@[i] == p);
        }
        if p == (x, y) {
            assert(pts@[before.len() as int] == p);
        }
        if pts@.contains(p) {
            let i = choose|i: int| 0 <= i < pts@.len() && pts@[i] == p;
            if i < before.len() {
                assert(before[i] == p);
            }
        }
    }
}

/// The points of the sprite `rows`, `w` art pixels wide, scaled 2x at
/// `(x, y)`, that fall on the panel.
fn blit_points(pts: &mut Vec<(isize, isize)>, rows: &[u16; 8], w: isize, x: isize, y: isize)
    requires
        0 <= w <= 16,
        x + 2 * w <= isize::MAX + 1,
        y + 16 <= isize::MAX + 1,
    ensures
        forall|p: (isize, isize)| #[trigger] final(pts)@.contains(p) == (old(pts)@.contains(p) || (on_screen(p.0 as int, p.1 as int)
            && sprite_covers(rows@, 8, w as int, x as int, y as int, 2, p.0 as int, p.1 as int))),
{
    let ghost start = pts@;
    let mut ry: usize = 0;
    while ry < 8
        invariant
            ry <= 8,
            0 <= w <= 16,
            x + 2 * w <= isize::MAX + 1,
            y + 16 <= isize::MAX + 1,
            forall|p: (isize, isize)| #[trigger] pts@.contains(p) == (start.contains(p) || (on_screen(p.0 as int, p.1 as int)
                && sprite_covers(rows@, ry as int, w as int, x as int, y as int, 2, p.0 as int, p.1 as int))),
        decreases 8 - ry,
    {
        let ghost row_start = pts@;
        let row = rows[ry];
        let mut rx: isize = 0;
        while rx < w
            invariant
                0 <= rx <= w,
                0 <= w <= 16,
                ry < 8,
                row == rows@[ry as int],
                x + 2 * w <= isize::MAX + 1,
                y + 16 <= isize::MAX + 1,
                forall|p: (isize, isize)| #[trigger] pts@.contains(p) == (row_start.contains(p) || (on_screen(p.0 as int, p.1 as int)
                    && sprite_row_covers(row, w as int, rx as int, x as int, y + ry * 2, 2, p.0 as int, p.1 as int))),
            decreases w - rx,
        {
            let ghost prev = pts@;
            let on = (row >> (w - 1 - rx) as u16) & 1 == 1;
            assert(on == row_bit_on(row, w - (rx + 1)));
            if on {
                let bx = x + rx * SCALE;
                let by = y + ry as isize * SCALE;
                let mut dy: isize = 0;
                while dy < SCALE
                    invariant
                        0 <= dy <= 2,
                        bx == x + rx * 2,
                        by == y + ry * 2,
                        x + 2 * w <= isize::MAX + 1,
                        y + 16 <= isize::MAX + 1,
                        0 <= rx < w <= 16,
                        ry < 8,
                        forall|p: (isize, isize)| #[trigger] pts@.contains(p) == (prev.contains(p) || (on_screen(p.0 as int, p.1 as int)
                            && in_rect(bx as int, by as int, bx + 2, by + dy, p.0 as int, p.1 as int))),
                    decreases 2 - dy,
                {
                    let ghost line_start = pts@;
                    let mut dx: isize = 0;
                    while dx < SCALE
                        invariant
                            0 <= dx <= 2,
                            0 <= dy < 2,
                            bx == x + rx * 2,
                            by == y + ry * 2,
                            x + 2 * w <= isize::MAX + 1,
                            y + 16 <= isize::MAX + 1,
                            0 <= rx < w <= 16,
                            ry < 8,
                            forall|p: (isize, isize)| #[trigger] pts@.contains(p) == (line_start.contains(p) || (on_screen(p.0 as int, p.1 as int)
                                && p.1 == by + dy && bx <= p.0 < bx + dx)),
                        decreases 2 - dx,
                    {
                        let px = x + rx * SCALE + dx;
                        let py = y + ry as isize * SCALE + dy;
                        if px >= 0 && px < W && py >= 0 && py < H {
                            put(pts, px, py);
                        }
                        dx += 1;
                    }
                    dy += 1;
                }
            }
            rx += 1;
        }
        ry += 1;
    }
}

/// The points of a 2-wide vertical line of `len` pixels down from `(x, y)`,
/// clipped top and bottom.
fn vline_points(pts: &mut Vec<(isize, isize)>, x: isize, y: isize, len: isize)
    requires
        x + 2 <= isize::MAX + 1,
        y + len <= isize::MAX + 1,
        0 <= len <= 16,
    ensures
        forall|p: (isize, isize)| #[trigger] final(pts)@.contains(p) == (old(pts)@.contains(p) || ((p.0 == x || p.0 == x + 1)
            && y <= p.1 < y + len && 0 <= p.1 < H)),
{
    let ghost start = pts@;
    let mut i: isize = 0;
    while i < len
        invariant
            0 <= i <= len <= 16,
            x + 2 <= isize::MAX + 1,
            y + len <= isize::MAX + 1,
            forall|p: (isize, isize)| #[trigger] pts@.contains(p) == (start.contains(p) || ((p.0 == x || p.0 == x + 1)
                && y <= p.1 < y + i && 0 <= p.1 < H)),
        decreases len - i,
    {
        let py = y + i;
        if py >= 0 && py < H {
            put(pts, x, py);
            put(pts, x + 1, py);
        }
        i += 1;
    }
}

impl Game {
    /// The points that this frame lights on the panel once it is cleared,
    /// each to be put in the lit colour; duplicates may occur.
    pub fn render_points(&self) -> (pts: Vec<(isize, isize)>)
        requires
            self.wf(),
        ensures
            forall|p: (isize, isize)| #[trigger] pts@.contains(p) == frame_point(*self, p.0 as int, p.1 as int),
    {
        let mut pts: Vec<(isize, isize)> = Vec::new();
        let mut k: usize = 0;
        while k < 15
            invariant
                k <= 15,
                self.wf(),
                forall|p: (isize, isize)| #[trigger] pts@.contains(p) == (on_screen(p.0 as int, p.1 as int)
                    && fleet_cover(*self, k as int, p.0 as int, p.1 as int)),
            decreases 15 - k,
        {
            let r = k / 5;
            let c = k % 5;
            let (rows, w) = sprite_for(r);
            if self.alive[r][c] {
                let (x, y, _, _) = self.alien_box(r, c);
                blit_points(&mut pts, rows, w, x, y);
            }
            k += 1;
        }
        blit_points(&mut pts, &CANNON, 13, self.player_x, H - 18);
        if let Some((sx, sy)) = self.shot {
            vline_points(&mut pts, sx, sy, 5);
        }
        if let Some((bx, by)) = self.bomb {
            vline_points(&mut pts, bx, by, 5);
        }
        let ghost before_ground = pts@;
        let mut x: isize = 0;
        while x < W
            invariant
                0 <= x <= W,
                forall|p: (isize, isize)| #[trigger] pts@.contains(p) == (before_ground.contains(p) || (p.1 == H - 1 && 0 <= p.0 < x)),
            decreases W - x,
        {
            put(&mut pts, x, H - 1);
            x += 1;
        }
        pts
    }
}

/// The fleet's period with `k` aliens alive: 11 frames for the full fleet,
/// one frame less for every four aliens shot (8 with 3 or fewer left).
pub proof fn law_fleet_period_drops_every_four(k: int)
    requires
        0 <= k < 15,
    ensures
        fleet_period(15) == 11,
        fleet_period(k) == if (15 - k) % 4 == 0 { fleet_period(k + 1) - 1 } else { fleet_period(k + 1) },
{
}

/// The fleet moves only on its beat, the frames whose count is a multiple of
/// the period for the aliens alive: then it steps 2 pixels along its
/// direction, or turns round and drops 6 pixels; off the beat it stays put.
pub proof fn law_fleet_marches_on_its_beat(g: Game, t: Game, left: bool, right: bool, fire: bool)
    requires
        updated(g, t, left, right, fire),
        !g.over,
    ensures
        t.tick == g.tick.wrapping_add(1),
        t.tick as int % fleet_period(alive_count(g.alive, 15)) != 0 ==> t.fleet_x == g.fleet_x && t.fleet_y
            == g.fleet_y && t.dir == g.dir,
        t.tick as int % fleet_period(alive_count(g.alive, 15)) == 0 ==> {
            ||| t.fleet_x == g.fleet_x + 2 * g.dir && t.fleet_y == g.fleet_y && t.dir == g.dir
            ||| t.fleet_x == g.fleet_x && t.fleet_y == g.fleet_y + 6 && t.dir == -g.dir
        },
{
}

/// What a frame does to the cannon, the shot and a falling bomb: left moves
/// the cannon 3 pixels left (not past 2), then right 3 pixels right (not past
/// 100); a shot that hits nothing climbs 5 pixels and leaves above the top;
/// a new shot leaves the cannon's middle at row 108 and climbs in the same
/// frame; a hit takes the shot; a bomb already falling drops 3 pixels and
/// leaves below the bottom.
pub proof fn law_update_moves(g: Game, t: Game, left: bool, right: bool, fire: bool)
    requires
        updated(g, t, left, right, fire),
        !g.over,
    ensures
        ({
            let x1 = if left { if g.player_x - 3 < 2 { 2 } else { g.player_x - 3 } } else { g.player_x as int };
            t.player_x == if right { if x1 + 3 > 100 { 100 } else { x1 + 3 } } else { x1 }
        }),
        !t.killed_this_frame ==> (g.shot matches Some((sx, sy)) ==> t.shot == if sy < 5 { None } else { Some((sx, (sy - 5) as isize)) }),
        !t.killed_this_frame && g.shot is None && fire ==> t.shot == Some(((t.player_x + 13) as isize, 103isize)),
        !t.killed_this_frame && g.shot is None && !fire ==> t.shot is None,
        t.killed_this_frame ==> t.shot is None,
        g.bomb matches Some((bx, by)) ==> t.bomb == if by + 3 >= 128 { None } else { Some((bx, (by + 3) as isize)) },
{
}

/// A new bomb drops from the middle of the bottom of a live alien and falls
/// 3 pixels in the frame it is dropped.
pub proof fn law_update_bomb_from_live_alien(g: Game, t: Game, left: bool, right: bool, fire: bool)
    requires
        g.wf(),
        updated(g, t, left, right, fire),
        !g.over,
        g.bomb is None,
        t.bomb is Some,
    ensures
        exists|k: int| 0 <= k < 15 && #[trigger] t.alive@[k / 5]@[k % 5] && t.bomb.unwrap().0 == t.fleet_x + (k % 5)
            * 23 + (if k < 5 { 8int } else { 11int }) && t.bomb.unwrap().1 == t.fleet_y + (k / 5) * 18 + 19,
{
    let r1 = xorshift(g.rng);
    let live = live_cells(t.alive, 15);
    lemma_live_cells(t.alive, 15);
    let r2 = xorshift(r1);
    let j = r2 as int % live.len() as int;
    let (r, c) = live[j];
    let k = r * 5 + c;
    let ki = k as int;
    assert(cell_alive(t.alive, ki));
    assert(ki / 5 == r && ki % 5 == c);
    lemma_fleet_bounds(g.alive, g.fleet_x as int, 15);
    let (fx, fy, dir) = fleet_march(g, g.tick.wrapping_add(1));
    assert(-200 <= fx <= 200 && 0 <= fy <= 70);
    assert(t.bomb.unwrap().0 == box_x(fx, ki) + box_w(ki) / 2);
    assert(t.alive@[ki / 5]@[ki % 5]);
}

/// A frame ends the game exactly when, afterwards, a bomb has come down to
/// the cannon's rows (y at least 110) anywhere across the cannon's full 26
/// pixels, the fleet is gone, or the fleet's bottom row has come down to the
/// cannon (its top edge plus 54 at least 108).
pub proof fn law_update_over_when(g: Game, t: Game, left: bool, right: bool, fire: bool)
    requires
        updated(g, t, left, right, fire),
        !g.over,
    ensures
        t.over == {
            ||| (t.bomb matches Some((bx, by)) && by >= 110 && t.player_x <= bx < t.player_x + 26)
            ||| alive_count(t.alive, 15) == 0
            ||| t.fleet_y + 54 >= 108
        },
{
}

/// A frame lights each part of the game: the ground line along the bottom
/// row, the shot and the bomb each as a 2x5 streak from their position, the
/// cannon's art doubled at its position 18 rows up from the bottom, and each
/// live alien's art doubled in its box.
pub proof fn law_frame_parts(g: Game, a: int, b: int)
    ensures
        b == 127 && 0 <= a < 128 ==> frame_point(g, a, b),
        g.shot matches Some((sx, sy)) && sx <= a < sx + 2 && sy <= b < sy + 5 && 0 <= b < 128 ==> frame_point(g, a, b),
        g.bomb matches Some((bx, by)) && bx <= a < bx + 2 && by <= b < by + 5 && 0 <= b < 128 ==> frame_point(g, a, b),
        on_screen(a, b) && sprite_covers(CANNON@, 8, 13, g.player_x as int, 110, 2, a, b) ==> frame_point(g, a, b),
        forall|k: int| 0 <= k < 15 && on_screen(a, b) && #[trigger] cell_alive(g.alive, k) && sprite_covers(
            if k / 5 == 0 { SQUID@ } else if k / 5 == 1 { CRAB@ } else { OCTO@ },
            8,
            if k / 5 == 0 { 8 } else { 11 },
            g.fleet_x + (k % 5) * 23,
            g.fleet_y + (k / 5) * 18,
            2,
            a,
            b,
        ) ==> frame_point(g, a, b),
{
    assert forall|k: int| 0 <= k < 15 && on_screen(a, b) && #[trigger] cell_alive(g.alive, k) && sprite_covers(
        if k / 5 == 0 { SQUID@ } else if k / 5 == 1 { CRAB@ } else { OCTO@ },
        8,
        if k / 5 == 0 { 8 } else { 11 },
        g.fleet_x + (k % 5) * 23,
        g.fleet_y + (k / 5) * 18,
        2,
        a,
        b,
    ) implies frame_point(g, a, b) by {
        lemma_fleet_point(g, 15, k, a, b);
    }
}

proof fn lemma_fleet_point(g: Game, n: int, k: int, a: int, b: int)
    requires
        0 <= k < n <= 15,
        cell_alive(g.alive, k),
        sprite_covers(sprite_rows(k / 5), 8, sprite_w(k / 5), box_x(g.fleet_x as int, k), box_y(g.fleet_y as int, k), 2, a, b),
    ensures
        fleet_cover(g, n, a, b),
    decreases n,
{
    if k < n - 1 {
        lemma_fleet_point(g, n - 1, k, a, b);
    }
}

/// The score goes up by exactly what the aliens shot in a frame were worth,
/// the fleet never grows, and `killed_this_frame` reports exactly a frame
/// that scored.
pub proof fn law_update_score_counts_kills(g: Game, t: Game, left: bool, right: bool, fire: bool)
    requires
        updated(g, t, left, right, fire),
    ensures
        t.score - g.score == dead_points(t.alive, 15) - dead_points(g.alive, 15),
        alive_count(t.alive, 15) <= alive_count(g.alive, 15),
        !g.over ==> (t.killed_this_frame <==> t.score > g.score),
{
    if !g.over {
        let tick = g.tick.wrapping_add(1);
        let p = player_moved(g.player_x as int, left, right);
        let shot1 = if fire && g.shot is None { Some(((p + 13) as isize, (H - 20) as isize)) } else { g.shot };
        let (fx, fy, dir) = fleet_march(g, tick);
        let (k, shot2, pts) = shot_climb(g.alive, fx, fy, shot1);
        if let Some(k) = k {
            let (sx, sy) = shot1.unwrap();
            lemma_first_hit_alive(g.alive, fx, fy, sx as int, sy - 5, 0);
            lemma_kill_points(g.alive, t.alive, k, 15);
            lemma_killed_count(g.alive, t.alive, k, 15);
        }
    }
}

proof fn lemma_full_count(alive: [[bool; COLS]; ROWS], n: int)
    requires
        0 <= n <= 15,
        forall|k: int| 0 <= k < 15 ==> #[trigger] cell_alive(alive, k),
    ensures
        alive_count(alive, n) == n,
    decreases n,
{
    if n > 0 {
        lemma_full_count(alive, n - 1);
    }
}
} // verus!
