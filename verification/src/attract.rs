//! Interactive Space Invaders on the badge's 128x128 one-bit OLED, with an
//! attract-mode autopilot, and the full badge app that runs it: menu, LED
//! patterns, a second game and sleep.
use vstd::prelude::*;
use crate::fb::{on_screen, is_lit, in_rect, sprite_covers, sprite_row_covers, in_block, row_bit_on};
use crate::menu::{H, W, px, clear};
use crate::airsea::{xorshift, AirSea, Target, MAX_TARGETS, target_wf};

verus! {

/// The console command that plays Invaders.
#[derive(Debug)]
pub struct Invaders {}

// 1978 sprite art, MSB-left, one u16 row per line.
pub const SQUID: [u16; 8] = [
    0b00011000, 0b00111100, 0b01111110, 0b11011011, 0b11111111, 0b00100100, 0b01011010, 0b10100101,
];
pub const CRAB: [u16; 8] = [
    0b00100000100, 0b00010001000, 0b00111111100, 0b01101110110,
    0b11111111111, 0b10111111101, 0b10100000101, 0b00011011000,
];
pub const OCTO: [u16; 8] = [
    0b00011111000, 0b01111111110, 0b11111111111, 0b11001110011,
    0b11111111111, 0b00110101100, 0b01100100110, 0b11000000011,
];
pub const CANNON: [u16; 8] = [
    0b0000001000000, 0b0000011100000, 0b0000011100000, 0b0111111111110,
    0b1111111111111, 0b1111111111111, 0b1111111111111, 0b1111111111111,
];

pub const COLS: usize = 5;
pub const ROWS: usize = 3;
pub const PITCH_X: isize = 23;
pub const PITCH_Y: isize = 18;
pub const SCALE: isize = 2;

/// The art of fleet row `row`: squids on top, crabs, then octopuses.
pub open spec fn sprite_rows(row: int) -> Seq<u16> {
    if row == 0 { SQUID@ } else if row == 1 { CRAB@ } else { OCTO@ }
}

/// The width in art pixels of fleet row `row`'s sprite.
pub open spec fn sprite_w(row: int) -> int {
    if row == 0 { 8 } else { 11 }
}

fn sprite(row: usize) -> (r: (&'static [u16; 8], isize))
    ensures
        r.0@ == sprite_rows(row as int),
        r.1 == sprite_w(row as int),
{
    match row {
        0 => (&SQUID, 8),
        1 => (&CRAB, 11),
        _ => (&OCTO, 11),
    }
}

/// Lights the sprite `rows`, `w` art pixels wide, scaled 2x with its top left
/// corner at `(x, y)`.
fn blit(fb: &mut [u32; 512], rows: &[u16; 8], w: isize, x: isize, y: isize)
    requires
        0 <= w <= 16,
        x + 2 * w <= isize::MAX + 1,
        y + 16 <= isize::MAX + 1,
    ensures
        forall|a: int, b: int| on_screen(a, b) ==> #[trigger] is_lit(final(fb)@, a, b) == (
            is_lit(old(fb)@, a, b) || sprite_covers(rows@, 8, w as int, x as int, y as int, 2, a, b)),
{
    let ghost start = fb@;
    let mut ry: usize = 0;
    while ry < 8
        invariant
            ry <= 8,
            0 <= w <= 16,
            x + 2 * w <= isize::MAX + 1,
            y + 16 <= isize::MAX + 1,
            forall|a: int, b: int| on_screen(a, b) ==> #[trigger] is_lit(fb@, a, b) == (
                is_lit(start, a, b) || sprite_covers(rows@, ry as int, w as int, x as int, y as int, 2, a, b)),
        decreases 8 - ry,
    {
        let ghost row_start = fb@;
        let row = rows[ry];
        let mut rx: isize = 0;
        while rx < w
            invariant
                0 <= rx <= w,
                0 <= w <= 16,
                ry < 8,
                row == rows@[ry as int],
                x + 2 * w <= isize::MAX + 1,
                y + 16 <= isize::MAX + 1,
                forall|a: int, b: int| on_screen(a, b) ==> #[trigger] is_lit(fb@, a, b) == (
                    is_lit(row_start, a, b) || sprite_row_covers(row, w as int, rx as int, x as int, y + ry * 2, 2, a, b)),
            decreases w - rx,
        {
            let ghost prev = fb@;
            let on = (row >> (w - 1 - rx) as u16) & 1 == 1;
            assert(on == row_bit_on(row, w - (rx + 1)));
            if on {
                let bx = x + rx * SCALE;
                let by = y + ry as isize * SCALE;
                let mut dy: isize = 0;
                while dy < SCALE
                    invariant
                        0 <= dy <= 2,
                        bx == x + rx * 2,
                        by == y + ry * 2,
                        x + 2 * w <= isize::MAX + 1,
                        y + 16 <= isize::MAX + 1,
                        0 <= rx < w <= 16,
                        ry < 8,
                        forall|a: int, b: int| on_screen(a, b) ==> #[trigger] is_lit(fb@, a, b) == (
                            is_lit(prev, a, b) || in_rect(bx as int, by as int, bx + 2, by + dy, a, b)),
                    decreases 2 - dy,
                {
                    let ghost line_start = fb@;
                    let mut dx: isize = 0;
                    while dx < SCALE
                        invariant
                            0 <= dx <= 2,
                            0 <= dy < 2,
                            bx == x + rx * 2,
                            by == y + ry * 2,
                            x + 2 * w <= isize::MAX + 1,
                            y + 16 <= isize::MAX + 1,
                            0 <= rx < w <= 16,
                            ry < 8,
                            forall|a: int, b: int| on_screen(a, b) ==> #[trigger] is_lit(fb@, a, b) == (
                                is_lit(line_start, a, b) || (b == by + dy && bx <= a < bx + dx)),
                        decreases 2 - dx,
                    {
                        px(fb, x + rx * SCALE + dx, y + ry as isize * SCALE + dy, true);
                        dx += 1;
                    }
                    dy += 1;
                }
            }
            rx += 1;
        }
        ry += 1;
    }
}


pub struct Game {
    pub alive: [[bool; COLS]; ROWS],
    pub fx: isize,
    pub fy: isize,
    pub dir: isize,
    pub player: isize,
    pub shot: Option<(isize, isize)>,
    pub bomb: Option<(isize, isize)>,
    pub score: u32,
    pub over: bool,
    pub tick: u32,
    pub rng: u32,
}

/// Alien `k` of the fleet, counted row by row (row `k / 5`, column `k % 5`), is alive.
pub open spec fn cell_alive(alive: [[bool; COLS]; ROWS], k: int) -> bool {
    alive@[k / 5]@[k % 5]
}

/// The number of live aliens among the first `n` cells.
pub open spec fn alive_count(alive: [[bool; COLS]; ROWS], n: int) -> int
    decreases n,
{
    if n <= 0 {
        0
    } else {
        alive_count(alive, n - 1) + if cell_alive(alive, n - 1) { 1int } else { 0int }
    }
}

/// The left edge of alien `k`'s box for a fleet at `fx`.
pub open spec fn box_x(fx: int, k: int) -> int {
    fx + (k % 5) * 23
}

/// The top edge of alien `k`'s box for a fleet at `fy`.
pub open spec fn box_y(fy: int, k: int) -> int {
    fy + (k / 5) * 18
}

/// The width of alien `k`'s box: its sprite at twice size.
pub open spec fn box_w(k: int) -> int {
    sprite_w(k / 5) * 2
}

/// The leftmost box edge of the live aliens among the first `n` cells, or the
/// screen width if none is alive.
pub open spec fn fleet_lo(alive: [[bool; COLS]; ROWS], fx: int, n: int) -> int
    decreases n,
{
    if n <= 0 {
        W as int
    } else {
        let lo = fleet_lo(alive, fx, n - 1);
        if cell_alive(alive, n - 1) && box_x(fx, n - 1) < lo { box_x(fx, n - 1) } else { lo }
    }
}

/// The rightmost box edge of the live aliens among the first `n` cells, or 0
/// if none is alive.
pub open spec fn fleet_hi(alive: [[bool; COLS]; ROWS], fx: int, n: int) -> int
    decreases n,
{
    if n <= 0 {
        0
    } else {
        let hi = fleet_hi(alive, fx, n - 1);
        if cell_alive(alive, n - 1) && box_x(fx, n - 1) + box_w(n - 1) > hi {
            box_x(fx, n - 1) + box_w(n - 1)
        } else {
            hi
        }
    }
}

/// How many frames apart the fleet moves with `left` aliens alive: 7 for a
/// full fleet, one less for every three lost, never under 2.
pub open spec fn march_period(left: int) -> int {
    let p = 7 - (15 - left) / 3;
    if p < 2 { 2 } else { p }
}

/// The first live alien at or after cell `k` whose box holds `(sx, sy)`.
pub open spec fn first_alien_hit(alive: [[bool; COLS]; ROWS], fx: int, fy: int, sx: int, sy: int, k: int) -> Option<int>
    decreases 15 - k,
{
    if k < 0 || k >= 15 {
        None
    } else if cell_alive(alive, k) && box_x(fx, k) <= sx < box_x(fx, k) + box_w(k) && box_y(fy, k)
        <= sy < box_y(fy, k) + 16 {
        Some(k)
    } else {
        first_alien_hit(alive, fx, fy, sx, sy, k + 1)
    }
}

/// What shooting an alien of fleet row `row` scores.
pub open spec fn row_points(row: int) -> int {
    if row == 0 { 30 } else if row == 1 { 20 } else { 10 }
}

/// The live cells among the first `n`, in row order, as (row, column).
pub open spec fn live_cells(alive: [[bool; COLS]; ROWS], n: int) -> Seq<(usize, usize)>
    decreases n,
{
    if n <= 0 {
        Seq::empty()
    } else if cell_alive(alive, n - 1) {
        live_cells(alive, n - 1).push((((n - 1) / 5) as usize, ((n - 1) % 5) as usize))
    } else {
        live_cells(alive, n - 1)
    }
}

/// `a` is `alive` with alien `k` killed.
pub open spec fn kills(alive: [[bool; COLS]; ROWS], a: [[bool; COLS]; ROWS], k: int) -> bool {
    forall|j: int| 0 <= j < 15 ==> #[trigger] cell_alive(a, j) == (cell_alive(alive, j) && j != k)
}

impl Game {
    /// What every game state keeps: the fleet, the cannon, the shot and the
    /// bomb within the ranges play moves them in, and a running game has an
    /// alien left and a fleet above the cannon.
    pub open spec fn wf(&self) -> bool {
        &&& self.dir == 1 || self.dir == -1
        &&& 2 <= self.player <= W - 13 * SCALE - 2
        &&& -100 <= self.fx <= 120
        &&& 0 <= self.fy <= 60
        &&& self.shot matches Some((sx, sy)) ==> 15 <= sx <= 113 && 0 <= sy <= 106
        &&& self.bomb matches Some((bx, by)) ==> -100 <= bx <= 250 && 0 <= by < 128
        &&& !self.over ==> alive_count(self.alive, 15) > 0 && self.fy < 52
    }

    pub fn new(seed: u32) -> (g: Self)
        ensures
            g.wf(),
            forall|k: int| 0 <= k < 15 ==> #[trigger] cell_alive(g.alive, k),
            g.fx == 6,
            g.fy == 26,
            g.dir == 1,
            g.player == W / 2 - 13,
            g.shot is None,
            g.bomb is None,
            g.score == 0,
            !g.over,
            g.tick == 0,
            g.rng == seed | 1,
    {
        let g = Game {
            alive: [[true; COLS]; ROWS],
            fx: 6,
            fy: 26,
            dir: 1,
            player: W / 2 - 13,
            shot: None,
            bomb: None,
            score: 0,
            over: false,
            tick: 0,
            rng: seed | 1,
        };
        assert forall|k: int| 0 <= k < 15 implies #[trigger] cell_alive(g.alive, k) by {}
        proof { lemma_all_alive_count(g.alive, 15); }
        g
    }

    fn rand(&mut self) -> (r: u32)
        ensures
            r == xorshift(old(self).rng),
            *final(self) == (Game { rng: r, ..*old(self) }),
    {
        self.rng ^= self.rng << 13;
        self.rng ^= self.rng >> 17;
        self.rng ^= self.rng << 5;
        self.rng
    }

    /// The box of alien `(r, c)`: left, top, width, height.
    fn abox(&self, r: usize, c: usize) -> (b: (isize, isize, isize, isize))
        requires
            r < 3,
            c < 5,
            -100 <= self.fx <= 120,
            0 <= self.fy <= 60,
        ensures
            b.0 == box_x(self.fx as int, r * 5 + c),
            b.1 == box_y(self.fy as int, r * 5 + c),
            b.2 == box_w(r * 5 + c),
            b.3 == 16,
    {
        let (_, w) = sprite(r);
        (self.fx + c as isize * PITCH_X, self.fy + r as isize * PITCH_Y, w * SCALE, 8 * SCALE)
    }

    /// Advances one frame with the cannon moved `dx` steps of 4 and the fire
    /// button `fire`; returns true when an alien was shot.
    pub fn step(&mut self, dx: isize, fire: bool) -> (hit: bool)
        requires
            old(self).wf(),
            step_ok(*old(self), dx, fire),
        ensures
            final(self).wf(),
            stepped(*old(self), *final(self), dx, fire, hit),
    {
        if self.over {
            return false;
        }
        let ghost g0 = *self;
        self.tick = self.tick.wrapping_add(1);

        self.player = (self.player + dx * 4).max(2).min(W - 13 * SCALE - 2);
        if fire && self.shot.is_none() {
            self.shot = Some((self.player + 13 * SCALE / 2, H - 22));
        }
        self.march_fleet();
        let killed = self.fly_shot();
        let ghost g2 = *self;
        self.drop_bomb();
        if let Some((bx, by)) = self.bomb {
            let ny = by + 4;
            self.bomb = if ny >= H { None } else { Some((bx, ny)) };
            if let Some((bx, by)) = self.bomb {
                if by >= H - 18 && bx >= self.player && bx < self.player + 13 * SCALE {
                    self.over = true;
                }
            }
        }
        if self.left() == 0 || self.fy + (ROWS as isize) * PITCH_Y >= H - 22 {
            self.over = true;
        }
        killed
    }

    /// The march phase of a frame whose counter is already advanced.
    fn march_fleet(&mut self)
        requires
            old(self).wf(),
            !old(self).over,
        ensures
            (final(self).fx as int, final(self).fy as int, final(self).dir as int) == march(*old(self), old(self).tick),
            *final(self) == (Game { fx: final(self).fx, fy: final(self).fy, dir: final(self).dir, ..*old(self) }),
            -100 <= final(self).fx <= 120,
            0 <= final(self).fy <= 56,
            final(self).dir == 1 || final(self).dir == -1,
    {
        let ghost g0 = *self;
        proof { lemma_count_le(self.alive, 15); }
        let gone = COLS * ROWS - self.left();
        let period = (7u32).saturating_sub((gone / 3) as u32).max(2);
        assert(period == march_period(alive_count(g0.alive, 15)));
        if self.tick % period == 0 {
            let mut lo = W;
            let mut hi: isize = 0;
            let mut k: usize = 0;
            while k < 15
                invariant
                    k <= 15,
                    *self == g0,
                    g0.wf(),
                    lo == fleet_lo(self.alive, self.fx as int, k as int),
                    hi == fleet_hi(self.alive, self.fx as int, k as int),
                    -100 <= lo <= 128,
                    0 <= hi <= 250,
                decreases 15 - k,
            {
                let r = k / 5;
                let c = k % 5;
                if self.alive[r][c] {
                    let (x, _, w, _) = self.abox(r, c);
                    lo = lo.min(x);
                    hi = hi.max(x + w);
                }
                k += 1;
            }
            proof { lemma_fleet_bounds(g0.alive, g0.fx as int, 15); }
            if (self.dir > 0 && hi >= W - 2) || (self.dir < 0 && lo <= 2) {
                self.dir = -self.dir;
                self.fy += 5;
            } else {
                self.fx += self.dir * 3;
            }
        }
    }

    /// The shot's flight: it climbs 6 pixels and may kill the first live alien
    /// whose box it enters. Returns true on a kill.
    fn fly_shot(&mut self) -> (hit: bool)
        requires
            -100 <= old(self).fx <= 120,
            0 <= old(self).fy <= 60,
            old(self).shot matches Some((sx, sy)) ==> 15 <= sx <= 113 && 0 <= sy <= 106,
            old(self).score + shot_flight(old(self).alive, old(self).fx as int, old(self).fy as int, old(self).shot).2 <= u32::MAX,
        ensures
            ({
                let (k, shot2, pts) = shot_flight(old(self).alive, old(self).fx as int, old(self).fy as int, old(self).shot);
                &&& k matches Some(k) ==> kills(old(self).alive, final(self).alive, k)
                &&& k is None ==> final(self).alive == old(self).alive
                &&& final(self).shot == shot2
                &&& final(self).score == old(self).score + pts
                &&& hit == (k is Some)
                &&& *final(self) == (Game { alive: final(self).alive, shot: shot2, score: final(self).score, ..*old(self) })
            }),
    {
        let ghost g1 = *self;
        let mut killed = false;
        if let Some((sx, sy)) = self.shot {
            let ny = sy - 6;
            self.shot = if ny < 0 { None } else { Some((sx, ny)) };
            if let Some((sx, sy)) = self.shot {
                let mut k: usize = 0;
                while k < 15 && !killed
                    invariant
                        k <= 15,
                        -100 <= self.fx <= 120,
                        0 <= self.fy <= 60,
                        g1.shot matches Some((x, y)) && x == sx && y - 6 == sy && 0 <= sy,
                        g1.score + shot_flight(g1.alive, g1.fx as int, g1.fy as int, g1.shot).2 <= u32::MAX,
                        !killed ==> first_alien_hit(g1.alive, g1.fx as int, g1.fy as int, sx as int, sy as int, 0)
                            == first_alien_hit(g1.alive, g1.fx as int, g1.fy as int, sx as int, sy as int, k as int),
                        !killed ==> *self == (Game { shot: Some((sx, sy)), ..g1 }),
                        killed ==> ({
                            let (kk, shot2, pts) = shot_flight(g1.alive, g1.fx as int, g1.fy as int, g1.shot);
                            &&& kk matches Some(kk) && kills(g1.alive, self.alive, kk)
                            &&& self.shot == shot2
                            &&& self.score == g1.score + pts
                            &&& *self == (Game { shot: shot2, score: self.score, alive: self.alive, ..g1 })
                        }),
                    decreases 15 - k,
                {
                    let r = k / 5;
                    let c = k % 5;
                    if self.alive[r][c] {
                        let (x, y, w, h) = self.abox(r, c);
                        if sx >= x && sx < x + w && sy >= y && sy < y + h {
                            let mut row = self.alive[r];
                            row[c] = false;
                            self.alive[r] = row;
                            self.shot = None;
                            self.score += match r {
                                0 => 30,
                                1 => 20,
                                _ => 10,
                            };
                            killed = true;
                            assert(kills(g1.alive, self.alive, k as int));
                        }
                    }
                    k += 1;
                }
            }
        }
        killed
    }

    /// With no bomb falling, one draw in twenty drops a bomb from a live
    /// alien that a second draw picks.
    fn drop_bomb(&mut self)
        requires
            -100 <= old(self).fx <= 120,
            0 <= old(self).fy <= 60,
        ensures
            ({
                let (b, r) = bomb_drop(old(self).alive, old(self).fx as int, old(self).fy as int, old(self).bomb, old(self).rng);
                *final(self) == (Game { bomb: b, rng: r, ..*old(self) })
            }),
            final(self).bomb != old(self).bomb ==> (final(self).bomb matches Some((bx, by)) && -100 <= bx <= 223 && 0 <= by <= 112),
    {
        if self.bomb.is_none() && self.rand() % 20 == 0 {
            let mut live: Vec<(usize, usize)> = Vec::new();
            let mut k: usize = 0;
            while k < 15
                invariant
                    k <= 15,
                    live@ == live_cells(self.alive, k as int),
                decreases 15 - k,
            {
                let r = k / 5;
                let c = k % 5;
                if self.alive[r][c] {
                    live.push((r, c));
                }
                k += 1;
            }
            proof { lemma_live_cells(self.alive, 15); }
            if live.len() > 0 {
                let (r, c) = live[(self.rand() as usize) % live.len()];
                let (x, y, w, h) = self.abox(r, c);
                self.bomb = Some((x + w / 2, y + h));
            }
        }
    }

    /// Draws the frame: all dark, then the fleet, the cannon, the shot, the
    /// bomb and the ground line lit.
    pub fn render(&self, fb: &mut [u32; 512])
        requires
            self.wf(),
        ensures
            forall|a: int, b: int| on_screen(a, b) ==> #[trigger] is_lit(final(fb)@, a, b) == invaders_lit(*self, a, b),
    {
        clear(fb); // all dark
        let mut k: usize = 0;
        while k < 15
            invariant
                k <= 15,
                self.wf(),
                forall|a: int, b: int| on_screen(a, b) ==> #[trigger] is_lit(fb@, a, b) == aliens_cover(*self, k as int, a, b),
            decreases 15 - k,
        {
            let r = k / 5;
            let c = k % 5;
            let (rows, w) = sprite(r);
            if self.alive[r][c] {
                let (x, y, _, _) = self.abox(r, c);
                blit(fb, rows, w, x, y);
            }
            k += 1;
        }
        blit(fb, &CANNON, 13, self.player, H - 20);
        if let Some((sx, sy)) = self.shot {
            streak(fb, sx, sy);
        }
        if let Some((bx, by)) = self.bomb {
            streak(fb, bx, by);
        }
        let ghost before_ground = fb@;
        let mut x: isize = 0;
        while x < W
            invariant
                0 <= x <= W,
                forall|a: int, b: int| on_screen(a, b) ==> #[trigger] is_lit(fb@, a, b) == (
                    is_lit(before_ground, a, b) || (b == H - 1 && a < x)),
            decreases W - x,
        {
            px(fb, x, H - 1, true);
            x += 1;
        }
    }

    /// The number of live aliens.
    fn left(&self) -> (n: usize)
        ensures
            n == alive_count(self.alive, 15),
    {
        let mut n: usize = 0;
        let mut k: usize = 0;
        while k < 15
            invariant
                k <= 15,
                n == alive_count(self.alive, k as int),
                n <= k,
            decreases 15 - k,
        {
            if self.alive[k / 5][k % 5] {
                n += 1;
            }
            k += 1;
        }
        n
    }
}

/// The cannon's position after moving `dx` steps of 4, kept on screen.
pub open spec fn player_after(player: int, dx: int) -> int {
    let p = player + dx * 4;
    let p1 = if p < 2 { 2 } else { p };
    if p1 > W - 13 * SCALE - 2 { W - 13 * SCALE - 2 } else { p1 }
}

/// The fleet's `(fx, fy, dir)` after the march of a frame whose counter is
/// `tick`: on the beat, the fleet steps 3 pixels sideways, or, when its
/// leading live alien reaches the edge, turns round and drops 5 pixels.
pub open spec fn march(g: Game, tick: u32) -> (int, int, int) {
    if tick as int % march_period(alive_count(g.alive, 15)) == 0 {
        let lo = fleet_lo(g.alive, g.fx as int, 15);
        let hi = fleet_hi(g.alive, g.fx as int, 15);
        if (g.dir > 0 && hi >= W - 2) || (g.dir < 0 && lo <= 2) {
            (g.fx as int, g.fy + 5, -g.dir)
        } else {
            (g.fx + g.dir * 3, g.fy as int, g.dir as int)
        }
    } else {
        (g.fx as int, g.fy as int, g.dir as int)
    }
}

/// The shot climbs 6 pixels and leaves above the top, or stops in the first
/// live alien (row by row) whose box it enters. Gives the alien hit, the shot
/// left in flight and the points scored.
pub open spec fn shot_flight(alive: [[bool; COLS]; ROWS], fx: int, fy: int, shot: Option<(isize, isize)>) -> (Option<int>, Option<(isize, isize)>, int) {
    match shot {
        None => (None, None, 0),
        Some((sx, sy)) => {
            let ny = sy - 6;
            if ny < 0 {
                (None, None, 0)
            } else {
                match first_alien_hit(alive, fx, fy, sx as int, ny, 0) {
                    Some(k) => (Some(k), None, row_points(k / 5)),
                    None => (None, Some((sx, ny as isize)), 0),
                }
            }
        }
    }
}

/// With no bomb falling, one draw in twenty drops a bomb from the middle of
/// the bottom of a live alien that a second draw picks. Gives the bomb and
/// the generator state.
pub open spec fn bomb_drop(alive: [[bool; COLS]; ROWS], fx: int, fy: int, bomb: Option<(isize, isize)>, rng: u32) -> (Option<(isize, isize)>, u32) {
    if bomb is None {
        let r1 = xorshift(rng);
        let live = live_cells(alive, 15);
        if r1 % 20 == 0 && live.len() > 0 {
            let r2 = xorshift(r1);
            let (r, c) = live[r2 as int % live.len() as int];
            let k = r * 5 + c;
            (Some(((box_x(fx, k) + box_w(k) / 2) as isize, (box_y(fy, k) + 16) as isize)), r2)
        } else {
            (None, r1)
        }
    } else {
        (bomb, rng)
    }
}

/// The bomb falls 4 pixels and leaves below the bottom.
pub open spec fn bomb_fall(bomb: Option<(isize, isize)>) -> Option<(isize, isize)> {
    match bomb {
        None => None,
        Some((bx, by)) => if by + 4 >= H { None } else { Some((bx, (by + 4) as isize)) },
    }
}

/// `t` is the game `g` one frame on, with the cannon moved `dx` steps, the
/// fire button `fire`, and `hit` reporting a kill. The frame counts, moves
/// the cannon (firing if no shot is in flight), marches the fleet, flies the
/// shot, drops and flies a bomb, and ends the game when the bomb strikes the
/// cannon, the fleet is gone or it has come down to the cannon. A finished
/// game stays as it is.
pub open spec fn stepped(g: Game, t: Game, dx: isize, fire: bool, hit: bool) -> bool {
    if g.over {
        t == g && !hit
    } else {
        let tick = g.tick.wrapping_add(1);
        let p = player_after(g.player as int, dx as int);
        let shot1 = if fire && g.shot is None { Some(((p + 13) as isize, (H - 22) as isize)) } else { g.shot };
        let (fx, fy, dir) = march(g, tick);
        let (k, shot2, pts) = shot_flight(g.alive, fx, fy, shot1);
        let (bomb1, rng1) = bomb_drop(t.alive, fx, fy, g.bomb, g.rng);
        let bomb2 = bomb_fall(bomb1);
        &&& k matches Some(k) ==> kills(g.alive, t.alive, k)
        &&& k is None ==> t.alive == g.alive
        &&& t.tick == tick
        &&& t.player == p
        &&& t.fx == fx
        &&& t.fy == fy
        &&& t.dir == dir
        &&& t.shot == shot2
        &&& t.score == g.score + pts
        &&& t.bomb == bomb2
        &&& t.rng == rng1
        &&& t.over == ((bomb2 matches Some((bx, by)) && by >= H - 18 && p <= bx < p + 13 * SCALE)
            || alive_count(t.alive, 15) == 0 || fy + 3 * PITCH_Y >= H - 22)
        &&& hit == (k is Some)
    }
}

/// One frame computes without overflow: the cannon's move fits, and a kill's
/// points fit the score.
pub open spec fn step_ok(g: Game, dx: isize, fire: bool) -> bool {
    !g.over ==> {
        let tick = g.tick.wrapping_add(1);
        let p = player_after(g.player as int, dx as int);
        let shot1 = if fire && g.shot is None { Some(((p + 13) as isize, (H - 22) as isize)) } else { g.shot };
        let (fx, fy, dir) = march(g, tick);
        let (k, shot2, pts) = shot_flight(g.alive, fx, fy, shot1);
        &&& isize::MIN <= dx * 4 <= isize::MAX
        &&& isize::MIN <= g.player + dx * 4 <= isize::MAX
        &&& g.score + pts <= u32::MAX
    }
}

/// The autopilot's aim over the first `n` cells: the centre of the first live
/// alien of the lowest row that has one, with the top edge of that row (or
/// no aim and -1).
pub open spec fn aim(alive: [[bool; COLS]; ROWS], fx: int, fy: int, n: int) -> (Option<int>, int)
    decreases n,
{
    if n <= 0 {
        (None, -1)
    } else {
        let (t, best) = aim(alive, fx, fy, n - 1);
        let k = n - 1;
        if cell_alive(alive, k) && box_y(fy, k) > best {
            (Some(box_x(fx, k) + box_w(k) / 2), box_y(fy, k))
        } else {
            (t, best)
        }
    }
}

/// Steering toward `target` from a muzzle at `muzzle`: a step toward it when
/// more than 3 pixels off, firing when lined up; nothing without a target.
pub open spec fn steer(target: Option<int>, muzzle: int) -> (isize, bool) {
    match target {
        Some(tx) => {
            let d: isize = if tx > muzzle + 3 { 1isize } else if tx < muzzle - 3 { -1isize } else { 0isize };
            (d, d == 0)
        },
        None => (0, false),
    }
}

/// Attract-mode AI: steer toward the lowest live alien and fire when roughly
/// lined up. Deliberately imperfect -- it should look like play, not a solver,
/// and it will eventually lose, which restarts the demo.
pub fn autopilot(g: &Game) -> (r: (isize, bool))
    requires
        g.wf(),
    ensures
        r == steer(aim(g.alive, g.fx as int, g.fy as int, 15).0, g.player + 13 * SCALE / 2),
        -1 <= r.0 <= 1,
{
    let mut target_x: Option<isize> = None;
    let mut best_y = -1isize;
    let mut k: usize = 0;
    while k < 15
        invariant
            k <= 15,
            g.wf(),
            (target_x matches Some(t) ==> (Some(t as int), best_y as int) == aim(g.alive, g.fx as int, g.fy as int, k as int)),
            (target_x is None ==> (None::<int>, best_y as int) == aim(g.alive, g.fx as int, g.fy as int, k as int)),
            -1 <= best_y <= 100,
        decreases 15 - k,
    {
        let r = k / 5;
        let c = k % 5;
        if g.alive[r][c] {
            let (x, y, w, _) = g.abox(r, c);
            // prefer the lowest (most dangerous) row
            if y > best_y {
                best_y = y;
                target_x = Some(x + w / 2);
            }
        }
        k += 1;
    }
    let muzzle = g.player + 13 * SCALE / 2;
    match target_x {
        Some(tx) => {
            let d = if tx > muzzle + 3 { 1 } else if tx < muzzle - 3 { -1 } else { 0 };
            (d, d == 0)
        },
        None => (0, false),
    }
}

/// The Air-Sea autopilot: track the lowest live target and fire when the gun
/// is lined up with it.
pub fn airsea_autopilot(s: &AirSea) -> (r: (isize, bool))
    requires
        s.wf(),
    ensures
        r == steer(airsea_aim(s.targets@, 6).0, s.gun_x + 5),
        -1 <= r.0 <= 1,
{
    let mut tx: Option<isize> = None;
    let mut best = -1isize;
    let mut i: usize = 0;
    while i < MAX_TARGETS
        invariant
            i <= 6,
            s.wf(),
            (tx matches Some(t) ==> (Some(t as int), best as int) == airsea_aim(s.targets@, i as int)),
            (tx is None ==> (None::<int>, best as int) == airsea_aim(s.targets@, i as int)),
            -1 <= best < 128,
        decreases 6 - i,
    {
        let t = s.targets[i];
        assert(target_wf(s.targets@[i as int]));
        if t.alive && t.y > best {
            best = t.y;
            tx = Some(t.x + 5);
        }
        i += 1;
    }
    let muzzle = s.gun_x + 5;
    match tx {
        Some(x) => {
            let d = if x > muzzle + 3 { 1 } else if x < muzzle - 3 { -1 } else { 0 };
            (d, d == 0)
        },
        None => (0, false),
    }
}

/// The Air-Sea autopilot's aim over the first `n` targets: 5 pixels right of
/// the first live target among the lowest, with its altitude.
pub open spec fn airsea_aim(ts: Seq<Target>, n: int) -> (Option<int>, int)
    decreases n,
{
    if n <= 0 {
        (None, -1)
    } else {
        let (x, best) = airsea_aim(ts, n - 1);
        let t = ts[n - 1];
        if t.alive && t.y > best { (Some(t.x + 5), t.y as int) } else { (x, best) }
    }
}

/// The colour the badge LEDs take: orange while `ttl` marks a recent kill,
/// otherwise a dim hue cycle so the badge looks alive.
pub open spec fn led_colour_spec(hue: u8, ttl: u8) -> (u8, u8, u8) {
    if ttl > 0 {
        (255, 40, 0)
    } else {
        let r = hue / 43;
        let sixth = (hue / 6) as int;
        let fall = if sixth > 40 { 0u8 } else { (40 - sixth) as u8 };
        if r == 0 {
            (40, (hue.wrapping_mul(6) / 6) as u8, 0)
        } else if r == 1 {
            (fall, 40, 0)
        } else if r == 2 {
            (0, 40, (hue / 6) as u8)
        } else if r == 3 {
            (0, fall, 40)
        } else if r == 4 {
            ((hue / 6) as u8, 0, 40)
        } else {
            (40, 0, fall)
        }
    }
}

/// Integer HSV at low value -- easy on two AA cells -- or the kill flash.
pub fn led_colour(hue: u8, ttl: u8) -> (c: (u8, u8, u8))
    ensures
        c == led_colour_spec(hue, ttl),
{
    if ttl > 0 {
        (255u8, 40u8, 0u8)
    } else {
        match hue / 43 {
            0 => (40, hue.wrapping_mul(6) / 6, 0),
            1 => (40u8.saturating_sub(hue / 6), 40, 0),
            2 => (0, 40, hue / 6),
            3 => (0, 40u8.saturating_sub(hue / 6), 40),
            4 => (hue / 6, 0, 40),
            _ => (40, 0, 40u8.saturating_sub(hue / 6)),
        }
    }
}

/// The pixels that the live aliens among the first `n` cells light.
pub open spec fn aliens_cover(g: Game, n: int, a: int, b: int) -> bool
    decreases n,
{
    if n <= 0 {
        false
    } else {
        let k = n - 1;
        aliens_cover(g, n - 1, a, b) || (cell_alive(g.alive, k) && sprite_covers(
            sprite_rows(k / 5),
            8,
            sprite_w(k / 5),
            box_x(g.fx as int, k),
            box_y(g.fy as int, k),
            2,
            a,
            b,
        ))
    }
}

/// The pixels that the Invaders screen lights: the live aliens, the cannon
/// at the foot, the shot and the bomb as 2x6 streaks, and the ground line.
pub open spec fn invaders_lit(g: Game, a: int, b: int) -> bool {
    ||| aliens_cover(g, 15, a, b)
    ||| sprite_covers(CANNON@, 8, 13, g.player as int, H - 20, 2, a, b)
    ||| (g.shot matches Some((sx, sy)) && in_rect(sx as int, sy as int, sx + 2, sy + 6, a, b))
    ||| (g.bomb matches Some((bx, by)) && in_rect(bx as int, by as int, bx + 2, by + 6, a, b))
    ||| b == H - 1
}

/// Lights a 2x6 streak with its top left pixel at `(x, y)`.
fn streak(fb: &mut [u32; 512], x: isize, y: isize)
    requires
        x + 2 <= isize::MAX + 1,
        y + 6 <= isize::MAX + 1,
    ensures
        forall|a: int, b: int| on_screen(a, b) ==> #[trigger] is_lit(final(fb)@, a, b) == (
            is_lit(old(fb)@, a, b) || in_rect(x as int, y as int, x + 2, y + 6, a, b)),
{
    let ghost start = fb@;
    let mut i: isize = 0;
    while i < 6
        invariant
            0 <= i <= 6,
            x + 2 <= isize::MAX + 1,
            y + 6 <= isize::MAX + 1,
            forall|a: int, b: int| on_screen(a, b) ==> #[trigger] is_lit(fb@, a, b) == (
                is_lit(start, a, b) || in_rect(x as int, y as int, x + 2, y + i, a, b)),
        decreases 6 - i,
    {
        px(fb, x, y + i, true);
        px(fb, x + 1, y + i, true);
        i += 1;
    }
}

pub proof fn lemma_fleet_bounds(alive: [[bool; COLS]; ROWS], fx: int, n: int)
    requires
        0 <= n <= 15,
        alive_count(alive, n) > 0,
    ensures
        fleet_hi(alive, fx, n) >= fx + 16,
        fleet_lo(alive, fx, n) <= fx + 92,
    decreases n,
{
    if alive_count(alive, n - 1) > 0 {
        lemma_fleet_bounds(alive, fx, n - 1);
    }
}

pub proof fn lemma_live_cells(alive: [[bool; COLS]; ROWS], n: int)
    requires
        0 <= n <= 15,
    ensures
        live_cells(alive, n).len() == alive_count(alive, n),
        forall|j: int| 0 <= j < live_cells(alive, n).len() ==> {
            let (r, c) = #[trigger] live_cells(alive, n)[j];
            r < 3 && c < 5 && cell_alive(alive, r * 5 + c)
        },
    decreases n,
{
    if n > 0 {
        lemma_live_cells(alive, n - 1);
    }
}

pub proof fn lemma_killed_count(alive: [[bool; COLS]; ROWS], a: [[bool; COLS]; ROWS], k: int, n: int)
    requires
        0 <= k < 15,
        0 <= n <= 15,
        kills(alive, a, k),
    ensures
        alive_count(a, n) == alive_count(alive, n) - if k < n && cell_alive(alive, k) { 1int } else { 0int },
    decreases n,
{
    if n > 0 {
        lemma_killed_count(alive, a, k, n - 1);
    }
}

pub proof fn lemma_count_le(alive: [[bool; COLS]; ROWS], n: int)
    requires
        0 <= n,
    ensures
        0 <= alive_count(alive, n) <= n,
    decreases n,
{
    if n > 0 {
        lemma_count_le(alive, n - 1);
    }
}

/// The points that the dead aliens among the first `n` cells were worth.
pub open spec fn dead_points(alive: [[bool; COLS]; ROWS], n: int) -> int
    decreases n,
{
    if n <= 0 {
        0
    } else {
        dead_points(alive, n - 1) + if cell_alive(alive, n - 1) { 0int } else { row_points((n - 1) / 5) }
    }
}

pub proof fn lemma_kill_points(alive: [[bool; COLS]; ROWS], a: [[bool; COLS]; ROWS], k: int, n: int)
    requires
        0 <= k < 15,
        0 <= n <= 15,
        kills(alive, a, k),
        cell_alive(alive, k),
    ensures
        dead_points(a, n) == dead_points(alive, n) + if k < n { row_points(k / 5) } else { 0int },
    decreases n,
{
    if n > 0 {
        lemma_kill_points(alive, a, k, n - 1);
    }
}

pub proof fn lemma_first_hit_alive(alive: [[bool; COLS]; ROWS], fx: int, fy: int, sx: int, sy: int, k: int)
    requires
        first_alien_hit(alive, fx, fy, sx, sy, k) is Some,
    ensures
        ({
            let j = first_alien_hit(alive, fx, fy, sx, sy, k).unwrap();
            0 <= j < 15 && cell_alive(alive, j)
        }),
    decreases 15 - k,
{
    if 0 <= k < 15 && !(cell_alive(alive, k) && box_x(fx, k) <= sx < box_x(fx, k) + box_w(k) && box_y(fy, k) <= sy < box_y(fy, k) + 16) {
        lemma_first_hit_alive(alive, fx, fy, sx, sy, k + 1);
    }
}

/// The score goes up by exactly what the aliens shot in a frame were worth:
/// a game whose score counts its dead aliens keeps counting them.
pub proof fn law_score_counts_kills(g: Game, t: Game, dx: isize, fire: bool, hit: bool)
    requires
        stepped(g, t, dx, fire, hit),
    ensures
        t.score - g.score == dead_points(t.alive, 15) - dead_points(g.alive, 15),
        alive_count(t.alive, 15) <= alive_count(g.alive, 15),
        hit <==> t.score > g.score,
{
    if !g.over {
        let tick = g.tick.wrapping_add(1);
        let p = player_after(g.player as int, dx as int);
        let shot1 = if fire && g.shot is None { Some(((p + 13) as isize, (H - 22) as isize)) } else { g.shot };
        let (fx, fy, dir) = march(g, tick);
        let (k, shot2, pts) = shot_flight(g.alive, fx, fy, shot1);
        if let Some(k) = k {
            let (sx, sy) = shot1.unwrap();
            lemma_first_hit_alive(g.alive, fx, fy, sx as int, sy - 6, 0);
            lemma_kill_points(g.alive, t.alive, k, 15);
            lemma_killed_count(g.alive, t.alive, k, 15);
        }
    }
}

/// With fewer aliens left the fleet marches at least as often.
pub proof fn law_march_speeds_up(fewer: int, more: int)
    requires
        0 <= fewer <= more <= 15,
    ensures
        march_period(fewer) <= march_period(more),
        2 <= march_period(fewer) <= 7,
{
}

/// The march period with `k` aliens alive: 7 frames for the full fleet, one
/// frame less for every three aliens shot, and never under 2 (5 frames with
/// 9 alive, 3 with 3 alive).
pub proof fn law_march_period_drops_every_three(k: int)
    requires
        0 <= k < 15,
    ensures
        march_period(15) == 7,
        march_period(k) == if (15 - k) % 3 == 0 && march_period(k + 1) > 2 {
            march_period(k + 1) - 1
        } else {
            march_period(k + 1)
        },
        march_period(k) >= 2,
{
}

/// The fleet moves only on its beat, the frames whose count is a multiple of
/// the march period for the aliens alive: then it steps 3 pixels along its
/// direction, or turns round and drops 5 pixels; off the beat it stays put.
pub proof fn law_fleet_marches_on_its_beat(g: Game, t: Game, dx: isize, fire: bool, hit: bool)
    requires
        stepped(g, t, dx, fire, hit),
        !g.over,
    ensures
        t.tick == g.tick.wrapping_add(1),
        t.tick as int % march_period(alive_count(g.alive, 15)) != 0 ==> t.fx == g.fx && t.fy == g.fy && t.dir == g.dir,
        t.tick as int % march_period(alive_count(g.alive, 15)) == 0 ==> {
            ||| t.fx == g.fx + 3 * g.dir && t.fy == g.fy && t.dir == g.dir
            ||| t.fx == g.fx && t.fy == g.fy + 5 && t.dir == -g.dir
        },
{
}

/// What a frame does to the cannon, the shot and a falling bomb: the cannon
/// moves 4 pixels per step of `dx`, kept between 2 and 100; a shot that hits
/// nothing climbs 6 pixels and leaves above the top; a new shot leaves the
/// cannon's middle at row 106 and climbs in the same frame; a hit takes the
/// shot; a bomb already falling drops 4 pixels and leaves below the bottom.
pub proof fn law_step_moves(g: Game, t: Game, dx: isize, fire: bool, hit: bool)
    requires
        stepped(g, t, dx, fire, hit),
        !g.over,
    ensures
        t.player == if g.player + 4 * dx < 2 { 2 } else if g.player + 4 * dx > 100 { 100 } else { g.player + 4 * dx },
        !hit ==> (g.shot matches Some((sx, sy)) ==> t.shot == if sy < 6 { None } else { Some((sx, (sy - 6) as isize)) }),
        !hit && g.shot is None && fire ==> t.shot == Some(((t.player + 13) as isize, 100isize)),
        !hit && g.shot is None && !fire ==> t.shot is None,
        hit ==> t.shot is None,
        g.bomb matches Some((bx, by)) ==> t.bomb == if by + 4 >= 128 { None } else { Some((bx, (by + 4) as isize)) },
{
}

/// The shot finds an alien exactly when it lies in a live alien's box: the
/// alien's art doubled, 16 pixels wide for a squid and 22 for the others, 16
/// high, the boxes 23 pixels apart across and 18 down from the fleet's
/// corner; it takes the first such alien, row by row.
pub proof fn law_shot_finds_alien(alive: [[bool; COLS]; ROWS], fx: int, fy: int, sx: int, sy: int, k0: int)
    requires
        0 <= k0 <= 15,
    ensures
        first_alien_hit(alive, fx, fy, sx, sy, k0) matches Some(k) ==> {
            &&& k0 <= k < 15
            &&& alive@[k / 5]@[k % 5]
            &&& fx + (k % 5) * 23 <= sx < fx + (k % 5) * 23 + (if k < 5 { 16int } else { 22int })
            &&& fy + (k / 5) * 18 <= sy < fy + (k / 5) * 18 + 16
            &&& forall|j: int| k0 <= j < k && #[trigger] alive@[j / 5]@[j % 5] ==> !(fx + (j % 5) * 23 <= sx < fx
                + (j % 5) * 23 + (if j < 5 { 16int } else { 22int }) && fy + (j / 5) * 18 <= sy < fy + (j / 5) * 18 + 16)
        },
        first_alien_hit(alive, fx, fy, sx, sy, k0) is None ==> forall|j: int| k0 <= j < 15 && #[trigger] alive@[j
            / 5]@[j % 5] ==> !(fx + (j % 5) * 23 <= sx < fx + (j % 5) * 23 + (if j < 5 { 16int } else { 22int }) && fy
            + (j / 5) * 18 <= sy < fy + (j / 5) * 18 + 16),
    decreases 15 - k0,
{
    if k0 < 15 {
        law_shot_finds_alien(alive, fx, fy, sx, sy, k0 + 1);
    }
}

/// A new bomb drops from the middle of the bottom of a live alien and falls
/// 4 pixels in the frame it is dropped.
pub proof fn law_bomb_from_live_alien(g: Game, t: Game, dx: isize, fire: bool, hit: bool)
    requires
        g.wf(),
        stepped(g, t, dx, fire, hit),
        !g.over,
        g.bomb is None,
        t.bomb is Some,
    ensures
        exists|k: int| 0 <= k < 15 && #[trigger] t.alive@[k / 5]@[k % 5] && t.bomb.unwrap().0 == t.fx + (k % 5) * 23
            + (if k < 5 { 8int } else { 11int }) && t.bomb.unwrap().1 == t.fy + (k / 5) * 18 + 20,
{
    let r1 = xorshift(g.rng);
    let live = live_cells(t.alive, 15);
    lemma_live_cells(t.alive, 15);
    let r2 = xorshift(r1);
    let j = r2 as int % live.len() as int;
    let (r, c) = live[j];
    let k = r * 5 + c;
    let ki = k as int;
    assert(cell_alive(t.alive, ki));
    assert(ki / 5 == r && ki % 5 == c);
    lemma_fleet_bounds(g.alive, g.fx as int, 15);
    let (fx, fy, dir) = march(g, g.tick.wrapping_add(1));
    assert(-200 <= fx <= 200 && 0 <= fy <= 70);
    assert(t.bomb.unwrap().0 == box_x(fx, ki) + box_w(ki) / 2);
    assert(t.alive@[ki / 5]@[ki % 5]);
}

/// What shooting an alien scores: 30 for the top row, 20 for the middle and
/// 10 for the bottom, ten less for each row down.
pub proof fn law_row_points(row: int)
    requires
        0 <= row < 3,
    ensures
        row_points(row) == 30 - 10 * row,
{
}

/// A frame ends the game exactly when, afterwards, a bomb has come down to
/// the cannon's rows (y at least 110) anywhere across the cannon's full 26
/// pixels, the fleet is gone, or the fleet's bottom row has come down to the
/// cannon (its top edge plus 54 at least 106).
pub proof fn law_game_over_when(g: Game, t: Game, dx: isize, fire: bool, hit: bool)
    requires
        stepped(g, t, dx, fire, hit),
        !g.over,
    ensures
        t.over == {
            ||| (t.bomb matches Some((bx, by)) && by >= 110 && t.player <= bx < t.player + 26)
            ||| alive_count(t.alive, 15) == 0
            ||| t.fy + 54 >= 106
        },
{
}

/// The Invaders screen shows each part of the game: the ground line along the
/// bottom row, the shot and the bomb each as a 2x6 streak from their
/// position, the cannon's art doubled at its position 20 rows up from the
/// bottom, and each live alien's art doubled in its box.
pub proof fn law_invaders_screen_parts(g: Game, a: int, b: int)
    ensures
        b == 127 ==> invaders_lit(g, a, b),
        g.shot matches Some((sx, sy)) && sx <= a < sx + 2 && sy <= b < sy + 6 ==> invaders_lit(g, a, b),
        g.bomb matches Some((bx, by)) && bx <= a < bx + 2 && by <= b < by + 6 ==> invaders_lit(g, a, b),
        sprite_covers(CANNON@, 8, 13, g.player as int, 108, 2, a, b) ==> invaders_lit(g, a, b),
        forall|k: int| 0 <= k < 15 && #[trigger] cell_alive(g.alive, k) && sprite_covers(
            if k / 5 == 0 { SQUID@ } else if k / 5 == 1 { CRAB@ } else { OCTO@ },
            8,
            if k / 5 == 0 { 8 } else { 11 },
            g.fx + (k % 5) * 23,
            g.fy + (k / 5) * 18,
            2,
            a,
            b,
        ) ==> invaders_lit(g, a, b),
{
    assert forall|k: int| 0 <= k < 15 && #[trigger] cell_alive(g.alive, k) && sprite_covers(
        if k / 5 == 0 { SQUID@ } else if k / 5 == 1 { CRAB@ } else { OCTO@ },
        8,
        if k / 5 == 0 { 8 } else { 11 },
        g.fx + (k % 5) * 23,
        g.fy + (k / 5) * 18,
        2,
        a,
        b,
    ) implies invaders_lit(g, a, b) by {
        lemma_alien_lit(g, 15, k, a, b);
    }
}

proof fn lemma_alien_lit(g: Game, n: int, k: int, a: int, b: int)
    requires
        0 <= k < n <= 15,
        cell_alive(g.alive, k),
        sprite_covers(sprite_rows(k / 5), 8, sprite_w(k / 5), box_x(g.fx as int, k), box_y(g.fy as int, k), 2, a, b),
    ensures
        aliens_cover(g, n, a, b),
    decreases n,
{
    if k < n - 1 {
        lemma_alien_lit(g, n - 1, k, a, b);
    }
}

/// A fresh game's score counts its (no) dead aliens.
pub proof fn law_new_game_counts(g: Game, seed: u32)
    requires
        is_new_game(g, seed),
    ensures
        g.score == dead_points(g.alive, 15),
{
    lemma_no_dead(g.alive, 15);
}

proof fn lemma_aim(alive: [[bool; COLS]; ROWS], fx: int, fy: int, n: int)
    requires
        0 <= n <= 15,
        0 <= fy,
    ensures
        ({
            let (t, best) = aim(alive, fx, fy, n);
            &&& t matches Some(x) ==> exists|k: int| 0 <= k < n && #[trigger] cell_alive(alive, k)
                && box_y(fy, k) == best && x == box_x(fx, k) + box_w(k) / 2
            &&& t is None ==> best == -1 && forall|k: int| 0 <= k < n ==> !#[trigger] cell_alive(alive, k)
            &&& forall|k: int| 0 <= k < n && #[trigger] cell_alive(alive, k) ==> box_y(fy, k) <= best
        }),
    decreases n,
{
    if n > 0 {
        lemma_aim(alive, fx, fy, n - 1);
        let k = n - 1;
        let (t, best) = aim(alive, fx, fy, n - 1);
        if cell_alive(alive, k) && box_y(fy, k) > best {
            assert(cell_alive(alive, k) && box_y(fy, k) == aim(alive, fx, fy, n).1);
        } else if t is None {
            assert(!cell_alive(alive, k));
        }
    }
}

/// The autopilot aims at the lowest live alien: with a live alien it steers
/// for the centre of one that sits as low as any, and with none it neither
/// moves nor fires.
pub proof fn law_autopilot_aims_lowest(g: Game)
    requires
        g.wf(),
    ensures
        ({
            let (t, best) = aim(g.alive, g.fx as int, g.fy as int, 15);
            &&& t matches Some(x) ==> exists|k: int| 0 <= k < 15 && #[trigger] cell_alive(g.alive, k)
                && box_y(g.fy as int, k) == best && x == box_x(g.fx as int, k) + box_w(k) / 2
            &&& forall|k: int| 0 <= k < 15 && #[trigger] cell_alive(g.alive, k) ==> box_y(g.fy as int, k) <= best
            &&& t is None ==> forall|k: int| 0 <= k < 15 ==> !#[trigger] cell_alive(g.alive, k)
        }),
        aim(g.alive, g.fx as int, g.fy as int, 15).0 is None ==> steer(
            aim(g.alive, g.fx as int, g.fy as int, 15).0, g.player + 13 * SCALE / 2) == (0isize, false),
{
    lemma_aim(g.alive, g.fx as int, g.fy as int, 15);
}

proof fn lemma_no_dead(alive: [[bool; COLS]; ROWS], n: int)
    requires
        0 <= n <= 15,
        forall|k: int| 0 <= k < 15 ==> #[trigger] cell_alive(alive, k),
    ensures
        dead_points(alive, n) == 0,
    decreases n,
{
    if n > 0 {
        lemma_no_dead(alive, n - 1);
    }
}

proof fn lemma_all_alive_count(alive: [[bool; COLS]; ROWS], n: int)
    requires
        0 <= n <= 15,
        forall|k: int| 0 <= k < 15 ==> #[trigger] cell_alive(alive, k),
    ensures
        alive_count(alive, n) == n,
    decreases n,
{
    if n > 0 {
        lemma_all_alive_count(alive, n - 1);
    }
}


/// One linear congruential step of the seed that starts each new game.
pub open spec fn next_seed(seed: u32) -> u32 {
    seed.wrapping_mul(1664525).wrapping_add(1013904223)
}

/// Each new game's seed is the last one's linear congruential successor:
/// times 1664525 plus 1013904223, modulo 2^32.
pub proof fn law_next_seed(seed: u32)
    ensures
        next_seed(seed) as int == (seed as int * 1664525 + 1013904223) % 0x1_0000_0000,
{
    let m = seed.wrapping_mul(1664525);
    assert(m as int == (seed as int * 1664525) % 0x1_0000_0000);
    assert(m.wrapping_add(1013904223) as int == (m as int + 1013904223) % 0x1_0000_0000);
    assert(((seed as int * 1664525) % 0x1_0000_0000 + 1013904223) % 0x1_0000_0000
        == (seed as int * 1664525 + 1013904223) % 0x1_0000_0000) by (nonlinear_arith);
}

/// `g` is a fresh game dealt from `seed`, as `Game::new` deals it.
pub open spec fn is_new_game(g: Game, seed: u32) -> bool {
    &&& g.wf()
    &&& forall|k: int| 0 <= k < 15 ==> #[trigger] cell_alive(g.alive, k)
    &&& g.fx == 6 && g.fy == 26 && g.dir == 1
    &&& g.player == W / 2 - 13
    &&& g.shot is None && g.bomb is None
    &&& g.score == 0 && !g.over && g.tick == 0
    &&& g.rng == seed | 1
}

/// Why a console game ended.
#[derive(Clone, Copy, PartialEq, Eq, Debug, Structural)]
pub enum EndReason {
    Destroyed,
    Quit,
    Timeout,
}

impl EndReason {
    pub fn label(&self) -> (r: &'static str)
        ensures
            r@ == (match *self {
                EndReason::Destroyed => "destroyed"@,
                EndReason::Quit => "quit"@,
                EndReason::Timeout => "timeout"@,
            }),
    {
        match self {
            EndReason::Destroyed => "destroyed",
            EndReason::Quit => "quit",
            EndReason::Timeout => "timeout",
        }
    }
}

/// What the top of a console frame decided.
#[derive(Clone, Copy, PartialEq, Eq, Debug, Structural)]
pub enum FrameStart {
    /// The autopilot lost; a new game was dealt. Re-assert the panel
    /// brightness and start the next frame at once.
    Restarted,
    /// The session is over.
    Ended(EndReason),
    /// Read the buttons and play the frame.
    Play,
}

/// Two minutes of play at most.
pub const RUN_MS: u64 = 120_000;

/// A console Invaders session: the game, the seed of the next one, whether
/// the autopilot drives, the frames played and the panel buffer.
pub struct Session {
    pub game: Game,
    pub seed: u32,
    pub demo: bool,
    pub frames: u32,
    pub fb: [u32; 512],
}

/// The controls a frame plays with: a button press takes over from the
/// autopilot for good.
pub open spec fn session_controls(s: Session, hd: isize, hf: bool) -> (isize, bool) {
    let demo = s.demo && !(hd != 0 || hf);
    if demo {
        steer(aim(s.game.alive, s.game.fx as int, s.game.fy as int, 15).0, s.game.player + 13 * SCALE / 2)
    } else {
        (hd, hf)
    }
}

impl Session {
    /// A session dealt from `seed` with the autopilot driving.
    pub fn new(seed: u32) -> (s: Session)
        ensures
            is_new_game(s.game, seed),
            s.seed == seed,
            s.demo,
            s.frames == 0,
            forall|i: int| 0 <= i < 512 ==> s.fb@[i] == 0xFFFF_FFFFu32,
    {
        Session { game: Game::new(seed), seed, demo: true, frames: 0, fb: [0xFFFF_FFFFu32; 512] }
    }

    /// The top of a frame: a lost demo game restarts from the next seed, a
    /// lost human game ends the session, as do the quit button and
    /// `elapsed_ms` past two minutes.
    pub fn begin_frame(&mut self, quit: bool, elapsed_ms: u64) -> (r: FrameStart)
        requires
            old(self).game.wf(),
        ensures
            final(self).game.wf(),
            final(self).frames == old(self).frames,
            final(self).demo == old(self).demo,
            final(self).fb == old(self).fb,
            old(self).game.over && old(self).demo ==> r == FrameStart::Restarted
                && final(self).seed == next_seed(old(self).seed)
                && is_new_game(final(self).game, final(self).seed),
            !(old(self).game.over && old(self).demo) ==> final(self).game == old(self).game
                && final(self).seed == old(self).seed && r == (
                if old(self).game.over {
                    FrameStart::Ended(EndReason::Destroyed)
                } else if quit {
                    FrameStart::Ended(EndReason::Quit)
                } else if elapsed_ms > RUN_MS {
                    FrameStart::Ended(EndReason::Timeout)
                } else {
                    FrameStart::Play
                }),
    {
        if self.game.over {
            if self.demo {
                // Attract mode never ends on its own: reseed and play again.
                self.seed = self.seed.wrapping_mul(1664525).wrapping_add(1013904223);
                self.game = Game::new(self.seed);
                return FrameStart::Restarted;
            }
            return FrameStart::Ended(EndReason::Destroyed);
        }
        if quit {
            return FrameStart::Ended(EndReason::Quit);
        }
        if elapsed_ms > RUN_MS {
            return FrameStart::Ended(EndReason::Timeout);
        }
        FrameStart::Play
    }

    /// Plays one frame with the buttons read as `hd` and `hf`, drawing it
    /// into the buffer; returns true when the panel brightness is due to be
    /// re-asserted (every 20th frame).
    pub fn play_frame(&mut self, hd: isize, hf: bool) -> (reassert: bool)
        requires
            old(self).game.wf(),
            step_ok(old(self).game, session_controls(*old(self), hd, hf).0, session_controls(*old(self), hd, hf).1),
            old(self).frames < u32::MAX,
        ensures
            final(self).game.wf(),
            final(self).demo == (old(self).demo && !(hd != 0 || hf)),
            ({
                let (d, f) = session_controls(*old(self), hd, hf);
                exists|k: bool| stepped(old(self).game, final(self).game, d, f, k)
            }),
            final(self).frames == old(self).frames + 1,
            final(self).seed == old(self).seed,
            reassert == (final(self).frames % 20 == 0),
            forall|a: int, b: int| on_screen(a, b) ==> #[trigger] is_lit(final(self).fb@, a, b) == invaders_lit(final(self).game, a, b),
    {
        if hd != 0 || hf {
            self.demo = false; // a human touched a button - stop autopiloting
        }
        let (d, f) = if self.demo { autopilot(&self.game) } else { (hd, hf) };
        let _killed = self.game.step(d, f);
        self.game.render(&mut self.fb);
        self.frames += 1;
        self.frames % 20 == 0
    }
}
} // verus!
