//! Air-Sea Battle: a genuinely separate game from Invaders.
//!
//! You are a gun at the bottom centre. Planes cross the sky at three altitudes
//! (fast, worth more the higher they are) and boats cross the waterline at the
//! bottom (slow, worth less). Shoot upward; one shell in flight at a time.
use vstd::prelude::*;
use crate::fb::{on_screen, is_lit, in_rect, sprite_covers, sprite_row_covers};
use crate::menu::{H, W, px, clear, text, text_covers};

verus! {

pub const GUN_W: isize = 11;
pub const MAX_TARGETS: usize = 6;

#[derive(Clone, Copy)]
pub struct Target {
    pub x: isize,
    pub y: isize,
    pub vx: isize,
    pub plane: bool,
    pub alive: bool,
}

pub struct AirSea {
    pub gun_x: isize,
    pub shot: Option<(isize, isize)>,
    pub targets: [Target; MAX_TARGETS],
    pub score: u32,
    pub misses: u32,
    pub over: bool,
    pub rng: u32,
    pub tick: u32,
}

// 11x5 plane, 11x4 boat -- wide and low so they read at this size
pub const PLANE: [u16; 5] = [
    0b00000100000,
    0b00001110000,
    0b11111111111,
    0b00111111100,
    0b00000100000,
];
pub const BOAT: [u16; 4] = [
    0b00000100000,
    0b00001110000,
    0b01111111110,
    0b00111111100,
];

/// One xorshift32 step.
pub open spec fn xorshift(s: u32) -> u32 {
    let a = s ^ (s << 13u32);
    let b = a ^ (a >> 17u32);
    b ^ (b << 5u32)
}

/// The target that a spawn into slot `i` makes from the draw `r`: a plane
/// (always for slots 0 and 1, else when bit 0 is clear) in one of three lanes,
/// or a boat at the waterline, entering from the side that bit 8 picks, at
/// speed 2 to 4 for a plane and 1 for a boat.
pub open spec fn spawned(r: u32, i: int) -> Target {
    let plane = r & 1 == 0 || i < 2;
    let lane = ((r >> 4u32) % 3) as int;
    let dir: int = if (r >> 8u32) & 1 == 0 { 1 } else { -1 };
    let speed: int = if plane { 2 + ((r >> 12u32) % 3) as int } else { 1 };
    Target {
        x: if dir > 0 { -12isize } else { (W + 12) as isize },
        y: if plane { (14 + lane * 16) as isize } else { (H - 26) as isize },
        vx: (if dir > 0 { speed } else { -speed }) as isize,
        plane,
        alive: true,
    }
}

pub proof fn lemma_spawned_wf(r: u32, i: int)
    ensures
        target_wf(spawned(r, i)),
{
}

/// The empty slot that a new game starts from.
pub open spec fn empty_target() -> Target {
    Target { x: 0, y: 0, vx: 0, plane: true, alive: false }
}

/// A target that the game can hold: on or near the screen, moving at most 4
/// pixels a frame, and, while alive, within 16 pixels of the screen.
pub open spec fn target_wf(t: Target) -> bool {
    &&& -20 <= t.x <= 148
    &&& 0 <= t.y < 128
    &&& -4 <= t.vx <= 4
    &&& t.alive ==> -16 <= t.x <= 144
}

/// The gun position after moving by `dx` steps of 4, kept on screen.
pub open spec fn gun_after(gun_x: int, dx: int) -> int {
    let g = gun_x + dx * 4;
    let g1 = if g < 2 { 2 } else { g };
    if g1 > W - GUN_W - 2 { W - GUN_W - 2 } else { g1 }
}

/// The shell in flight after the fire button: a new one leaves the muzzle if
/// none is in flight.
pub open spec fn shell_after_fire(shot: Option<(isize, isize)>, fire: bool, gun_x: int) -> Option<(isize, isize)> {
    if fire && shot is None {
        Some(((gun_x + GUN_W / 2) as isize, (H - 18) as isize))
    } else {
        shot
    }
}

/// The targets and generator after the first `n` slots drift: a live target
/// moves by its speed and dies once more than 16 pixels off screen; an empty
/// slot respawns when a draw is a multiple of 40.
pub open spec fn drift(ts: Seq<Target>, rng: u32, n: int) -> (Seq<Target>, u32)
    decreases n,
{
    if n <= 0 {
        (ts, rng)
    } else {
        let (ts1, r) = drift(ts, rng, n - 1);
        let t = ts1[n - 1];
        if !t.alive {
            let r1 = xorshift(r);
            if r1 % 40 == 0 {
                let r2 = xorshift(r1);
                (ts1.update(n - 1, spawned(r2, n - 1)), r2)
            } else {
                (ts1, r1)
            }
        } else {
            let nx = t.x + t.vx;
            (ts1.update(n - 1, Target { x: nx as isize, y: t.y, vx: t.vx, plane: t.plane, alive: !(nx < -16 || nx > W + 16) }), r)
        }
    }
}

/// The shell at `(sx, sy)` is inside live target `t`'s box (11x5 plane, 11x4 boat).
pub open spec fn shell_hits(t: Target, sx: int, sy: int) -> bool {
    &&& t.alive
    &&& t.x <= sx < t.x + 11
    &&& t.y <= sy < t.y + (if t.plane { 5int } else { 4int })
}

/// The first slot at or after `k` whose target the shell at `(sx, sy)` hits.
pub open spec fn first_hit(ts: Seq<Target>, sx: int, sy: int, k: int) -> Option<int>
    decreases 6 - k,
{
    if k < 0 || k >= 6 {
        None
    } else if shell_hits(ts[k], sx, sy) {
        Some(k)
    } else {
        first_hit(ts, sx, sy, k + 1)
    }
}

/// What shooting target `t` scores: a plane 30 less an eighth of its
/// altitude, so higher planes are worth more; a boat 10.
pub open spec fn points(t: Target) -> int {
    if t.plane { 30 - t.y / 8 } else { 10 }
}

/// The shell climbs 5 pixels; above the top it is a miss, and inside a target
/// it kills the first such target. Gives the targets, the shell, the points
/// scored and whether the shell missed.
pub open spec fn shell_flight(ts: Seq<Target>, shot: Option<(isize, isize)>) -> (Seq<Target>, Option<(isize, isize)>, int, bool) {
    match shot {
        None => (ts, None, 0, false),
        Some((sx, sy)) => {
            let ny = sy - 5;
            if ny < 0 {
                (ts, None, 0, true)
            } else {
                match first_hit(ts, sx as int, ny, 0) {
                    Some(i) => (
                        ts.update(i, Target { alive: false, ..ts[i] }),
                        None,
                        points(ts[i]),
                        false,
                    ),
                    None => (ts, Some((sx, ny as isize)), 0, false),
                }
            }
        }
    }
}

/// One frame computes without overflow: the gun's move fits, and a hit's
/// points or a miss fit the counters.
pub open spec fn step_ok(s: AirSea, dx: isize, fire: bool) -> bool {
    !s.over ==> {
        let g = gun_after(s.gun_x as int, dx as int);
        let s1 = shell_after_fire(s.shot, fire, g);
        let (ts, r) = drift(s.targets@, s.rng, 6);
        let (ts2, sh2, pts, missed) = shell_flight(ts, s1);
        &&& isize::MIN <= dx * 4 <= isize::MAX
        &&& isize::MIN <= s.gun_x + dx * 4 <= isize::MAX
        &&& s.score + pts <= u32::MAX
        &&& missed ==> s.misses < u32::MAX
    }
}

/// `t` is the game `s` one frame on, with the gun moved `dx` steps, the fire
/// button `fire`, and `hit` reporting a kill. A finished game stays as it is.
pub open spec fn stepped(s: AirSea, t: AirSea, dx: isize, fire: bool, hit: bool) -> bool {
    if s.over {
        t == s && !hit
    } else {
        let g = gun_after(s.gun_x as int, dx as int);
        let s1 = shell_after_fire(s.shot, fire, g);
        let (ts, r) = drift(s.targets@, s.rng, 6);
        let (ts2, sh2, pts, missed) = shell_flight(ts, s1);
        &&& t.gun_x == g
        &&& t.shot == sh2
        &&& t.targets@ == ts2
        &&& t.rng == r
        &&& t.score == s.score + pts
        &&& t.misses == s.misses + if missed { 1int } else { 0int }
        &&& t.tick == s.tick.wrapping_add(1)
        &&& t.over == s.over
        &&& hit == (pts > 0)
    }
}

/// The pixels that the live targets among the first `n` slots light: an 11x5
/// plane or an 11x4 boat with its top left corner at the target's position.
pub open spec fn targets_cover(ts: Seq<Target>, n: int, a: int, b: int) -> bool
    decreases n,
{
    if n <= 0 {
        false
    } else {
        let t = ts[n - 1];
        targets_cover(ts, n - 1, a, b) || (t.alive && if t.plane {
            sprite_covers(PLANE@, 5, 11, t.x as int, t.y as int, 1, a, b)
        } else {
            sprite_covers(BOAT@, 4, 11, t.x as int, t.y as int, 1, a, b)
        })
    }
}

/// The pixels that the Air-Sea screen lights: the waterline, the live
/// targets, the gun (an 11x4 turret with a 2x4 barrel above its middle), the
/// shell as a 1x4 streak, and the title.
pub open spec fn airsea_lit(s: AirSea, a: int, b: int) -> bool {
    ||| b == H - 20
    ||| targets_cover(s.targets@, 6, a, b)
    ||| in_rect(s.gun_x as int, H - 8, s.gun_x + GUN_W, H - 4, a, b)
    ||| in_rect(s.gun_x + 5, H - 12, s.gun_x + 7, H - 8, a, b)
    ||| (s.shot matches Some((sx, sy)) && a == sx && sy <= b < sy + 4)
    ||| text_covers("AIR-SEA"@, 7, 2, 2, 1, a, b)
}

/// Lights the first `n` rows of an 11-wide sprite, unscaled, at `(x, y)`.
fn blit_small(fb: &mut [u32; 512], rows: &[u16], n: usize, x: isize, y: isize)
    requires
        n <= rows@.len(),
        n <= 8,
        x + 11 <= isize::MAX + 1,
        y + 8 <= isize::MAX + 1,
    ensures
        forall|a: int, b: int| on_screen(a, b) ==> #[trigger] is_lit(final(fb)@, a, b) == (
            is_lit(old(fb)@, a, b) || sprite_covers(rows@, n as int, 11, x as int, y as int, 1, a, b)),
{
    let ghost start = fb@;
    let mut ry: usize = 0;
    while ry < n
        invariant
            ry <= n,
            n <= 8,
            n <= rows@.len(),
            x + 11 <= isize::MAX + 1,
            y + 8 <= isize::MAX + 1,
            forall|a: int, b: int| on_screen(a, b) ==> #[trigger] is_lit(fb@, a, b) == (
                is_lit(start, a, b) || sprite_covers(rows@, ry as int, 11, x as int, y as int, 1, a, b)),
        decreases n - ry,
    {
        let ghost row_start = fb@;
        let row = rows[ry];
        let mut rx: usize = 0;
        while rx < 11
            invariant
                rx <= 11,
                ry < n,
                n <= 8,
                n <= rows@.len(),
                row == rows@[ry as int],
                x + 11 <= isize::MAX + 1,
                y + 8 <= isize::MAX + 1,
                forall|a: int, b: int| on_screen(a, b) ==> #[trigger] is_lit(fb@, a, b) == (
                    is_lit(row_start, a, b) || sprite_row_covers(row, 11, rx as int, x as int, y + ry as int, 1, a, b)),
            decreases 11 - rx,
        {
            let ghost prev = fb@;
            let on = (row >> (10 - rx) as u16) & 1 == 1;
            assert(on == crate::fb::row_bit_on(row, 11 - (rx + 1)));
            if on {
                px(fb, x + rx as isize, y + ry as isize, true);
            }
            assert forall|a: int, b: int| on_screen(a, b) implies #[trigger] is_lit(fb@, a, b) == (
                is_lit(row_start, a, b) || sprite_row_covers(row, 11, rx + 1, x as int, y + ry as int, 1, a, b)) by {
                assert(crate::fb::in_block(x + (rx + 1 - 1) * 1, y + ry, 1, a, b) == (a == x + rx && b == y + ry));
            }
            rx += 1;
        }
        ry += 1;
    }
}

/// The score never drops: a frame adds the points of what it hit, and it
/// reports a hit exactly when the score went up.
pub proof fn law_airsea_score_never_drops(s: AirSea, t: AirSea, dx: isize, fire: bool, hit: bool)
    requires
        s.wf(),
        stepped(s, t, dx, fire, hit),
    ensures
        t.score >= s.score,
        hit <==> t.score > s.score,
        t.over == s.over,
{
    if !s.over {
        let g = gun_after(s.gun_x as int, dx as int);
        let s1 = shell_after_fire(s.shot, fire, g);
        let (ts, r) = drift(s.targets@, s.rng, 6);
        lemma_drift_wf(s.targets@, s.rng, 6);
        let (ts2, sh2, pts, missed) = shell_flight(ts, s1);
        if let Some((sx, sy)) = s1 {
            if sy - 5 >= 0 {
                lemma_first_hit_in(ts, sx as int, sy - 5, 0);
            }
        }
    }
}

proof fn lemma_drift_wf(ts: Seq<Target>, rng: u32, n: int)
    requires
        ts.len() == 6,
        forall|i: int| 0 <= i < 6 ==> #[trigger] target_wf(ts[i]),
        0 <= n <= 6,
    ensures
        drift(ts, rng, n).0.len() == 6,
        forall|i: int| 0 <= i < 6 ==> #[trigger] target_wf(drift(ts, rng, n).0[i]),
    decreases n,
{
    if n > 0 {
        lemma_drift_wf(ts, rng, n - 1);
        let (ts1, r) = drift(ts, rng, n - 1);
        assert(target_wf(ts1[n - 1]));
        lemma_spawned_wf(xorshift(xorshift(r)), n - 1);
    }
}

proof fn lemma_first_hit_in(ts: Seq<Target>, sx: int, sy: int, k: int)
    requires
        ts.len() == 6,
        forall|i: int| 0 <= i < 6 ==> #[trigger] target_wf(ts[i]),
    ensures
        first_hit(ts, sx, sy, k) matches Some(i) ==> 0 <= i < 6 && 10 <= points(ts[i]) <= 30,
    decreases 6 - k,
{
    if 0 <= k < 6 {
        assert(target_wf(ts[k]));
        if !shell_hits(ts[k], sx, sy) {
            lemma_first_hit_in(ts, sx, sy, k + 1);
        }
    }
}

/// The random generator never gets stuck at zero: a nonzero state (every
/// game seeds it odd) steps to a nonzero state.
pub proof fn law_xorshift_nonzero(x: u32)
    requires
        x != 0,
    ensures
        xorshift(x) != 0,
{
    assert(x != 0 ==> (x ^ (x << 13u32)) != 0) by (bit_vector);
    let a = x ^ (x << 13u32);
    assert(a != 0 ==> (a ^ (a >> 17u32)) != 0) by (bit_vector);
    let b = a ^ (a >> 17u32);
    assert(b != 0 ==> (b ^ (b << 5u32)) != 0) by (bit_vector);
}

/// Planes are fast and boats slow: a new plane moves 2 to 4 pixels a frame
/// and a new boat 1. Planes are worth more than boats, and higher planes
/// more than lower ones.
pub proof fn law_planes_fast_and_valuable(r: u32, s: u32, i: int, j: int)
    ensures
        spawned(r, i).plane ==> 2 <= spawned(r, i).vx || spawned(r, i).vx <= -2,
        spawned(r, i).plane ==> -4 <= spawned(r, i).vx <= 4,
        !spawned(r, i).plane ==> spawned(r, i).vx == 1 || spawned(r, i).vx == -1,
        spawned(r, i).plane ==> points(spawned(r, i)) > 10,
        !spawned(r, i).plane ==> points(spawned(r, i)) == 10,
        spawned(r, i).plane && spawned(s, j).plane && spawned(r, i).y < spawned(s, j).y
            ==> points(spawned(r, i)) > points(spawned(s, j)),
{
}

/// A live target flies in its lane: within 16 pixels of the screen, a plane
/// at one of the three altitudes moving 2 to 4 pixels a frame, or a boat at
/// the waterline moving 1.
pub open spec fn in_lane(t: Target) -> bool {
    t.alive ==> {
        &&& -16 <= t.x <= W + 16
        &&& {
            ||| t.plane && (t.y == 14 || t.y == 30 || t.y == 46) && (2 <= t.vx <= 4 || -4 <= t.vx <= -2)
            ||| !t.plane && t.y == H - 26 && (t.vx == 1 || t.vx == -1)
        }
    }
}

/// Every target of the game flies in its lane.
pub open spec fn lanes_ok(ts: Seq<Target>) -> bool {
    forall|i: int| 0 <= i < 6 ==> #[trigger] in_lane(ts[i])
}

proof fn lemma_drift_lanes(ts: Seq<Target>, rng: u32, n: int)
    requires
        ts.len() == 6,
        lanes_ok(ts),
        0 <= n <= 6,
    ensures
        drift(ts, rng, n).0.len() == 6,
        lanes_ok(drift(ts, rng, n).0),
    decreases n,
{
    if n > 0 {
        lemma_drift_lanes(ts, rng, n - 1);
        let (ts1, r) = drift(ts, rng, n - 1);
        assert(in_lane(ts1[n - 1]));
        law_planes_fast_and_valuable(xorshift(xorshift(r)), 0, n - 1, 0);
        let (ts2, r2) = drift(ts, rng, n);
        assert forall|i: int| 0 <= i < 6 implies #[trigger] in_lane(ts2[i]) by {
            if i != n - 1 {
                assert(in_lane(ts1[i]));
            }
        }
    }
}

/// What a target in its lane is worth: 29, 27 and 25 for planes at the top,
/// middle and bottom altitudes, 10 for a boat.
pub proof fn law_lane_points(t: Target)
    requires
        t.alive,
        in_lane(t),
    ensures
        t.plane && t.y == 14 ==> points(t) == 29,
        t.plane && t.y == 30 ==> points(t) == 27,
        t.plane && t.y == 46 ==> points(t) == 25,
        !t.plane ==> points(t) == 10,
{
}

/// A new game's targets fly in their lanes.
pub proof fn law_new_airsea_lanes(s: AirSea, seed: u32)
    requires
        is_new_airsea(s, seed),
    ensures
        lanes_ok(s.targets@),
{
    assert forall|i: int| 0 <= i < 6 implies #[trigger] in_lane(s.targets@[i]) by {
        if i < 3 {
            law_planes_fast_and_valuable(xorshift(seed | 1), 0, 0, 0);
            law_planes_fast_and_valuable(xorshift(xorshift(seed | 1)), 0, 1, 0);
            law_planes_fast_and_valuable(xorshift(xorshift(xorshift(seed | 1))), 0, 2, 0);
        }
    }
}

/// Every frame keeps each target in its lane, and a frame never ends the
/// game: a finished game stays exactly as it was and reports no hit.
pub proof fn law_airsea_keeps_lanes(s: AirSea, t: AirSea, dx: isize, fire: bool, hit: bool)
    requires
        stepped(s, t, dx, fire, hit),
        lanes_ok(s.targets@),
    ensures
        lanes_ok(t.targets@),
        t.over == s.over,
        s.over ==> t == s && !hit,
{
    if !s.over {
        lemma_drift_lanes(s.targets@, s.rng, 6);
        let g = gun_after(s.gun_x as int, dx as int);
        let s1 = shell_after_fire(s.shot, fire, g);
        let (ts, r) = drift(s.targets@, s.rng, 6);
        let (ts2, sh2, pts, missed) = shell_flight(ts, s1);
        if let Some((sx, sy)) = s1 {
            if sy - 5 >= 0 {
                lemma_first_hit_range(ts, sx as int, sy - 5, 0);
            }
        }
        assert forall|i: int| 0 <= i < 6 implies #[trigger] in_lane(ts2[i]) by {
            assert(in_lane(ts[i]));
        }
    }
}

proof fn lemma_first_hit_range(ts: Seq<Target>, sx: int, sy: int, k: int)
    ensures
        first_hit(ts, sx, sy, k) matches Some(i) ==> 0 <= i < 6,
    decreases 6 - k,
{
    if 0 <= k < 6 && !shell_hits(ts[k], sx, sy) {
        lemma_first_hit_range(ts, sx, sy, k + 1);
    }
}

/// The Air-Sea screen shows each part of the game: the waterline 20 rows up
/// from the bottom, the 11x4 turret 8 rows up with its 2x4 barrel above its
/// middle, the shell as a 1x4 streak from its position, and each live
/// target's art (a plane or a boat) at its position.
pub proof fn law_airsea_screen_parts(s: AirSea, a: int, b: int)
    ensures
        b == 108 ==> airsea_lit(s, a, b),
        s.gun_x <= a < s.gun_x + 11 && 120 <= b < 124 ==> airsea_lit(s, a, b),
        s.gun_x + 5 <= a < s.gun_x + 7 && 116 <= b < 120 ==> airsea_lit(s, a, b),
        s.shot matches Some((sx, sy)) && a == sx && sy <= b < sy + 4 ==> airsea_lit(s, a, b),
        forall|i: int| 0 <= i < 6 && (#[trigger] s.targets@[i]).alive && (if s.targets@[i].plane {
            sprite_covers(PLANE@, 5, 11, s.targets@[i].x as int, s.targets@[i].y as int, 1, a, b)
        } else {
            sprite_covers(BOAT@, 4, 11, s.targets@[i].x as int, s.targets@[i].y as int, 1, a, b)
        }) ==> airsea_lit(s, a, b),
{
    assert forall|i: int| 0 <= i < 6 && (#[trigger] s.targets@[i]).alive && (if s.targets@[i].plane {
        sprite_covers(PLANE@, 5, 11, s.targets@[i].x as int, s.targets@[i].y as int, 1, a, b)
    } else {
        sprite_covers(BOAT@, 4, 11, s.targets@[i].x as int, s.targets@[i].y as int, 1, a, b)
    }) implies airsea_lit(s, a, b) by {
        lemma_target_lit(s.targets@, 6, i, a, b);
    }
}

proof fn lemma_target_lit(ts: Seq<Target>, n: int, i: int, a: int, b: int)
    requires
        0 <= i < n,
        ts[i].alive,
        if ts[i].plane {
            sprite_covers(PLANE@, 5, 11, ts[i].x as int, ts[i].y as int, 1, a, b)
        } else {
            sprite_covers(BOAT@, 4, 11, ts[i].x as int, ts[i].y as int, 1, a, b)
        },
    ensures
        targets_cover(ts, n, a, b),
    decreases n,
{
    if i < n - 1 {
        lemma_target_lit(ts, n - 1, i, a, b);
    }
}

proof fn lemma_drift_moves(ts: Seq<Target>, rng: u32, n: int)
    requires
        ts.len() == 6,
        0 <= n <= 6,
    ensures
        drift(ts, rng, n).0.len() == 6,
        forall|j: int| n <= j < 6 ==> #[trigger] drift(ts, rng, n).0[j] == ts[j],
        forall|j: int| 0 <= j < n && ts[j].alive ==> #[trigger] drift(ts, rng, n).0[j] == (Target {
            x: (ts[j].x + ts[j].vx) as isize,
            y: ts[j].y,
            vx: ts[j].vx,
            plane: ts[j].plane,
            alive: -16 <= ts[j].x + ts[j].vx <= W + 16,
        }),
    decreases n,
{
    if n > 0 {
        lemma_drift_moves(ts, rng, n - 1);
    }
}

/// Every live target drifts by its speed each frame, keeping its altitude,
/// speed and kind; it is gone once more than 16 pixels off screen, and stays
/// on otherwise unless the frame's shell hit something.
pub proof fn law_targets_drift(s: AirSea, t: AirSea, dx: isize, fire: bool, hit: bool, i: int)
    requires
        s.wf(),
        stepped(s, t, dx, fire, hit),
        !s.over,
        0 <= i < 6,
        s.targets@[i].alive,
    ensures
        t.targets@[i].x == (s.targets@[i].x + s.targets@[i].vx) as isize,
        t.targets@[i].y == s.targets@[i].y,
        t.targets@[i].vx == s.targets@[i].vx,
        t.targets@[i].plane == s.targets@[i].plane,
        t.targets@[i].alive ==> -16 <= s.targets@[i].x + s.targets@[i].vx <= 144,
        !hit && -16 <= s.targets@[i].x + s.targets@[i].vx <= 144 ==> t.targets@[i].alive,
{
    lemma_drift_moves(s.targets@, s.rng, 6);
    let g = gun_after(s.gun_x as int, dx as int);
    let s1 = shell_after_fire(s.shot, fire, g);
    let (ts, r) = drift(s.targets@, s.rng, 6);
    lemma_drift_wf(s.targets@, s.rng, 6);
    if let Some((sx, sy)) = s1 {
        if sy - 5 >= 0 {
            lemma_first_hit_range(ts, sx as int, sy - 5, 0);
            lemma_first_hit_in(ts, sx as int, sy - 5, 0);
        }
    }
    assert(ts[i] == drift(s.targets@, s.rng, 6).0[i]);
}

/// What a frame does to the gun and the fire button: the gun moves 4 pixels
/// per step of `dx`, kept between 2 and 115; with no shell in flight, fire
/// launches one from the gun's middle at row 110 that climbs 5 pixels at once
/// (unless it hits straight away), and without fire nothing flies, scores or
/// misses.
pub proof fn law_gun_and_fire(s: AirSea, t: AirSea, dx: isize, fire: bool, hit: bool)
    requires
        s.wf(),
        stepped(s, t, dx, fire, hit),
        !s.over,
    ensures
        t.gun_x == if s.gun_x + 4 * dx < 2 { 2 } else if s.gun_x + 4 * dx > 115 { 115 } else { s.gun_x + 4 * dx },
        t.tick == s.tick.wrapping_add(1),
        s.shot is None && fire && !hit ==> t.shot == Some(((t.gun_x + 5) as isize, 105isize)),
        s.shot is None && !fire ==> !hit && t.shot is None && t.score == s.score && t.misses == s.misses,
{
    let (ts, r) = drift(s.targets@, s.rng, 6);
    lemma_drift_wf(s.targets@, s.rng, 6);
    let g = gun_after(s.gun_x as int, dx as int);
    if let Some((sx, sy)) = shell_after_fire(s.shot, fire, g) {
        if sy - 5 >= 0 {
            lemma_first_hit_in(ts, sx as int, sy - 5, 0);
        }
    }
}

/// A shell hits a live target exactly when it lies in the target's art: 11
/// pixels wide, and as many rows as the art has, 5 for a plane and 4 for a
/// boat.
pub proof fn law_shell_hits_the_art(t: Target, sx: int, sy: int)
    ensures
        PLANE@.len() == 5,
        BOAT@.len() == 4,
        shell_hits(t, sx, sy) == (t.alive && t.x <= sx < t.x + 11 && t.y <= sy < t.y + (if t.plane {
            PLANE@.len() as int
        } else {
            BOAT@.len() as int
        })),
{
}

/// A frame's shell climbs 5 pixels: a shell that hits nothing flies on 5
/// higher, or, past the top, is gone and counts a miss; a hit takes the
/// shell and scores 10 to 30.
pub proof fn law_shell_climbs(s: AirSea, t: AirSea, dx: isize, fire: bool, hit: bool)
    requires
        s.wf(),
        stepped(s, t, dx, fire, hit),
        !s.over,
        s.shot is Some,
    ensures
        !hit && s.shot.unwrap().1 >= 5 ==> t.shot == Some((s.shot.unwrap().0, (s.shot.unwrap().1 - 5) as isize))
            && t.misses == s.misses,
        s.shot.unwrap().1 < 5 ==> !hit && t.shot is None && t.misses == s.misses + 1,
        hit ==> t.shot is None && t.misses == s.misses && 10 <= t.score - s.score <= 30,
{
    let (ts, r) = drift(s.targets@, s.rng, 6);
    lemma_drift_wf(s.targets@, s.rng, 6);
    let (sx, sy) = s.shot.unwrap();
    if sy - 5 >= 0 {
        lemma_first_hit_in(ts, sx as int, sy - 5, 0);
    }
}

/// One shell in flight at a time: while a shell flies, the fire button
/// launches nothing; the shell climbs 5 pixels or is gone.
pub proof fn law_one_shell(s: AirSea, t: AirSea, dx: isize, fire: bool, hit: bool)
    requires
        stepped(s, t, dx, fire, hit),
        !s.over,
        s.shot is Some,
    ensures
        t.shot is None || t.shot == Some((s.shot.unwrap().0, (s.shot.unwrap().1 - 5) as isize)),
{
}

/// `s` is the game that `AirSea::new` deals from `seed`: the gun in the
/// middle, no shell, nothing scored or missed, three targets spawned into
/// slots 0 to 2 from the first three draws of a generator seeded `seed | 1`,
/// and the other slots empty.
pub open spec fn is_new_airsea(s: AirSea, seed: u32) -> bool {
    &&& s.gun_x == W / 2 - GUN_W / 2
    &&& s.shot is None
    &&& s.score == 0
    &&& s.misses == 0
    &&& !s.over
    &&& s.tick == 0
    &&& s.rng == xorshift(xorshift(xorshift(seed | 1)))
    &&& s.targets@[0] == spawned(xorshift(seed | 1), 0)
    &&& s.targets@[1] == spawned(xorshift(xorshift(seed | 1)), 1)
    &&& s.targets@[2] == spawned(xorshift(xorshift(xorshift(seed | 1))), 2)
    &&& forall|i: int| 3 <= i < 6 ==> #[trigger] s.targets@[i] == empty_target()
}

impl AirSea {
    /// What every game state keeps: the gun on screen, the shell (if any)
    /// between the muzzle and the top, every target well-formed. `new`
    /// makes such a state and `step` keeps it, and a game is only ever made
    /// by `new`: its generator state is the game's own. Outside it the
    /// frame's arithmetic is not defined: a target far off screen overflows
    /// its move, and one above the top or far below it underflows the
    /// `30 - y / 8` points of a plane.
    pub open spec fn wf(&self) -> bool {
        &&& 2 <= self.gun_x <= W - GUN_W - 2
        &&& self.shot matches Some((sx, sy)) ==> 7 <= sx <= 120 && 0 <= sy <= 110
        &&& forall|i: int| 0 <= i < 6 ==> #[trigger] target_wf(self.targets@[i])
    }

    pub fn new(seed: u32) -> (s: Self)
        ensures
            s.wf(),
            is_new_airsea(s, seed),
    {
        let mut s = AirSea {
            gun_x: W / 2 - GUN_W / 2,
            shot: None,
            targets: [Target { x: 0, y: 0, vx: 0, plane: true, alive: false }; MAX_TARGETS],
            score: 0,
            misses: 0,
            over: false,
            rng: seed | 1,
            tick: 0,
        };
        s.spawn(0);
        s.spawn(1);
        s.spawn(2);
        proof {
            lemma_spawned_wf(xorshift(seed | 1), 0);
            lemma_spawned_wf(xorshift(xorshift(seed | 1)), 1);
            lemma_spawned_wf(xorshift(xorshift(xorshift(seed | 1))), 2);
        }
        s
    }

    fn rand(&mut self) -> (r: u32)
        ensures
            r == xorshift(old(self).rng),
            final(self).rng == r,
            final(self).gun_x == old(self).gun_x,
            final(self).shot == old(self).shot,
            final(self).targets == old(self).targets,
            final(self).score == old(self).score,
            final(self).misses == old(self).misses,
            final(self).over == old(self).over,
            final(self).tick == old(self).tick,
    {
        self.rng ^= self.rng << 13;
        self.rng ^= self.rng >> 17;
        self.rng ^= self.rng << 5;
        self.rng
    }

    fn spawn(&mut self, i: usize)
        requires
            i < 6,
        ensures
            final(self).rng == xorshift(old(self).rng),
            final(self).targets@ == old(self).targets@.update(i as int, spawned(final(self).rng, i as int)),
            final(self).gun_x == old(self).gun_x,
            final(self).shot == old(self).shot,
            final(self).score == old(self).score,
            final(self).misses == old(self).misses,
            final(self).over == old(self).over,
            final(self).tick == old(self).tick,
    {
        let r = self.rand();
        let plane = (r & 1) == 0 || i < 2; // bias toward planes
        let lane = (r >> 4) % 3;
        let y = if plane { 14 + lane as isize * 16 } else { H - 26 };
        let dir: isize = if (r >> 8) & 1 == 0 { 1 } else { -1 };
        let speed = if plane { 2 + ((r >> 12) % 3) as isize } else { 1 };
        assert(dir * speed == if dir > 0 { speed as int } else { -speed }) by (nonlinear_arith)
            requires
                dir == 1 || dir == -1,
        ;
        self.targets[i] = Target {
            x: if dir > 0 { -12 } else { W + 12 },
            y,
            vx: dir * speed,
            plane,
            alive: true,
        };
    }

    /// Advances one frame: the gun moves `dx` steps of 4 and may fire, the
    /// targets drift and respawn, and the shell climbs and may hit. Returns
    /// true if something was hit this frame (for the LED flash). A finished
    /// game does not change.
    pub fn step(&mut self, dx: isize, fire: bool) -> (hit: bool)
        requires
            old(self).wf(),
            step_ok(*old(self), dx, fire),
        ensures
            final(self).wf(),
            stepped(*old(self), *final(self), dx, fire, hit),
    {
        if self.over {
            return false;
        }
        let ghost s0 = *self;
        self.tick = self.tick.wrapping_add(1);
        let mut hit = false;

        self.gun_x = (self.gun_x + dx * 4).max(2).min(W - GUN_W - 2);
        if fire && self.shot.is_none() {
            self.shot = Some((self.gun_x + GUN_W / 2, H - 18));
        }
        let ghost s1 = *self;
        assert(s1.shot matches Some((a, b)) ==> 7 <= a <= 120 && 0 <= b <= 110);
        assert(2 <= s1.gun_x <= W - GUN_W - 2);

        // targets drift; respawn when they leave the screen
        let mut i: usize = 0;
        while i < MAX_TARGETS
            invariant
                i <= 6,
                (self.targets@, self.rng) == drift(s1.targets@, s1.rng, i as int),
                forall|j: int| 0 <= j < 6 ==> #[trigger] target_wf(self.targets@[j]),
                self.gun_x == s1.gun_x,
                self.shot == s1.shot,
                self.score == s1.score,
                self.misses == s1.misses,
                self.over == s1.over,
                self.tick == s1.tick,
            decreases 6 - i,
        {
            if !self.targets[i].alive {
                if self.rand() % 40 == 0 {
                    self.spawn(i);
                    proof { lemma_spawned_wf(self.rng, i as int); }
                }
                i += 1;
                continue;
            }
            let mut t = self.targets[i];
            assert(target_wf(self.targets@[i as int]));
            t.x += t.vx;
            if t.x < -16 || t.x > W + 16 {
                t.alive = false;
            }
            self.targets[i] = t;
            i += 1;
        }
        let ghost s2 = *self;

        // shell travels up
        if let Some((sx, sy)) = self.shot {
            let ny = sy - 5;
            if ny < 0 {
                self.shot = None;
                self.misses += 1;
            } else {
                self.shot = Some((sx, ny));
                let mut i: usize = 0;
                while i < MAX_TARGETS && !hit
                    invariant
                        i <= 6,
                        s2.shot == Some((sx, sy)),
                        s2.shot == s1.shot,
                        7 <= sx <= 120,
                        sy <= 110,
                        ny == sy - 5,
                        0 <= ny,
                        step_ok(s0, dx, fire),
                        s2.score == s0.score,
                        (s2.targets@, s2.rng) == drift(s1.targets@, s1.rng, 6),
                        s1.shot == shell_after_fire(s0.shot, fire, s1.gun_x as int),
                        s1.gun_x == gun_after(s0.gun_x as int, dx as int),
                        s1.targets@ == s0.targets@,
                        s1.rng == s0.rng,
                        !s0.over,
                        forall|j: int| 0 <= j < 6 ==> #[trigger] target_wf(s2.targets@[j]),
                        forall|j: int| 0 <= j < 6 ==> #[trigger] target_wf(self.targets@[j]),
                        2 <= self.gun_x <= W - GUN_W - 2,
                        !hit ==> first_hit(s2.targets@, sx as int, ny as int, 0) == first_hit(
                            s2.targets@, sx as int, ny as int, i as int),
                        !hit ==> self.targets@ == s2.targets@ && self.score == s2.score
                            && self.shot == Some((sx, ny)),
                        hit ==> ({
                            let (ts2, sh2, pts, missed) = shell_flight(s2.targets@, s2.shot);
                            self.targets@ == ts2 && self.shot == sh2 && self.score == s2.score + pts
                                && pts > 0
                        }),
                        self.gun_x == s2.gun_x,
                        self.misses == s2.misses,
                        self.over == s2.over,
                        self.tick == s2.tick,
                        self.rng == s2.rng,
                    decreases 6 - i,
                {
                    let t = self.targets[i];
                    assert(target_wf(self.targets@[i as int]));
                    if t.alive {
                        let (tw, th) = if t.plane { (11isize, 5isize) } else { (11isize, 4isize) };
                        if sx >= t.x && sx < t.x + tw && ny >= t.y && ny < t.y + th {
                            let mut dead = t;
                            dead.alive = false;
                            self.targets[i] = dead;
                            self.shot = None;
                            // higher planes are worth more; boats are the easy points
                            self.score += if t.plane { 30 - (t.y as u32 / 8) } else { 10 };
                            hit = true;
                        }
                    }
                    i += 1;
                }
            }
        }
        hit
    }

    pub fn render(&self, fb: &mut [u32; 512])
        requires
            self.wf(),
        ensures
            forall|a: int, b: int| on_screen(a, b) ==> #[trigger] is_lit(final(fb)@, a, b) == airsea_lit(*self, a, b),
    {
        proof { reveal_strlit("AIR-SEA"); }
        clear(fb);

        // waterline
        let mut x: isize = 0;
        while x < W
            invariant
                0 <= x <= W,
                forall|a: int, b: int| on_screen(a, b) ==> #[trigger] is_lit(fb@, a, b) == (b == H - 20 && 0 <= a < x),
            decreases W - x,
        {
            px(fb, x, H - 20, true);
            x += 1;
        }

        let mut i: usize = 0;
        while i < MAX_TARGETS
            invariant
                i <= 6,
                self.wf(),
                forall|a: int, b: int| on_screen(a, b) ==> #[trigger] is_lit(fb@, a, b) == (
                    (b == H - 20) || targets_cover(self.targets@, i as int, a, b)),
            decreases 6 - i,
        {
            let t = self.targets[i];
            assert(target_wf(self.targets@[i as int]));
            if t.alive {
                if t.plane {
                    blit_small(fb, &PLANE, 5, t.x, t.y);
                } else {
                    blit_small(fb, &BOAT, 4, t.x, t.y);
                }
            }
            i += 1;
        }

        // gun: a squat turret
        let ghost before_gun = fb@;
        let mut x: isize = 0;
        while x < GUN_W
            invariant
                0 <= x <= GUN_W,
                self.wf(),
                forall|a: int, b: int| on_screen(a, b) ==> #[trigger] is_lit(fb@, a, b) == (
                    is_lit(before_gun, a, b) || in_rect(self.gun_x as int, H - 8, self.gun_x + x, H - 4, a, b)),
            decreases GUN_W - x,
        {
            let ghost col_start = fb@;
            let mut y: isize = 0;
            while y < 4
                invariant
                    0 <= x < GUN_W,
                    0 <= y <= 4,
                    self.wf(),
                    forall|a: int, b: int| on_screen(a, b) ==> #[trigger] is_lit(fb@, a, b) == (
                        is_lit(col_start, a, b) || (a == self.gun_x + x && H - 8 <= b < H - 8 + y)),
                decreases 4 - y,
            {
                px(fb, self.gun_x + x, H - 8 + y, true);
                y += 1;
            }
            x += 1;
        }
        let ghost before_barrel = fb@;
        let mut y: isize = 0;
        while y < 4
            invariant
                0 <= y <= 4,
                self.wf(),
                forall|a: int, b: int| on_screen(a, b) ==> #[trigger] is_lit(fb@, a, b) == (
                    is_lit(before_barrel, a, b) || in_rect(self.gun_x + 5, H - 12, self.gun_x + 7, H - 12 + y, a, b)),
            decreases 4 - y,
        {
            px(fb, self.gun_x + GUN_W / 2, H - 12 + y, true);
            px(fb, self.gun_x + GUN_W / 2 + 1, H - 12 + y, true);
            y += 1;
        }

        let ghost before_shot = fb@;
        if let Some((sx, sy)) = self.shot {
            let mut i: isize = 0;
            while i < 4
                invariant
                    0 <= i <= 4,
                    0 <= sy <= 110,
                    forall|a: int, b: int| on_screen(a, b) ==> #[trigger] is_lit(fb@, a, b) == (
                        is_lit(before_shot, a, b) || (a == sx && sy <= b < sy + i)),
                decreases 4 - i,
            {
                px(fb, sx, sy + i, true);
                i += 1;
            }
        }

        text(fb, "AIR-SEA", 2, 2, 1);
    }
}

} // verus!
