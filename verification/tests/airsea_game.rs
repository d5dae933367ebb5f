use dc34_badge::airsea::{AirSea, BOAT, PLANE};

fn lit(fb: &[u32; 512], x: usize, y: usize) -> bool {
    let bn = x + 128 * y;
    fb[bn >> 5] & (1u32 << (bn & 31)) == 0
}

#[test]
fn airsea_new_deals_three_targets() {
    let s = AirSea::new(0);
    assert_eq!(s.gun_x, 59);
    assert_eq!(s.shot, None);
    assert_eq!(s.score, 0);
    assert_eq!(s.misses, 0);
    assert!(!s.over);
    assert_eq!(s.tick, 0);
    assert_eq!(s.rng, 2647435461);
    let t = s.targets;
    assert_eq!((t[0].x, t[0].y, t[0].vx, t[0].plane, t[0].alive), (-12, 46, 2, true, true));
    assert_eq!((t[1].x, t[1].y, t[1].vx, t[1].plane, t[1].alive), (-12, 14, 2, true, true));
    assert_eq!((t[2].x, t[2].y, t[2].vx, t[2].plane, t[2].alive), (-12, 102, 1, false, true));
    for i in 3..6 {
        assert_eq!((t[i].x, t[i].y, t[i].vx, t[i].plane, t[i].alive), (0, 0, 0, true, false));
    }
}

#[test]
fn airsea_forty_frames_of_fire() {
    let mut s = AirSea::new(0);
    let mut first_hit = None;
    for i in 0..40 {
        if s.step(0, true) && first_hit.is_none() {
            first_hit = Some(i);
        }
    }
    assert_eq!(first_hit, Some(34));
    assert_eq!(s.gun_x, 59);
    assert_eq!(s.shot, Some((64, 85)));
    assert_eq!(s.score, 25);
    assert_eq!(s.misses, 1);
    assert_eq!(s.tick, 40);
    assert_eq!(s.rng, 1473112735);
}

#[test]
fn airsea_score_never_drops_and_hits_score() {
    let mut s = AirSea::new(99);
    for i in 0..300 {
        let before = s.score;
        let dx = if i % 7 < 3 { -1 } else if i % 7 < 5 { 1 } else { 0 };
        let hit = s.step(dx, i % 2 == 0);
        assert!(s.score >= before);
        assert_eq!(hit, s.score > before);
    }
}

#[test]
fn airsea_gun_is_clamped() {
    let mut s = AirSea::new(5);
    for _ in 0..40 {
        s.step(-1, false);
    }
    assert_eq!(s.gun_x, 2);
    for _ in 0..40 {
        s.step(1, false);
    }
    assert_eq!(s.gun_x, 128 - 11 - 2);
}

#[test]
fn airsea_shot_leaves_from_the_barrel() {
    let mut s = AirSea::new(0);
    s.step(0, true);
    // fired at (gun_x + 5, H - 18), then climbed 5 in the same frame
    assert_eq!(s.shot, Some((64, 105)));
    // a second press while a shot flies does nothing
    s.step(0, true);
    assert_eq!(s.shot, Some((64, 100)));
}

#[test]
fn airsea_render_draws_scene() {
    let s = AirSea::new(0);
    let mut fb = [0u32; 512];
    s.render(&mut fb);
    // the waterline
    assert!(lit(&fb, 0, 108));
    assert!(lit(&fb, 127, 108));
    // the turret, 11 wide and 4 high
    assert!(lit(&fb, 59, 120));
    assert!(lit(&fb, 69, 123));
    assert!(!lit(&fb, 58, 120));
    assert!(!lit(&fb, 70, 120));
    // the barrel
    assert!(lit(&fb, 64, 116));
    assert!(lit(&fb, 65, 119));
    assert!(!lit(&fb, 63, 116));
    // the sky is otherwise dark away from the title and targets
    assert!(!lit(&fb, 100, 60));
    assert_eq!(PLANE.len(), 5);
    assert_eq!(BOAT.len(), 4);
}

#[test]
fn airsea_planes_fast_boats_slow() {
    for seed in 0..200u32 {
        let s = AirSea::new(seed);
        for t in s.targets.iter().filter(|t| t.alive) {
            if t.plane {
                assert!(2 <= t.vx.abs() && t.vx.abs() <= 4);
                assert!(t.y == 14 || t.y == 30 || t.y == 46);
            } else {
                assert_eq!(t.vx.abs(), 1);
                assert_eq!(t.y, 128 - 26);
            }
        }
        // slots 0 and 1 always start with planes
        assert!(s.targets[0].plane && s.targets[1].plane);
    }
}

#[test]
fn airsea_targets_keep_their_lanes() {
    let mut s = AirSea::new(12);
    for i in 0..2000 {
        let hit = s.step(if i % 9 < 4 { 1 } else { -1 }, i % 3 == 0);
        assert!(!s.over || !hit);
        assert!(!s.over);
        for t in s.targets.iter().filter(|t| t.alive) {
            assert!(-16 <= t.x && t.x <= 144);
            if t.plane {
                assert!([14, 30, 46].contains(&t.y));
                assert!(2 <= t.vx.abs() && t.vx.abs() <= 4);
            } else {
                assert_eq!(t.y, 102);
                assert_eq!(t.vx.abs(), 1);
            }
        }
    }
}
