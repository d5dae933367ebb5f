use dc34_badge::invaders::Game;

fn alive_count(g: &Game) -> usize {
    g.alive.iter().map(|r| r.iter().filter(|a| **a).count()).sum()
}

#[test]
fn standalone_new_game() {
    let g = Game::new(7);
    assert_eq!((g.fleet_x, g.fleet_y, g.dir, g.player_x), (6, 30, 1, 51));
    assert_eq!(g.shot, None);
    assert_eq!(g.bomb, None);
    assert_eq!(g.score, 0);
    assert!(!g.over);
    assert!(!g.killed_this_frame);
    assert_eq!(g.tick, 0);
    assert_eq!(g.rng, 7);
    assert_eq!(alive_count(&g), 15);
    assert_eq!(Game::new(8).rng, 9);
}

#[test]
fn standalone_eighty_frames_of_fire() {
    let mut g = Game::new(7);
    let mut kills = Vec::new();
    let mut first_bomb = None;
    for i in 0..80 {
        g.update(false, false, true);
        if g.killed_this_frame {
            kills.push(i);
        }
        if first_bomb.is_none() {
            if let Some(b) = g.bomb {
                first_bomb = Some((i, b));
            }
        }
    }
    assert_eq!(kills, vec![5, 14, 27]);
    assert_eq!(first_bomb, Some((12, (42, 67))));
    assert_eq!((g.fleet_x, g.fleet_y, g.dir, g.player_x), (6, 36, -1, 51));
    assert_eq!(g.shot, Some((64, 68)));
    assert_eq!(g.bomb, None);
    assert_eq!(g.score, 60);
    assert!(!g.over);
    assert_eq!(g.tick, 80);
    assert_eq!(g.rng, 2928686826);
    assert_eq!(alive_count(&g), 12);
}

#[test]
fn standalone_player_moves_and_clamps() {
    let mut g = Game::new(1);
    g.update(true, false, false);
    assert_eq!(g.player_x, 48);
    g.update(false, true, false);
    assert_eq!(g.player_x, 51);
    for _ in 0..40 {
        g.update(true, false, false);
    }
    assert_eq!(g.player_x, 2);
}

#[test]
fn standalone_score_counts_kills() {
    let mut g = Game::new(3);
    for i in 0..500 {
        if g.over {
            break;
        }
        let before = g.score;
        let left = alive_count(&g);
        g.update(i % 5 == 0, i % 5 == 2, true);
        if g.killed_this_frame {
            assert!([10, 20, 30].contains(&(g.score - before)));
            assert_eq!(alive_count(&g), left - 1);
        } else {
            assert_eq!(g.score, before);
            assert_eq!(alive_count(&g), left);
        }
    }
}

#[test]
fn standalone_over_game_ignores_input() {
    let mut g = Game::new(1);
    g.over = true;
    g.update(true, false, true);
    assert_eq!(g.tick, 0);
    assert_eq!(g.player_x, 51);
    assert_eq!(g.shot, None);
}

#[test]
fn standalone_render_points() {
    let g = Game::new(7);
    let pts = g.render_points();
    // the ground line
    for x in 0..128 {
        assert!(pts.contains(&(x, 127)));
    }
    // the cannon tip, 2x scaled, at the foot
    assert!(pts.contains(&(63, 110)));
    assert!(pts.contains(&(64, 111)));
    assert!(!pts.contains(&(61, 110)));
    // the first squid's top row
    assert!(pts.contains(&(12, 30)));
    assert!(!pts.contains(&(11, 30)));
    // everything is on the panel
    assert!(pts.iter().all(|p| 0 <= p.0 && p.0 < 128 && 0 <= p.1 && p.1 < 128));
}
