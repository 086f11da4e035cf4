use chain_shooter::field::Field;
use chain_shooter::geometry::{aim_step, extrude, overlap};
use chain_shooter::object::{
    Command, Direction, ExtendDirection, Position, State, MAXIMUM_BULLET,
};
use chain_shooter::schedule::{AppearLocation, ConfigLoadError, Schedule};

fn schedule_of(text: &str) -> Schedule {
    let data: Vec<u8> = text.as_bytes().to_vec();
    AppearLocation::read_list(&data).expect("schedule must parse")
}

fn empty_schedule() -> Schedule {
    Schedule::from_entries(Vec::new()).expect("empty schedule")
}

#[test]
fn initial_field_layout() {
    let f = Field::new(400, 400, &empty_schedule());
    assert_eq!(f.width, 400_000);
    assert_eq!(f.height, 400_000);
    assert_eq!(f.player.pos, Position { x: 70_000, y: 70_000 });
    assert_eq!(f.player.remain_bullet, MAXIMUM_BULLET);
    assert_eq!(f.score, 0);
    assert!(!f.game_over);
    assert!(!f.game_end);
    assert!(f.enemy_list.is_empty());
    assert!(f.bullet_list.is_empty());
}

#[test]
fn bullet_count_stays_in_range() {
    // 0 <= remain_bullet <= MAXIMUM_BULLET across shots and regen.
    let sched = empty_schedule();
    let mut f = Field::new(400, 400, &sched);
    for _ in 0..7 {
        f.shot(Direction::Right);
        assert!(f.player.remain_bullet <= MAXIMUM_BULLET);
    }
    assert_eq!(f.player.remain_bullet, 0);
    // only MAXIMUM_BULLET bullets actually left the magazine
    assert_eq!(f.bullet_list.len(), MAXIMUM_BULLET);
    for _ in 0..200 {
        f.update();
        assert!(f.player.remain_bullet <= MAXIMUM_BULLET);
    }
    assert_eq!(f.player.remain_bullet, MAXIMUM_BULLET);
}

#[test]
fn bullet_regen_after_thirty_ticks() {
    let sched = empty_schedule();
    let mut f = Field::new(400, 400, &sched);
    for _ in 0..5 {
        f.shot(Direction::Up);
    }
    assert_eq!(f.player.remain_bullet, 0);
    // the timer starts at 0, so the first update already replenishes one
    f.update();
    assert_eq!(f.player.remain_bullet, 1);
    // the next replenishment takes a full timer round: thirty ticks
    // counting the timer down and one more replenishing
    for _ in 0..30 {
        f.update();
        assert_eq!(f.player.remain_bullet, 1);
    }
    f.update();
    assert_eq!(f.player.remain_bullet, 2);
}

#[test]
fn bullet_kill_awards_killing_point() {
    // a bullet overlapping an enemy removes both by tick end, adds
    // exactly KILLING_POINT to the score and leaves a chain-1 explosion.
    // One enemy spawns at (150, 70) px, straight to the player's right.
    let sched = schedule_of("0,7.5,3.5\n");
    let mut f = Field::new(400, 400, &sched);
    f.update(); // spawns the enemy
    assert_eq!(f.enemy_list.len(), 1);
    f.shot(Direction::Right);
    let mut killed_at = None;
    for tick in 0..40 {
        f.update();
        if f.enemy_list.is_empty() {
            killed_at = Some(tick);
            break;
        }
    }
    assert!(killed_at.is_some(), "the bullet must reach the enemy");
    assert_eq!(f.score, 100);
    assert!(f.bullet_list.is_empty(), "the striking bullet dies too");
    assert_eq!(f.explosion_list.len(), 1);
    assert_eq!(f.explosion_list[0].chain, 1);
}

#[test]
fn explosion_chain_kill_scores_double() {
    // an enemy overlapping a chain-1 explosion yields a chain-2
    // explosion and KILLING_POINT * 2 more score.
    // First enemy at (150, 70) px; second at (150, 130) px, out of the
    // bullet's path but inside the blast radius once it grows.
    let sched = schedule_of("0,7.5,3.5\n0,7.5,6.5\n");
    let mut f = Field::new(400, 400, &sched);
    f.update();
    assert_eq!(f.enemy_list.len(), 2);
    f.shot(Direction::Right);
    let mut saw_chain_two = false;
    for _ in 0..80 {
        f.update();
        if f.explosion_list.iter().any(|x| x.chain == 2) {
            saw_chain_two = true;
        }
        if f.game_end {
            break;
        }
    }
    assert!(saw_chain_two, "the second kill must come from the explosion");
    assert_eq!(f.score, 100 + 200);
}

#[test]
fn explosion_radius_grows_then_culled() {
    // radius grows by the fixed increment each tick; at the cap it
    // survives, past the cap it is culled on the next evaluation.
    let sched = schedule_of("0,7.5,3.5\n");
    let mut f = Field::new(400, 400, &sched);
    f.update();
    f.shot(Direction::Right);
    let mut born_tick = None;
    for tick in 0..40 {
        f.update();
        if !f.explosion_list.is_empty() {
            born_tick = Some(tick);
            break;
        }
    }
    assert!(born_tick.is_some(), "an explosion must appear");
    // a newborn explosion has already expanded once
    assert_eq!(f.explosion_list[0].radius, 2_000);
    let mut last_radius = f.explosion_list[0].radius;
    let mut lifetime = 1;
    loop {
        f.update();
        if f.explosion_list.is_empty() {
            break;
        }
        assert_eq!(f.explosion_list[0].radius, last_radius + 2_000);
        last_radius = f.explosion_list[0].radius;
        lifetime += 1;
        assert!(lifetime < 50);
    }
    // radii 2000, 4000, ..., 40000 all survive; 42000 is culled
    assert_eq!(last_radius, 40_000);
    assert_eq!(lifetime, 20);
}

#[test]
fn extrusion_keeps_player_on_field() {
    // after extrusion the player satisfies R <= x <= width - R.
    let sched = empty_schedule();
    let mut f = Field::new(400, 400, &sched);
    f.player_move(ExtendDirection::Left);
    for _ in 0..30 {
        f.update();
        assert!(20_000 <= f.player.pos.x && f.player.pos.x <= 380_000);
        assert!(20_000 <= f.player.pos.y && f.player.pos.y <= 380_000);
    }
    assert_eq!(f.player.pos.x, 20_000);
    let p = extrude(Position { x: -5_000_000, y: 9_999_999 }, 400_000, 400_000);
    assert_eq!(p, Position { x: 20_000, y: 380_000 });
}

#[test]
fn state_key_same_bucket_same_key() {
    // the key is a function of bucket occupancy only. Enemies at
    // (150, 70) and (151, 70) px occupy the same buckets; one at (10, 70)
    // px does not.
    let fa = {
        let mut f = Field::new(400, 400, &schedule_of("0,7.5,3.5\n"));
        f.update();
        f
    };
    let fb = {
        let mut f = Field::new(400, 400, &schedule_of("0,7.55,3.5\n"));
        f.update();
        f
    };
    let fc = {
        let mut f = Field::new(400, 400, &schedule_of("0,0.5,3.5\n"));
        f.update();
        f
    };
    assert_eq!(fa.enemy_list.len(), 1);
    assert_eq!(fb.enemy_list.len(), 1);
    assert_eq!(fc.enemy_list.len(), 1);
    assert_eq!(fa.get_hash(), fb.get_hash());
    assert_ne!(fa.get_hash(), fc.get_hash());
}

#[test]
fn state_key_empty_field_is_versioned_mask() {
    let f = Field::new(400, 400, &empty_schedule());
    // version tag 1 in the high byte, mask 0 in the low byte
    assert_eq!(f.get_hash(), 256);
}

#[test]
fn simultaneous_wave_spawns_together_and_counter_resets() {
    // entries with offsets 5 and 0 relative to the batch spawn two
    // enemies together at tick 5, and the appearance counter rewinds.
    let sched = schedule_of("5,1.0,1.0\n0,2.0,1.0\n");
    let mut f = Field::new(400, 400, &sched);
    for k in 1..=5 {
        f.update();
        assert_eq!(f.enemy_list.len(), 0);
        // the counter advances once every tick
        assert_eq!(f.appearance_counter, k);
    }
    f.update();
    assert_eq!(f.enemy_list.len(), 2);
    // the counter reset to 0 during the spawn, then advanced once
    assert_eq!(f.appearance_counter, 1);
}

#[test]
fn bullet_straddling_the_edge_survives() {
    // only a fully off-field bullet is culled: one whose hitbox still
    // touches the edge stays in flight
    let sched = empty_schedule();
    let mut f = Field::new(400, 400, &sched);
    f.shot(Direction::Left);
    // the bullet starts at x = 50 px and flies left at 10 px per tick;
    // its hitbox (radius 10 px) touches the field until x < -10 px
    for _ in 0..5 {
        f.update();
    }
    assert_eq!(f.bullet_list.len(), 1);
    assert_eq!(f.bullet_list[0].pos.x, 0);
    f.update();
    // x = -10 px: the hitbox still grazes the edge
    assert_eq!(f.bullet_list.len(), 1);
    assert_eq!(f.bullet_list[0].pos.x, -10_000);
    f.update();
    // x = -20 px: fully off-field, culled
    assert_eq!(f.bullet_list.len(), 0);
}

#[test]
fn spawn_on_player_is_suppressed() {
    // a spawn landing on the player (70, 70 px = raw 3.5, 3.5) is dropped
    let sched = schedule_of("0,3.5,3.5\n");
    let mut f = Field::new(400, 400, &sched);
    f.update();
    assert_eq!(f.enemy_list.len(), 0);
    // and with nothing pending the episode is flagged terminal next tick
    f.update();
    assert!(f.game_end);
    assert!(!f.game_over);
}

#[test]
fn wave_clear_pays_bonus_once() {
    let sched = schedule_of("0,7.5,3.5\n");
    let mut f = Field::new(400, 400, &sched);
    f.next_state(Command::Shot(Direction::Right));
    let mut bonus_ticks = 0;
    let mut total = 0u64;
    for _ in 0..60 {
        let (_key, reward) = f.next_state(Command::Stay);
        total += reward;
        if reward >= 100_000 {
            bonus_ticks += 1;
        }
        if f.game_end {
            break;
        }
    }
    assert_eq!(bonus_ticks, 1, "the clear bonus is paid exactly once");
    assert_eq!(total, 100_000 + 100);
}

#[test]
fn player_touch_sets_loss_flag() {
    // an enemy spawning right next to the player reaches it and the loss
    // flag rises, while the episode itself is not terminal
    let sched = schedule_of("0,4.5,3.5\n");
    let mut f = Field::new(400, 400, &sched);
    for _ in 0..30 {
        f.update();
        if f.game_over {
            break;
        }
    }
    assert!(f.game_over);
    assert_eq!(f.player.state, State::Nil);
    assert!(!f.game_end);
}

#[test]
fn enemies_home_in_chebyshev_steps() {
    let v = aim_step(Position { x: 0, y: 0 }, Position { x: 100_000, y: 50_000 });
    assert_eq!(v.x, 1_000);
    assert_eq!(v.y, 500);
    let v2 = aim_step(Position { x: 5, y: 5 }, Position { x: 5, y: 5 });
    assert_eq!((v2.x, v2.y), (0, 0));
}

#[test]
fn overlap_counts_tangency() {
    // circle tangent to the square's right edge: contact
    let sq = Position { x: 0, y: 0 };
    assert!(overlap(sq, 20_000, Position { x: 30_000, y: 0 }, 10_000));
    // one sub-unit further: clear
    assert!(!overlap(sq, 20_000, Position { x: 30_001, y: 0 }, 10_000));
    // corner contact within the radius
    assert!(overlap(sq, 20_000, Position { x: 25_000, y: 25_000 }, 10_000));
}

#[test]
fn schedule_parser_reads_records() {
    let sched = schedule_of("5,1.0,1.0\n0,2.5,-1.25\n");
    let entries = sched.entries().clone();
    assert_eq!(entries.len(), 2);
    assert_eq!(entries[0].dt, 5);
    assert_eq!(entries[0].pos, Position { x: 1_000, y: 1_000 });
    assert_eq!(entries[1].dt, 0);
    assert_eq!(entries[1].pos, Position { x: 2_500, y: -1_250 });
}

#[test]
fn schedule_parser_stops_at_short_line() {
    let data: Vec<u8> = b"1,1,1\nxy\n2,2,2\n".to_vec();
    let sched = AppearLocation::read_list(&data).expect("short line ends the data");
    assert_eq!(sched.len(), 1);
}

#[test]
fn schedule_parser_accepts_float_grammar() {
    // the forms a decimal float accepts: bare and trailing dots, leading
    // dots, plus signs, exponents with either case and sign
    let sched = schedule_of("+5,1.,.5\n0,1e3,2.5e-2\n+0,1E2,-.5\n0,+1.5,1e+2\n");
    let entries = sched.entries().clone();
    assert_eq!(entries.len(), 4);
    assert_eq!(entries[0].dt, 5);
    assert_eq!(entries[0].pos, Position { x: 1_000, y: 500 });
    assert_eq!(entries[1].pos, Position { x: 1_000_000, y: 25 });
    assert_eq!(entries[2].pos, Position { x: 100_000, y: -500 });
    assert_eq!(entries[3].pos, Position { x: 1_500, y: 100_000 });
}

#[test]
fn schedule_parser_truncates_below_milli() {
    // digits beyond the third fraction place truncate toward zero
    let sched = schedule_of("0,0.0009,1e-5\n0,-0.0009,1.2345\n");
    let entries = sched.entries().clone();
    assert_eq!(entries[0].pos, Position { x: 0, y: 0 });
    assert_eq!(entries[1].pos, Position { x: 0, y: 1_234 });
}

#[test]
fn schedule_parser_rejects_malformed() {
    for bad in [
        "a,1,1\n",
        "1,1\n",
        "1,1,1,1\n",
        "1,.,1\n",
        "1,..5,1\n",
        "1,1e,1\n",
        "1,+-1,1\n",
        "1,99999,1\n",
        "1,1e99,1\n",
        "1,1,1\r\n",
    ] {
        let data: Vec<u8> = bad.as_bytes().to_vec();
        assert_eq!(
            AppearLocation::read_list(&data).err(),
            Some(ConfigLoadError::Malformed),
            "{bad:?} must be rejected"
        );
    }
}

#[test]
fn schedule_rejects_oversized_lists() {
    let mut entries = Vec::new();
    for _ in 0..1_000_001 {
        entries.push(AppearLocation { dt: 0, pos: Position { x: 0, y: 0 } });
    }
    assert_eq!(
        Schedule::from_entries(entries).err(),
        Some(ConfigLoadError::TooManyEntries)
    );
}

#[test]
fn commands_enumerate_thirteen() {
    let cmds = Command::iterator();
    assert_eq!(cmds.len(), 13);
    assert_eq!(cmds[12], Command::Stay);
    for (i, c) in cmds.iter().enumerate() {
        assert_eq!(c.index(), i);
    }
}
