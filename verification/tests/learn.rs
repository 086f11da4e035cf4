use chain_shooter::codec::{decode, encode, PersistenceError};
use chain_shooter::field::Field;
use chain_shooter::object::{Command, Direction, ExtendDirection};
use chain_shooter::schedule::{AppearLocation, Schedule};
use chain_shooter::trainer::{command_select, run_episode, select_action, QTable};

#[test]
fn fresh_table_is_empty() {
    let t = QTable::new();
    assert_eq!(t.len(), 0);
    assert!(!t.contains_state(0));
    assert_eq!(t.lookup(0, Command::Stay), 0);
    assert_eq!(t.max_value(0), 0);
}

#[test]
fn update_rule_fixed_point_values() {
    // Q += (reward + 0.92 * max' - Q) / 10, in thousandths of a point.
    let mut t = QTable::new();
    t.update_value(1, Command::Stay, 100, 2);
    assert_eq!(t.lookup(1, Command::Stay), 10_000);
    // second visit against an empty successor shrinks the estimate
    t.update_value(1, Command::Stay, 0, 2);
    assert_eq!(t.lookup(1, Command::Stay), 9_000);
    // the discount: successor max 9000 contributes 92 * 9000 / 100 = 8280
    t.update_value(2, Command::Move(ExtendDirection::Left), 0, 1);
    // wrong successor: state 1 holds 9000 only for state key 1
    assert_eq!(t.lookup(2, Command::Move(ExtendDirection::Left)), 828);
    // untouched slots stay unmaterialized and read as zero
    assert_eq!(t.lookup(1, Command::Shot(Direction::Up)), 0);
}

#[test]
fn greedy_selection_prefers_highest_stored() {
    let mut t = QTable::new();
    t.update_value(7, Command::Move(ExtendDirection::Up), 50, 99);
    t.update_value(7, Command::Shot(Direction::Down), 500, 99);
    assert_eq!(t.best_command(7), Command::Shot(Direction::Down));
    // epsilon 0 and a materialized state: selection is the greedy choice
    let c = command_select(&t, 7, 0);
    assert_eq!(c, Command::Shot(Direction::Down));
}

#[test]
fn greedy_default_is_noop() {
    // with nothing materialized the greedy choice
    // defaults to the no-op, and selection never materializes entries.
    let t = QTable::new();
    assert_eq!(t.best_command(42), Command::Stay);
    let c = command_select(&t, 42, 0);
    assert!(Command::iterator().contains(&c));
    assert_eq!(t.len(), 0, "selection must not grow the table");
}

#[test]
fn deterministic_selection_explores_by_roll() {
    let mut t = QTable::new();
    t.update_value(3, Command::Stay, 10, 3);
    // roll below epsilon: the uniform pick wins
    let c = select_action(&t, 3, 50, 10, 4);
    assert_eq!(c, Command::Move(ExtendDirection::LeftUp));
    // roll at or above epsilon with a materialized state: greedy
    let c2 = select_action(&t, 3, 50, 80, 4);
    assert_eq!(c2, Command::Stay);
    // unknown state: uniform regardless of the roll
    let c3 = select_action(&t, 4, 0, 99, 12);
    assert_eq!(c3, Command::Stay);
    let c4 = select_action(&t, 4, 0, 99, 0);
    assert_eq!(c4, Command::Move(ExtendDirection::Left));
}

#[test]
fn persistence_round_trip() {
    // persisting then reloading reproduces every action-value slot.
    let mut t = QTable::new();
    t.update_value(256, Command::Stay, 100, 257);
    t.update_value(257, Command::Shot(Direction::Left), 7, 256);
    t.update_value(256, Command::Move(ExtendDirection::Down), 0, 257);
    t.ensure_entry(300);
    let bytes = encode(&t);
    let back = decode(&bytes).expect("own encoding must decode");
    assert_eq!(back.len(), t.len());
    for s in [256u64, 257, 300, 301] {
        assert_eq!(back.contains_state(s), t.contains_state(s));
        for c in Command::iterator() {
            assert_eq!(back.lookup(s, c), t.lookup(s, c));
        }
    }
    // and the reproducible layout re-encodes to the same bytes
    assert_eq!(encode(&back), bytes);
}

#[test]
fn persistence_rejects_foreign_bytes() {
    assert_eq!(decode(&Vec::new()).err(), Some(PersistenceError::Malformed));
    let garbage: Vec<u8> = vec![1, 2, 3, 4, 5, 6, 7, 8, 9, 10, 11, 12, 13];
    assert_eq!(decode(&garbage).err(), Some(PersistenceError::Malformed));
    // a truncated valid table is rejected too
    let mut t = QTable::new();
    t.update_value(1, Command::Stay, 1, 1);
    let mut bytes = encode(&t);
    bytes.pop();
    assert_eq!(decode(&bytes).err(), Some(PersistenceError::Malformed));
}

#[test]
fn episode_trains_and_terminates() {
    let data: Vec<u8> = b"0,7.5,3.5\n".to_vec();
    let sched = AppearLocation::read_list(&data).expect("schedule");
    let mut field = Field::new(400, 400, &sched);
    let mut table = QTable::new();
    let (score, ticks) = run_episode(&mut field, &mut table, 100, 5_000);
    assert_eq!(score, field.score);
    assert!(ticks > 0);
    assert!(field.game_end || ticks == 5_000, "the episode runs to its end");
    assert!(table.len() >= 1, "visited states materialize entries");
}

#[test]
fn episode_resets_cleanly() {
    let entries = vec![AppearLocation {
        dt: 0,
        pos: chain_shooter::object::Position { x: 7_500, y: 3_500 },
    }];
    let sched = Schedule::from_entries(entries).expect("schedule");
    let mut field = Field::new(400, 400, &sched);
    let mut table = QTable::new();
    let _ = run_episode(&mut field, &mut table, 100, 2_000);
    field.reset(&sched);
    assert_eq!(field.score, 0);
    assert!(!field.game_end);
    assert!(field.enemy_list.is_empty());
    let _ = run_episode(&mut field, &mut table, 100, 2_000);
}

#[test]
fn persistence_rejects_duplicate_or_unsorted_keys() {
    // keys must be strictly ascending in the persisted layout
    let mut t = QTable::new();
    t.update_value(5, Command::Stay, 1, 5);
    let one = encode(&t);
    let entry = &one[12..];
    let mut dup: Vec<u8> = Vec::new();
    dup.extend_from_slice(&one[0..4]);
    dup.extend_from_slice(&[2, 0, 0, 0, 0, 0, 0, 0]);
    dup.extend_from_slice(entry);
    dup.extend_from_slice(entry);
    assert_eq!(decode(&dup).err(), Some(PersistenceError::Malformed));

    let mut t2 = QTable::new();
    t2.update_value(5, Command::Stay, 1, 5);
    t2.update_value(9, Command::Stay, 2, 9);
    let two = encode(&t2);
    let mut swapped: Vec<u8> = Vec::new();
    swapped.extend_from_slice(&two[0..12]);
    swapped.extend_from_slice(&two[12 + 125..12 + 250]);
    swapped.extend_from_slice(&two[12..12 + 125]);
    assert_eq!(decode(&swapped).err(), Some(PersistenceError::Malformed));
    // while the straight bytes decode fine
    assert!(decode(&two).is_ok());
}
