use std::collections::HashMap;

use brztek::roulette::stats::{
    leaderboard, leaderboard_field, member_stats, rff_leaderboard, rff_star, stats_field, top_entries, Board,
    RouletteStats, LEADERBOARD_SIZE,
};
use brztek::roulette::{
    cannot_mute_message, draw_rff, pick_target, raise_rff, raise_rff_at_random, reset_rff, rff_chance,
    rff_message, rff_outcome, rff_record, rff_star_message, shot_kind, shot_record, Roulette, RouletteSql,
    ShotKind, BASE_RFF_PERC, NO_RFF_STAR_MESSAGE,
};
use brztek::tally::{count_keys, max_per_key};

#[test]
fn unknown_member_has_the_base_chance() {
    let map: HashMap<u64, (u8, i64)> = HashMap::new();
    assert_eq!(rff_chance(&map, 1), BASE_RFF_PERC);
    assert_eq!(BASE_RFF_PERC, 5);
}

#[test]
fn rff_triggers_at_or_below_the_chance() {
    assert_eq!(rff_outcome(5, 5), Some(5));
    assert_eq!(rff_outcome(1, 5), Some(5));
    assert_eq!(rff_outcome(6, 5), None);
    assert_eq!(rff_outcome(100, 100), Some(100));
}

#[test]
fn a_chance_of_100_always_triggers() {
    let mut map = HashMap::new();
    map.insert(1u64, (100u8, 0i64));
    for _ in 0..50 {
        assert_eq!(draw_rff(&map, 1), Some(100));
    }
    map.insert(2u64, (0u8, 0i64));
    for _ in 0..50 {
        assert_eq!(draw_rff(&map, 2), None);
    }
}

#[test]
fn reset_only_touches_an_existing_entry() {
    let mut map = HashMap::new();
    map.insert(1u64, (42u8, 10i64));
    reset_rff(&mut map, 1, 99);
    assert_eq!(map.get(&1), Some(&(5, 99)));
    reset_rff(&mut map, 2, 99);
    assert!(map.get(&2).is_none());
}

#[test]
fn raise_grows_the_chance_up_to_100() {
    let mut map = HashMap::new();
    raise_rff(&mut map, 1, 3, 10);
    assert_eq!(map.get(&1), Some(&(8, 10)));
    raise_rff(&mut map, 1, 4, 11);
    assert_eq!(map.get(&1), Some(&(12, 11)));
    map.insert(2, (100, 0));
    raise_rff(&mut map, 2, 10, 12);
    assert_eq!(map.get(&2), Some(&(110, 12)));
    raise_rff(&mut map, 2, 10, 13);
    assert_eq!(map.get(&2), Some(&(110, 13)));
}

#[test]
fn random_raise_is_between_2_and_10() {
    for _ in 0..100 {
        let mut map = HashMap::new();
        map.insert(1u64, (20u8, 0i64));
        raise_rff_at_random(&mut map, 1, 5);
        let (perc, t) = *map.get(&1).unwrap();
        assert!((22..=30).contains(&perc));
        assert_eq!(t, 5);
    }
}

#[test]
fn chances_stay_within_range_over_many_games() {
    let mut map = HashMap::new();
    for round in 0..300 {
        raise_rff_at_random(&mut map, 1, round);
        let c = rff_chance(&map, 1);
        assert!((BASE_RFF_PERC..=110).contains(&c));
        if round % 37 == 0 {
            reset_rff(&mut map, 1, round);
            assert_eq!(rff_chance(&map, 1), BASE_RFF_PERC);
        }
    }
}

#[test]
fn the_target_is_a_member() {
    let members = vec![10u64, 20, 30];
    for _ in 0..50 {
        assert!(members.contains(&pick_target(&members)));
    }
    assert_eq!(pick_target(&vec![7]), 7);
}

#[test]
fn shot_kinds_and_records() {
    assert_eq!(shot_kind(1, 1), ShotKind::SelfShot);
    assert_eq!(shot_kind(1, 2), ShotKind::Normal);
    let r = rff_record(100, 1, 35);
    assert_eq!((r.timestamp, r.caller_id, r.target_id, r.rff_triggered), (100, 1, 1, Some(35)));
    let s = shot_record(100, 1, 2);
    assert_eq!((s.caller_id, s.target_id, s.rff_triggered), (1, 2, None));
    let row = RouletteSql { timestamp: 5, caller_id: -1, target_id: 3, rff_triggered: Some(9) };
    let from = Roulette::from(row);
    assert_eq!((from.timestamp, from.caller_id, from.target_id, from.rff_triggered), (5, u64::MAX, 3, Some(9)));
}

fn game(caller: u64, target: u64, rff: Option<u8>) -> Roulette {
    Roulette { timestamp: 0, caller_id: caller, target_id: target, rff_triggered: rff }
}

fn scores() -> Vec<Roulette> {
    vec![
        game(1, 2, None),
        game(1, 3, None),
        game(2, 1, None),
        game(1, 1, Some(20)),
        game(3, 3, Some(40)),
        game(1, 1, None),
        game(1, 2, None),
        game(1, 1, Some(10)),
    ]
}

#[test]
fn counting_keeps_first_appearance_order() {
    assert_eq!(count_keys(&vec![5, 3, 5, 9, 3, 5]), vec![(5, 3), (3, 2), (9, 1)]);
    assert_eq!(count_keys(&vec![]), vec![]);
    assert_eq!(max_per_key(&vec![(1, 4), (2, 9), (1, 7), (1, 2)]), vec![(1, 7), (2, 9)]);
}

#[test]
fn leaderboards_count_and_sort() {
    let s = scores();
    assert_eq!(leaderboard(&s, Board::Callers), vec![(1, 6), (2, 1), (3, 1)]);
    assert_eq!(leaderboard(&s, Board::Targets), vec![(1, 4), (2, 2), (3, 2)]);
    assert_eq!(leaderboard(&s, Board::VictimsOf(1)), vec![(2, 2), (3, 1), (1, 1)]);
    assert_eq!(leaderboard(&s, Board::BulliesOf(1)), vec![(2, 1), (1, 1)]);
    assert_eq!(rff_leaderboard(&s), vec![(3, 40), (1, 20)]);
}

#[test]
fn top_entries_keep_ten_at_most() {
    let t: Vec<(u64, i64)> = (0..12).map(|i| (i, (i % 3) as i64)).collect();
    let top = top_entries(t, LEADERBOARD_SIZE);
    assert_eq!(LEADERBOARD_SIZE, 10);
    assert_eq!(top, vec![(2, 2), (5, 2), (8, 2), (11, 2), (1, 1), (4, 1), (7, 1), (10, 1), (0, 0), (3, 0)]);
    let few: Vec<(u64, i64)> = (0..8).map(|i| (i, (i % 3) as i64)).collect();
    assert_eq!(top_entries(few, 5), vec![(2, 2), (5, 2), (1, 1), (4, 1), (7, 1)]);
    assert_eq!(top_entries(vec![(1, 1)], 5), vec![(1, 1)]);
}

#[test]
fn leaderboard_field_lists_names() {
    let rows = vec![("Alice".to_string(), 6), ("Bob".to_string(), 1)];
    assert_eq!(leaderboard_field(&rows), "Alice - 6\nBob - 1\n");
    assert_eq!(leaderboard_field(&vec![]), "");
}

#[test]
fn member_statistics() {
    let s = scores();
    let st = member_stats(&s, 1, 17);
    assert_eq!(
        st,
        RouletteStats { shots: 6, selfshots: 1, rff_triggered: 2, rff_chance: 17, max_rff: 20, min_rff: 10 }
    );
    let none = member_stats(&s, 9, 5);
    assert_eq!((none.shots, none.max_rff, none.min_rff), (0, 0, 0));
    assert_eq!(
        stats_field(&st),
        "6 roulettes\n1 selfshots\n2 RFF triggered\n17% chance of RFF\n20% max RFF triggered\n10% min RFF triggered"
    );
}

#[test]
fn rff_star_is_the_highest_and_latest() {
    assert_eq!(rff_star(&scores()), Some((3, 40)));
    let tie = vec![game(1, 1, Some(30)), game(2, 2, Some(30)), game(3, 4, None)];
    assert_eq!(rff_star(&tie), Some((2, 30)));
    assert_eq!(rff_star(&vec![game(1, 2, None)]), None);
    assert_eq!(rff_star(&vec![]), None);
}

#[test]
fn roulette_messages() {
    assert_eq!(rff_message(35), "**:man_police_officer: RFF activated at 35%, you're out. :woman_police_officer:**");
    assert_eq!(
        cannot_mute_message("<@1>"),
        "The roulette has chosen, <@1>, but I can't mute you, would you kindly shut up for the next 60 seconds ?"
    );
    assert_eq!(rff_star_message("<@2>", 40), ":muscle: :military_medal: <@2> is the RFF Star with 40%.");
    assert_eq!(NO_RFF_STAR_MESSAGE, "Nobody has triggered the RFF yet.");
}

#[test]
fn every_game_is_counted_once() {
    let s = scores();
    let callers: i64 = leaderboard(&s, Board::Callers).iter().map(|e| e.1).sum();
    assert_eq!(callers, s.len() as i64);
    let counts = count_keys(&vec![4, 4, 4, 1, 2, 2]);
    assert_eq!(counts.iter().map(|e| e.1).sum::<i64>(), 6);
}

#[test]
fn a_higher_chance_triggers_on_more_draws() {
    for check in 1..=100 {
        if rff_outcome(check, 30).is_some() {
            assert!(rff_outcome(check, 60).is_some());
        }
        assert!(rff_outcome(check, 100).is_some());
    }
}

#[test]
fn member_leaderboards_keep_five_guild_ones_ten() {
    let shots: Vec<Roulette> = (2..14u64)
        .map(|t| Roulette { timestamp: t as i64, caller_id: 1, target_id: t, rff_triggered: None })
        .collect();
    assert_eq!(leaderboard(&shots, Board::VictimsOf(1)), vec![(2, 1), (3, 1), (4, 1), (5, 1), (6, 1)]);
    assert_eq!(leaderboard(&shots, Board::BulliesOf(7)), vec![(1, 1)]);
    let targets = leaderboard(&shots, Board::Targets);
    assert_eq!(targets.len(), 10);
    assert_eq!(targets[9], (11, 1));
    assert_eq!(leaderboard(&shots, Board::Callers), vec![(1, 12)]);
}
