use brztek::levels::cards::{
    card_xp, checked_card_xp, rank_colour, rank_text, top_card_size, top_title, xp_text, CardXp, RankColour,
};
use brztek::admin::{mee6_user_levels, new_level_text, parse_u64, set_user_xp};
use brztek::database::{from_i64, to_i64};
use brztek::levels::avatar::{clean_url, resize_avatar};
use brztek::levels::models::{level_up_message, UserInfoCard, UserLevel, UserSql};
use brztek::levels::ranking::{rank_changes, sort_by_rank_asc, sort_by_xp_desc, top_users};
use brztek::levels::xp_func::{
    calculate_level_from_xp, rand_xp_points, total_xp_required_for_level, xp_needed_to_level_up,
};

#[test]
fn test_xp_for_level() {
    let level = 4_i64;

    let xp_to_next_level = xp_needed_to_level_up(level);
    assert_eq!(xp_to_next_level, 380_i64);
}

#[test]
fn test_total_xp_for_level() {
    let level = 4_i64;

    let total_xp_required_for_level = total_xp_required_for_level(level);
    assert_eq!(total_xp_required_for_level, 770_i64);
}

#[test]
fn test_160_000_xp_is_level_41() {
    assert_eq!(5, calculate_level_from_xp(1280));
    assert_eq!(41, calculate_level_from_xp(160_000));
}

#[test]
fn xp_needed_follows_the_curve() {
    assert_eq!(xp_needed_to_level_up(0), 100);
    assert_eq!(xp_needed_to_level_up(1), 155);
    assert_eq!(xp_needed_to_level_up(10), 1100);
}

#[test]
fn total_xp_of_level_zero_and_negative_is_zero() {
    assert_eq!(total_xp_required_for_level(0), 0);
    assert_eq!(total_xp_required_for_level(-3), 0);
    assert_eq!(total_xp_required_for_level(1), 100);
    assert_eq!(total_xp_required_for_level(5), 1150);
}

#[test]
fn level_at_a_threshold_is_the_level_below() {
    assert_eq!(calculate_level_from_xp(0), 0);
    assert_eq!(calculate_level_from_xp(100), 0);
    assert_eq!(calculate_level_from_xp(101), 1);
    assert_eq!(calculate_level_from_xp(1150), 4);
    assert_eq!(calculate_level_from_xp(1151), 5);
    assert_eq!(calculate_level_from_xp(-50), 0);
}

#[test]
fn level_grows_with_xp() {
    let mut last = 0;
    let mut xp = 0;
    while xp < 20_000 {
        let level = calculate_level_from_xp(xp);
        assert!(level >= last);
        assert!(xp <= total_xp_required_for_level(level + 1));
        last = level;
        xp += 37;
    }
}

#[test]
fn random_xp_stays_in_range() {
    for _ in 0..200 {
        let points = rand_xp_points(15, 25);
        assert!((15..=25).contains(&points));
    }
    assert_eq!(rand_xp_points(7, 7), 7);
}

#[test]
fn ids_round_trip_through_i64() {
    assert_eq!(to_i64(0), 0);
    assert_eq!(to_i64(u64::MAX), -1);
    assert_eq!(to_i64(1 << 63), i64::MIN);
    assert_eq!(from_i64(-1), u64::MAX);
    for id in [0u64, 1, 42, 1 << 62, (1 << 63) + 5, u64::MAX] {
        assert_eq!(from_i64(to_i64(id)), id);
    }
    assert_eq!(brztek::db::to_i64(123), 123);
    assert_eq!(brztek::db::from_i64(-2), u64::MAX - 1);
}

#[test]
fn a_new_user_has_nothing() {
    let u = UserLevel::new(7);
    assert_eq!((u.user_id, u.xp, u.level, u.rank, u.last_message), (7, 0, 0, 0, 0));
}

#[test]
fn xp_is_gained_only_after_the_delay() {
    let mut u = UserLevel::new(1);
    u.last_message = 1000;
    assert!(!u.gain_xp_at(1060, 20));
    assert_eq!(u.xp, 0);
    assert_eq!(u.last_message, 1000);
    assert!(u.gain_xp_at(1061, 20));
    assert_eq!(u.xp, 20);
    assert_eq!(u.last_message, 1061);
}

#[test]
fn one_reward_per_delay_window() {
    let mut u = UserLevel::new(1);
    u.last_message = 0;
    assert!(u.gain_xp_at(100, 15));
    assert!(!u.gain_xp_at(130, 25));
    assert!(!u.gain_xp_at(160, 25));
    assert_eq!((u.xp, u.last_message), (15, 100));
    assert!(u.gain_xp_at(161, 25));
    assert_eq!((u.xp, u.last_message), (40, 161));
}

#[test]
fn first_message_gains_random_xp() {
    let mut u = UserLevel::new(1);
    assert!(u.gain_xp_if_not_spam());
    assert!((15..=25).contains(&u.xp));
    assert!(!u.gain_xp_if_not_spam());
}

#[test]
fn level_up_happens_past_the_threshold() {
    let mut u = UserLevel::new(1);
    u.xp = 99;
    assert!(!u.has_level_up());
    assert_eq!(u.level, 0);
    u.xp = 100;
    assert!(u.has_level_up());
    assert_eq!(u.level, 1);
    assert!(!u.has_level_up());
}

#[test]
fn records_come_from_rows() {
    let row = UserSql { user_id: -1, guild_id: 3, xp: 50, level: 0, rank: 2, last_message: 99 };
    let u = UserLevel::from_sql(row);
    assert_eq!((u.user_id, u.xp, u.level, u.rank, u.last_message), (u64::MAX, 50, 0, 2, 99));
    let t = UserLevel::from_tuple((5, 6, 7, 8, 9));
    assert_eq!((t.user_id, t.xp, t.level, t.rank, t.last_message), (5, 6, 7, 8, 9));
}

#[test]
fn card_colour_is_opaque() {
    let card = UserInfoCard::new("Bob".to_string(), 1, 2, 3, (10, 20, 30));
    let (name, rank, level, xp, colour) = card.tuple();
    assert_eq!(name, "Bob");
    assert_eq!((rank, level, xp), (1, 2, 3));
    assert_eq!(colour, (10, 20, 30, 255));
}

fn user(id: u64, xp: i64, rank: i64) -> UserLevel {
    UserLevel { user_id: id, xp, level: 0, rank, last_message: 0 }
}

#[test]
fn sorting_by_xp_keeps_ties_in_order() {
    let users = vec![user(1, 10, 0), user(2, 30, 0), user(3, 10, 0), user(4, 30, 0)];
    let ids: Vec<u64> = sort_by_xp_desc(users).iter().map(|u| u.user_id).collect();
    assert_eq!(ids, vec![2, 4, 1, 3]);
}

#[test]
fn ranks_follow_xp_and_only_changes_are_listed() {
    let users = vec![user(1, 10, 1), user(2, 30, 2), user(3, 20, 3)];
    let changed = rank_changes(users);
    let pairs: Vec<(u64, i64)> = changed.iter().map(|u| (u.user_id, u.rank)).collect();
    assert_eq!(pairs, vec![(2, 1), (3, 2), (1, 3)]);
    let stable = vec![user(1, 30, 1), user(2, 20, 2)];
    assert!(rank_changes(stable).is_empty());
}

#[test]
fn top_takes_the_best_ranks() {
    let users = vec![user(1, 0, 3), user(2, 0, 1), user(3, 0, 2)];
    let ids: Vec<u64> = top_users(users.clone(), 2).iter().map(|u| u.user_id).collect();
    assert_eq!(ids, vec![2, 3]);
    assert_eq!(top_users(users.clone(), 10).len(), 3);
    let all: Vec<u64> = sort_by_rank_asc(users).iter().map(|u| u.user_id).collect();
    assert_eq!(all, vec![2, 3, 1]);
}

#[test]
fn avatar_address_asks_for_a_small_png() {
    let url = "https://cdn.discordapp.com/avatars/1/abc.webp?size=1024".to_string();
    assert_eq!(resize_avatar(url), "https://cdn.discordapp.com/avatars/1/abc.png?size=96");
    let png = "https://cdn.discordapp.com/avatars/1/abc.png".to_string();
    assert_eq!(resize_avatar(png.clone()), png);
    assert_eq!(clean_url("a.webp.webp".to_string()), "a.png?size=96");
}

#[test]
fn level_up_message_mentions_the_member() {
    assert_eq!(level_up_message("<@42>"), "Level Up, <@42>!");
}

#[test]
fn set_xp_recomputes_the_level() {
    let mut u = user(9, 5, 4);
    set_user_xp(&mut u, 1151);
    assert_eq!((u.xp, u.level, u.rank), (1151, 5, 4));
    assert_eq!(new_level_text("bob", 5), "bob is now level 5");
}

#[test]
fn decimal_ids_parse_like_std() {
    assert_eq!(parse_u64("123"), Some(123));
    assert_eq!(parse_u64("+7"), Some(7));
    assert_eq!(parse_u64("18446744073709551615"), Some(u64::MAX));
    assert_eq!(parse_u64("18446744073709551616"), None);
    assert_eq!(parse_u64(""), None);
    assert_eq!(parse_u64("+"), None);
    assert_eq!(parse_u64("-1"), None);
    assert_eq!(parse_u64("12a"), None);
    for s in ["0", "42", "+42", "007", "99999999999999999999", "4 2"] {
        assert_eq!(parse_u64(s), s.parse::<u64>().ok());
    }
}

#[test]
fn mee6_players_become_ranked_records() {
    let players = vec![
        ("\"111\"".to_string(), 500, 3),
        ("222".to_string(), 100, 1),
    ];
    let levels = mee6_user_levels(&players).unwrap();
    assert_eq!(levels.len(), 2);
    assert_eq!((levels[0].user_id, levels[0].xp, levels[0].level, levels[0].rank, levels[0].last_message), (111, 500, 3, 1, 0));
    assert_eq!((levels[1].user_id, levels[1].rank), (222, 2));
    let bad = vec![("abc".to_string(), 1, 1)];
    assert!(mee6_user_levels(&bad).is_none());
}

#[test]
fn cards_show_progress_within_the_level() {
    assert_eq!(card_xp(2, 275), CardXp { in_level: 20, needed: 220, next_total: 475 });
    assert_eq!(card_xp(0, 5), CardXp { in_level: 5, needed: 100, next_total: 100 });
    assert_eq!(rank_colour(1), RankColour::Gold);
    assert_eq!(rank_colour(2), RankColour::Silver);
    assert_eq!(rank_colour(3), RankColour::Bronze);
    assert_eq!(rank_colour(4), RankColour::Plain);
    assert_eq!(rank_colour(0), RankColour::Plain);
    assert_eq!(rank_text(12), "#12");
    assert_eq!(xp_text(950, 1150), "950/1150");
    assert_eq!(top_title(4), "Top 4");
}

#[test]
fn ranks_after_update_follow_positions() {
    let users = vec![user(1, 5, 7), user(2, 50, 7), user(3, 20, 2), user(4, 1, 4)];
    let changed = rank_changes(users.clone());
    let sorted = sort_by_xp_desc(users);
    for (i, u) in sorted.iter().enumerate() {
        let expected = i as i64 + 1;
        let listed = changed.iter().find(|c| c.user_id == u.user_id);
        if u.rank == expected {
            assert!(listed.is_none());
        } else {
            assert_eq!(listed.unwrap().rank, expected);
        }
    }
}

#[test]
fn card_xp_is_checked_for_overflow() {
    assert_eq!(checked_card_xp(2, 275), Some(CardXp { in_level: 20, needed: 220, next_total: 475 }));
    assert_eq!(checked_card_xp(-1, 7), Some(CardXp { in_level: 7, needed: 55, next_total: 55 }));
    assert_eq!(checked_card_xp(i64::MAX, 0), None);
    assert_eq!(checked_card_xp(3_000_000_000, 0), None);
    assert_eq!(checked_card_xp(10, i64::MIN), None);
}

#[test]
fn top_card_size_adds_margins_and_rows() {
    assert_eq!(top_card_size(30, 100, 70, 20, 4), Some((30 + 100 + 70 + 20 + 180 + 60, 4 * 32 + 60 + 40)));
    assert_eq!(top_card_size(usize::MAX, 1, 0, 0, 1), None);
    assert_eq!(top_card_size(1, 1, 1, 1, usize::MAX), None);
}
