use brztek::config::{Config, HookCfg, Parameters};
use brztek::members::{join_message, leave_message, was_kicked};
use brztek::mention_roles::{default_selections, holds_id, mention_role_names, roles_named, roles_summary, roles_to_remove};
use brztek::picture::to_png_buffer;
use brztek::timeouts::{decide_timeout, TimeoutDecision};
use brztek::youtube::{
    channel_query, channel_suffix, expiry_from, new_video_message, renewals, sub_details_text, sub_list_text,
    video_post, video_search_url, video_url, SubYtChannel, DAY_NANOS, EXPIRATION_DAYS,
};

#[test]
fn timeout_requests() {
    assert_eq!(decide_timeout(Some(0), 1000, None), TimeoutDecision::Cancel);
    assert_eq!(decide_timeout(Some(0), 1000, Some(5000)), TimeoutDecision::Cancel);
    assert_eq!(decide_timeout(None, 1000, None), TimeoutDecision::TimeOut { until: 1060 });
    assert_eq!(decide_timeout(Some(300), 1000, Some(900)), TimeoutDecision::TimeOut { until: 1300 });
    assert_eq!(
        decide_timeout(Some(300), 1000, Some(1001)),
        TimeoutDecision::AlreadyTimedOut { until: 1300, current: 1001 }
    );
    assert_eq!(decide_timeout(None, 1000, Some(1000)), TimeoutDecision::TimeOut { until: 1060 });
}

#[test]
fn member_messages() {
    assert_eq!(join_message("<@1>"), "A wild **<@1>** appeared !");
    assert!(was_kicked(true, Some(5), 5));
    assert!(!was_kicked(true, Some(6), 5));
    assert!(!was_kicked(true, None, 5));
    assert!(!was_kicked(false, Some(5), 5));
    assert_eq!(leave_message("bob", true), "**bob** has got his ass out of here!");
    assert_eq!(leave_message("bob", false), "✝️ RIP en paix **bob** , un 👼 parti trop tôt 🕯️");
}

#[test]
fn mention_role_choices() {
    let mention = vec![1u64, 2, 3, 4];
    let member = vec![2u64, 4, 9];
    assert_eq!(default_selections(&mention, &member), vec![false, true, false, true]);
    assert_eq!(roles_to_remove(&mention, &vec![4, 1], &member), vec![2]);
    assert!(holds_id(&member, 9));
    assert!(!holds_id(&member, 3));
    let roles = vec![(10u64, "red".to_string()), (11, "blue".to_string()), (12, "red".to_string())];
    assert_eq!(roles_named(&roles, "red"), vec![10, 12]);
    assert_eq!(roles_named(&roles, "green"), Vec::<u64>::new());
    assert_eq!(mention_role_names(&roles, &vec![11, 12]), vec!["blue".to_string(), "red".to_string()]);
    assert_eq!(
        roles_summary(&vec!["a".to_string(), "b".to_string()], &vec![]),
        "Roles assigned: a, b\nRoles removed: "
    );
}

#[test]
fn channel_queries() {
    assert_eq!(channel_suffix("https://www.youtube.com/@Someone"), "@Someone");
    assert_eq!(channel_suffix("UCabc"), "UCabc");
    assert_eq!(channel_suffix("https://x/"), "");
    assert_eq!(channel_query("https://www.youtube.com/UCabc"), Some(("/api/v1/channels/UCabc".to_string(), false)));
    assert_eq!(
        channel_query("https://www.youtube.com/@Someone"),
        Some(("/api/v1/search?q=@Someone&type=channel".to_string(), true))
    );
    assert_eq!(channel_query("https://www.youtube.com/channel"), None);
}

#[test]
fn video_texts() {
    assert_eq!(video_url("abc"), "https://www.youtube.com/watch?v=abc");
    assert_eq!(video_post("abc", None), "https://www.youtube.com/watch?v=abc");
    assert_eq!(video_post("abc", Some("hi")), "hi\nhttps://www.youtube.com/watch?v=abc");
    assert_eq!(new_video_message("Chan"), "New video from **Chan** !!!");
    assert_eq!(video_search_url("https://inv.example", "cats"), "https://inv.example/api/v1/search?q=cats&type=video");
    assert_eq!(
        sub_details_text("https://cb", "UC1"),
        "https://pubsubhubbub.appspot.com/subscription-details?hub.callback=https://cb&hub.topic=https://www.youtube.com/xml/feeds/videos.xml?channel_id=UC1&hub.secret="
    );
}

fn sub(name: &str, id: &str, guild: u64, expire_on: i128) -> SubYtChannel {
    SubYtChannel {
        yt_channel_name: name.to_string(),
        yt_channel_id: id.to_string(),
        guild_id: guild,
        post_channel_id: 0,
        expire_on,
    }
}

#[test]
fn subscriptions_are_renewed_once_a_day_is_left() {
    let now: i128 = 10 * DAY_NANOS;
    let subs = vec![
        sub("A", "UC1", 1, now + DAY_NANOS - 1),
        sub("B", "UC2", 1, now + DAY_NANOS),
        sub("A", "UC1", 2, now),
        sub("C", "UC3", 2, now - 5),
    ];
    assert_eq!(renewals(&subs, now), vec!["UC1".to_string(), "UC3".to_string()]);
    assert_eq!(expiry_from(now), now + 5 * DAY_NANOS);
    assert_eq!(EXPIRATION_DAYS, 5);
    assert_eq!(sub_list_text(&subs, 1), "**List of subscribed channels:**\n>>> A\nB");
    assert_eq!(sub_list_text(&subs, 3), "**List of subscribed channels:**\n>>> ");
}

#[test]
fn parameters_by_name() {
    assert_eq!(Parameters::try_from("spam_delay"), Ok(Parameters::SpamDelay));
    assert_eq!(Parameters::try_from("max_xp_gain").unwrap().name(), "max xp gain");
    assert_eq!(
        Parameters::try_from("other"),
        Err("Parameters::try_from() returned with error: invalid value")
    );
    let config = Config {
        database: "sqlite:database.sqlite".to_string(),
        brzthook: HookCfg { port: 1, ip_addr: "0.0.0.0".to_string(), callback: "cb".to_string(), new_only: true },
    };
    assert_eq!(config.brzthook.port, 1);
}

#[test]
fn cards_are_encoded_as_png() {
    let pixels = vec![255u8; 4 * 3 * 2];
    let png = to_png_buffer(&pixels, 3, 2).unwrap();
    assert_eq!(&png[..8], &[0x89, b'P', b'N', b'G', 0x0d, 0x0a, 0x1a, 0x0a]);
    assert_ne!(png, pixels);
    let again = to_png_buffer(&pixels, 3, 2).unwrap();
    assert_eq!(png, again);
}

#[test]
fn an_empty_card_cannot_be_encoded() {
    assert!(to_png_buffer(&[], 0, 4).is_err());
    assert!(to_png_buffer(&[], 3, 0).is_err());
    assert!(to_png_buffer(&[0u8; 4], 1, 1).is_ok());
}
