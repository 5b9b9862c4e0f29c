//! YouTube subscriptions: which Invidious query finds a channel, when a
//! WebSub subscription is renewed, and the texts posted about videos.
//!
//! Instants are counted in nanoseconds since the Unix epoch.

use vstd::prelude::*;

use crate::text::{chars_of, has_prefix, join, joined, push_str, starts_with};

verus! {

/// Address of a YouTube video, before its id.
pub const YOUTUBE_VIDEO_PREFIX: &'static str = "https://www.youtube.com/watch?v=";

/// Days for which a WebSub subscription is taken.
pub const EXPIRATION_DAYS: i64 = 5;

/// One day, in nanoseconds.
pub const DAY_NANOS: i128 = 86_400_000_000_000;

/// A subscription of a guild channel to the videos of a YouTube channel.
#[derive(Debug)]
pub struct SubYtChannel {
    pub yt_channel_name: String,
    pub yt_channel_id: String,
    pub guild_id: u64,
    pub post_channel_id: u64,
    /// When the subscription expires.
    pub expire_on: i128,
}

/// The part of `url` after its last `/`, or all of it without one (what
/// `str::rsplit_once('/')` leaves on the right).
pub open spec fn after_last_slash(url: Seq<char>) -> Seq<char>
    decreases url.len(),
{
    if url.len() == 0 {
        url
    } else if url.last() == '/' {
        seq![]
    } else {
        after_last_slash(url.drop_last()).push(url.last())
    }
}

/// The Invidious query that finds the channel of `url` (its address ends
/// with the channel id, beginning with `UC`, or with its handle, beginning
/// with `@`), and whether it is a search by handle; `None` for any other
/// address.
pub open spec fn spec_channel_query(url: Seq<char>) -> Option<(Seq<char>, bool)> {
    let suffix = after_last_slash(url);
    if has_prefix(suffix, "UC"@) {
        Some(("/api/v1/channels/"@ + suffix, false))
    } else if has_prefix(suffix, "@"@) {
        Some(("/api/v1/search?q="@ + suffix + "&type=channel"@, true))
    } else {
        None
    }
}

/// The part of `url` after its last `/`.
pub fn channel_suffix(url: &str) -> (suffix: String)
    ensures
        suffix@ == after_last_slash(url@),
{
    let chars = chars_of(url);
    let mut start: usize = chars.len();
    assert(url@.take(start as int) =~= url@);
    assert(after_last_slash(url@) + url@.subrange(start as int, url@.len() as int) =~= after_last_slash(url@));
    while start > 0 && chars[start - 1] != '/'
        invariant
            chars@ == url@,
            start <= chars.len(),
            after_last_slash(url@) == after_last_slash(url@.take(start as int)) + url@.subrange(start as int, url@.len() as int),
        decreases start,
    {
        proof {
            let pre = url@.take(start as int);
            assert(pre.drop_last() =~= url@.take(start - 1));
            assert(after_last_slash(pre) == after_last_slash(pre.drop_last()).push(pre.last()));
            assert(after_last_slash(url@.take(start - 1)).push(url@[start - 1]) + url@.subrange(start as int, url@.len() as int)
                =~= after_last_slash(url@.take(start - 1)) + url@.subrange(start - 1, url@.len() as int));
        }
        start = start - 1;
    }
    proof {
        if start > 0 {
            assert(url@.take(start as int).last() == '/');
        }
        assert(after_last_slash(url@.take(start as int)) =~= Seq::<char>::empty());
        assert(after_last_slash(url@) =~= url@.subrange(start as int, url@.len() as int));
    }
    let mut suffix = String::new();
    let mut i: usize = start;
    while i < chars.len()
        invariant
            chars@ == url@,
            start <= i <= chars.len(),
            suffix@ =~= url@.subrange(start as int, i as int),
        decreases chars.len() - i,
    {
        crate::text::push_char(&mut suffix, chars[i]);
        i = i + 1;
    }
    suffix
}

/// The Invidious query that finds the channel of `url`, and whether it is
/// a search by handle; `None` if the address ends neither with a channel id
/// nor with a handle.
pub fn channel_query(url: &str) -> (query: Option<(String, bool)>)
    ensures
        match query {
            Some((q, by_handle)) => spec_channel_query(url@) == Some((q@, by_handle)),
            None => spec_channel_query(url@) is None,
        },
{
    let suffix = channel_suffix(url);
    if starts_with(suffix.as_str(), "UC") {
        let mut q = String::new();
        push_str(&mut q, "/api/v1/channels/");
        push_str(&mut q, suffix.as_str());
        Some((q, false))
    } else if starts_with(suffix.as_str(), "@") {
        let mut q = String::new();
        push_str(&mut q, "/api/v1/search?q=");
        push_str(&mut q, suffix.as_str());
        push_str(&mut q, "&type=channel");
        Some((q, true))
    } else {
        None
    }
}

/// The address of the Invidious search for videos matching `search`.
pub fn video_search_url(instance_uri: &str, search: &str) -> (url: String)
    ensures
        url@ == instance_uri@ + "/api/v1/search?q="@ + search@ + "&type=video"@,
{
    let mut url = String::new();
    push_str(&mut url, instance_uri);
    push_str(&mut url, "/api/v1/search?q=");
    push_str(&mut url, search);
    push_str(&mut url, "&type=video");
    url
}

/// The YouTube address of the video `video_id`.
pub fn video_url(video_id: &str) -> (url: String)
    ensures
        url@ == YOUTUBE_VIDEO_PREFIX@ + video_id@,
{
    let mut url = String::new();
    push_str(&mut url, YOUTUBE_VIDEO_PREFIX);
    push_str(&mut url, video_id);
    url
}

/// The post of the video `video_id`: its address, after `message` and a
/// line break when there is a message.
pub fn video_post(video_id: &str, message: Option<&str>) -> (post: String)
    ensures
        post@ == (match message {
            Some(m) => m@ + "\n"@ + YOUTUBE_VIDEO_PREFIX@ + video_id@,
            None => YOUTUBE_VIDEO_PREFIX@ + video_id@,
        }),
{
    let url = video_url(video_id);
    match message {
        Some(m) => {
            let mut post = String::new();
            push_str(&mut post, m);
            push_str(&mut post, "\n");
            push_str(&mut post, url.as_str());
            post
        },
        None => url,
    }
}

/// The message that announces a new video of `channel_name`.
pub fn new_video_message(channel_name: &str) -> (message: String)
    ensures
        message@ == "New video from **"@ + channel_name@ + "** !!!"@,
{
    let mut message = String::new();
    push_str(&mut message, "New video from **");
    push_str(&mut message, channel_name);
    push_str(&mut message, "** !!!");
    message
}

/// The expiry of a subscription taken at `now`.
pub fn expiry_from(now: i128) -> (expire_on: i128)
    requires
        now + EXPIRATION_DAYS * DAY_NANOS <= i128::MAX,
    ensures
        expire_on == now + EXPIRATION_DAYS * DAY_NANOS,
{
    now + (EXPIRATION_DAYS as i128) * DAY_NANOS
}

/// Whether a subscription expiring at `expire_on` is renewed at `now`: once
/// less than a day is left.
pub open spec fn due_for_renewal(expire_on: i128, now: i128) -> bool {
    now > expire_on - DAY_NANOS
}

/// The channel ids renewed at `now`, in the order of `subs`, each once.
pub open spec fn spec_renewals(subs: Seq<(Seq<char>, i128)>, now: i128) -> Seq<Seq<char>>
    decreases subs.len(),
{
    if subs.len() == 0 {
        seq![]
    } else {
        let done = spec_renewals(subs.drop_last(), now);
        let (id, expire_on) = subs.last();
        if due_for_renewal(expire_on, now) && !done.contains(id) {
            done.push(id)
        } else {
            done
        }
    }
}

/// Whether some subscription of the channel `id` has less than a day left at `now`.
pub open spec fn has_due_subscription(subs: Seq<(Seq<char>, i128)>, id: Seq<char>, now: i128) -> bool {
    exists|j: int| 0 <= j < subs.len() && #[trigger] subs[j].0 == id && due_for_renewal(subs[j].1, now)
}

/// Each channel is renewed at most once, only if one of its subscriptions
/// has less than a day left, and every such channel is renewed.
pub proof fn lemma_renewals_law(subs: Seq<(Seq<char>, i128)>, now: i128)
    ensures
        spec_renewals(subs, now).no_duplicates(),
        forall|k: int| 0 <= k < spec_renewals(subs, now).len()
            ==> has_due_subscription(subs, #[trigger] spec_renewals(subs, now)[k], now),
        forall|j: int| 0 <= j < subs.len() && due_for_renewal(#[trigger] subs[j].1, now)
            ==> spec_renewals(subs, now).contains(subs[j].0),
    decreases subs.len(),
{
    if subs.len() > 0 {
        let pre = subs.drop_last();
        lemma_renewals_law(pre, now);
        let done = spec_renewals(pre, now);
        let r = spec_renewals(subs, now);
        let n = subs.len() - 1;
        assert forall|j: int| 0 <= j < n implies #[trigger] subs[j] == pre[j] by {}
        let (id, expire_on) = subs.last();
        if due_for_renewal(expire_on, now) && !done.contains(id) {
            assert(r == done.push(id));
            assert forall|a: int, b: int| 0 <= a < b < r.len() implies r[a] != r[b] by {
                if b == done.len() {
                    assert(r[a] == done[a]);
                }
            }
            assert forall|k: int| 0 <= k < r.len() implies has_due_subscription(subs, #[trigger] r[k], now) by {
                if k == done.len() {
                    assert(subs[n].0 == r[k]);
                } else {
                    assert(r[k] == done[k]);
                    assert(has_due_subscription(pre, done[k], now));
                    let j = choose|j: int| 0 <= j < pre.len() && #[trigger] pre[j].0 == done[k] && due_for_renewal(pre[j].1, now);
                    assert(subs[j] == pre[j]);
                }
            }
            assert forall|j: int| 0 <= j < subs.len() && due_for_renewal(#[trigger] subs[j].1, now) implies r.contains(subs[j].0) by {
                if j == n {
                    assert(r[done.len() as int] == id);
                } else {
                    assert(subs[j] == pre[j]);
                    assert(done.contains(pre[j].0));
                    let k = choose|k: int| 0 <= k < done.len() && done[k] == pre[j].0;
                    assert(r[k] == done[k]);
                }
            }
        } else {
            assert(r == done);
            assert forall|k: int| 0 <= k < r.len() implies has_due_subscription(subs, #[trigger] r[k], now) by {
                assert(has_due_subscription(pre, done[k], now));
                let j = choose|j: int| 0 <= j < pre.len() && #[trigger] pre[j].0 == done[k] && due_for_renewal(pre[j].1, now);
                assert(subs[j] == pre[j]);
            }
            assert forall|j: int| 0 <= j < subs.len() && due_for_renewal(#[trigger] subs[j].1, now) implies r.contains(subs[j].0) by {
                if j < n {
                    assert(subs[j] == pre[j]);
                }
            }
        }
    }
}

/// The subscriptions as (channel id, expiry).
pub open spec fn sub_keys(subs: Seq<SubYtChannel>) -> Seq<(Seq<char>, i128)> {
    subs.map_values(|s: SubYtChannel| (s.yt_channel_id@, s.expire_on))
}

/// Whether `ids` holds `id`.
fn holds(ids: &Vec<String>, id: &String) -> (b: bool)
    ensures
        b == ids@.map_values(|s: String| s@).contains(id@),
{
    let ghost v = ids@.map_values(|s: String| s@);
    let mut i: usize = 0;
    while i < ids.len()
        invariant
            i <= ids.len(),
            v == ids@.map_values(|s: String| s@),
            forall|k: int| 0 <= k < i ==> v[k] != id@,
        decreases ids.len() - i,
    {
        if ids[i] == *id {
            assert(v[i as int] == id@);
            return true;
        }
        i = i + 1;
    }
    false
}

/// The channels whose subscription is renewed at `now`: those with less
/// than a day left, each channel once, in the order of `subs`.
pub fn renewals(subs: &Vec<SubYtChannel>, now: i128) -> (ids: Vec<String>)
    requires
        forall|i: int| 0 <= i < subs.len() ==> #[trigger] subs[i].expire_on >= i128::MIN + DAY_NANOS,
    ensures
        ids@.map_values(|s: String| s@) == spec_renewals(sub_keys(subs@), now),
{
    let ghost keys = sub_keys(subs@);
    let mut ids: Vec<String> = Vec::new();
    let mut i: usize = 0;
    while i < subs.len()
        invariant
            i <= subs.len(),
            keys == sub_keys(subs@),
            forall|k: int| 0 <= k < subs.len() ==> #[trigger] subs[k].expire_on >= i128::MIN + DAY_NANOS,
            ids@.map_values(|s: String| s@) == spec_renewals(keys.take(i as int), now),
        decreases subs.len() - i,
    {
        let sub = &subs[i];
        proof {
            assert(keys.take(i + 1).drop_last() =~= keys.take(i as int));
            assert(keys.take(i + 1).last() == keys[i as int]);
        }
        if now > sub.expire_on - DAY_NANOS && !holds(&ids, &sub.yt_channel_id) {
            let ghost before = ids@;
            ids.push(sub.yt_channel_id.clone());
            proof {
                assert(ids@.map_values(|s: String| s@) =~= before.map_values(|s: String| s@).push(keys[i as int].0));
            }
        }
        i = i + 1;
    }
    assert(keys.take(subs.len() as int) =~= keys);
    ids
}

/// The names of the channels that the guild `guild_id` follows, in order.
pub open spec fn spec_guild_sub_names(subs: Seq<SubYtChannel>, guild_id: u64) -> Seq<Seq<char>>
    decreases subs.len(),
{
    if subs.len() == 0 {
        seq![]
    } else {
        let rest = spec_guild_sub_names(subs.drop_last(), guild_id);
        if subs.last().guild_id == guild_id {
            rest.push(subs.last().yt_channel_name@)
        } else {
            rest
        }
    }
}

/// The text of `/yt list`: the names of the channels that the guild
/// follows, one per line.
pub open spec fn spec_sub_list_text(names: Seq<Seq<char>>) -> Seq<char> {
    "**List of subscribed channels:**\n>>> "@ + joined(names, "\n"@)
}

/// The text of `/yt list` for the guild `guild_id`.
pub fn sub_list_text(subs: &Vec<SubYtChannel>, guild_id: u64) -> (text: String)
    ensures
        text@ == spec_sub_list_text(spec_guild_sub_names(subs@, guild_id)),
{
    let mut names: Vec<String> = Vec::new();
    let mut i: usize = 0;
    while i < subs.len()
        invariant
            i <= subs.len(),
            names@.map_values(|s: String| s@) == spec_guild_sub_names(subs@.take(i as int), guild_id),
        decreases subs.len() - i,
    {
        proof {
            assert(subs@.take(i + 1).drop_last() =~= subs@.take(i as int));
            assert(subs@.take(i + 1).last() == subs@[i as int]);
        }
        if subs[i].guild_id == guild_id {
            let ghost before = names@;
            names.push(subs[i].yt_channel_name.clone());
            proof {
                assert(names@.map_values(|s: String| s@) =~= before.map_values(|s: String| s@).push(subs@[i as int].yt_channel_name@));
            }
        }
        i = i + 1;
    }
    assert(subs@.take(subs.len() as int) =~= subs@);
    let body = join(&names, "\n");
    let mut text = String::new();
    push_str(&mut text, "**List of subscribed channels:**\n>>> ");
    push_str(&mut text, body.as_str());
    text
}

/// The address of the hub's page about the subscription of `callback` to
/// the channel `id`.
pub fn sub_details_text(callback: &str, id: &str) -> (text: String)
    ensures
        text@ == "https://pubsubhubbub.appspot.com/subscription-details?hub.callback="@ + callback@
            + "&hub.topic="@ + "https://www.youtube.com/xml/feeds/videos.xml?channel_id="@ + id@
            + "&hub.secret="@,
{
    let mut text = String::new();
    push_str(&mut text, "https://pubsubhubbub.appspot.com/subscription-details?hub.callback=");
    push_str(&mut text, callback);
    push_str(&mut text, "&hub.topic=");
    push_str(&mut text, "https://www.youtube.com/xml/feeds/videos.xml?channel_id=");
    push_str(&mut text, id);
    push_str(&mut text, "&hub.secret=");
    text
}

} // verus!
