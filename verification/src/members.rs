//! The messages posted when members join or leave a guild.

use vstd::prelude::*;

use crate::text::push_str;

verus! {

/// The welcome message of a member whose mention is `mention`.
pub fn join_message(mention: &str) -> (message: String)
    ensures
        message@ == "A wild **"@ + mention@ + "** appeared !"@,
{
    let mut message = String::new();
    push_str(&mut message, "A wild **");
    push_str(&mut message, mention);
    push_str(&mut message, "** appeared !");
    message
}

/// Whether the member `user_id` who left was kicked: the last entry of the
/// audit log is a kick, aimed at that member.
pub fn was_kicked(last_action_is_kick: bool, target_id: Option<u64>, user_id: u64) -> (kicked: bool)
    ensures
        kicked == (last_action_is_kick && target_id == Some(user_id)),
{
    last_action_is_kick && match target_id {
        Some(id) => id == user_id,
        None => false,
    }
}

/// The farewell message of the member `username`, who was kicked or left.
pub fn leave_message(username: &str, kicked: bool) -> (message: String)
    ensures
        message@ == (if kicked {
            "**"@ + username@ + "** has got his ass out of here!"@
        } else {
            "✝️ RIP en paix **"@ + username@ + "** , un 👼 parti trop tôt 🕯️"@
        }),
{
    let mut message = String::new();
    if kicked {
        push_str(&mut message, "**");
        push_str(&mut message, username);
        push_str(&mut message, "** has got his ass out of here!");
    } else {
        push_str(&mut message, "✝️ RIP en paix **");
        push_str(&mut message, username);
        push_str(&mut message, "** , un 👼 parti trop tôt 🕯️");
    }
    message
}

} // verus!
