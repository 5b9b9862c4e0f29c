//! Mention roles: roles that members pick for themselves from a menu.

use vstd::prelude::*;

use crate::text::{join, joined, push_str, same_text};

verus! {

/// Whether `ids` holds `id`.
pub fn holds_id(ids: &Vec<u64>, id: u64) -> (b: bool)
    ensures
        b == ids@.contains(id),
{
    let mut i: usize = 0;
    while i < ids.len()
        invariant
            i <= ids.len(),
            forall|k: int| 0 <= k < i ==> ids@[k] != id,
        decreases ids.len() - i,
    {
        if ids[i] == id {
            assert(ids@[i as int] == id);
            return true;
        }
        i = i + 1;
    }
    false
}

/// The ids of the roles called `name`, in order.
pub open spec fn spec_roles_named(roles: Seq<(u64, Seq<char>)>, name: Seq<char>) -> Seq<u64>
    decreases roles.len(),
{
    if roles.len() == 0 {
        seq![]
    } else {
        let rest = spec_roles_named(roles.drop_last(), name);
        if roles.last().1 == name {
            rest.push(roles.last().0)
        } else {
            rest
        }
    }
}

/// The roles as (id, name).
pub open spec fn role_views(roles: Seq<(u64, String)>) -> Seq<(u64, Seq<char>)> {
    roles.map_values(|r: (u64, String)| (r.0, r.1@))
}

/// The ids of the roles of the guild called `name`, in order.
pub fn roles_named(roles: &Vec<(u64, String)>, name: &str) -> (ids: Vec<u64>)
    ensures
        ids@ == spec_roles_named(role_views(roles@), name@),
{
    let ghost v = role_views(roles@);
    let mut ids: Vec<u64> = Vec::new();
    let mut i: usize = 0;
    while i < roles.len()
        invariant
            i <= roles.len(),
            v == role_views(roles@),
            ids@ == spec_roles_named(v.take(i as int), name@),
        decreases roles.len() - i,
    {
        proof {
            assert(v.take(i + 1).drop_last() =~= v.take(i as int));
            assert(v.take(i + 1).last() == v[i as int]);
        }
        if same_text(roles[i].1.as_str(), name) {
            ids.push(roles[i].0);
        }
        i = i + 1;
    }
    assert(v.take(roles.len() as int) =~= v);
    ids
}

/// The names of the roles whose id is a mention role, in order.
pub open spec fn spec_mention_role_names(roles: Seq<(u64, Seq<char>)>, mention_ids: Seq<u64>) -> Seq<Seq<char>>
    decreases roles.len(),
{
    if roles.len() == 0 {
        seq![]
    } else {
        let rest = spec_mention_role_names(roles.drop_last(), mention_ids);
        if mention_ids.contains(roles.last().0) {
            rest.push(roles.last().1)
        } else {
            rest
        }
    }
}

/// The names of the guild's roles that are mention roles, in order.
pub fn mention_role_names(roles: &Vec<(u64, String)>, mention_ids: &Vec<u64>) -> (names: Vec<String>)
    ensures
        names@.map_values(|s: String| s@) == spec_mention_role_names(role_views(roles@), mention_ids@),
{
    let ghost v = role_views(roles@);
    let mut names: Vec<String> = Vec::new();
    let mut i: usize = 0;
    while i < roles.len()
        invariant
            i <= roles.len(),
            v == role_views(roles@),
            names@.map_values(|s: String| s@) == spec_mention_role_names(v.take(i as int), mention_ids@),
        decreases roles.len() - i,
    {
        proof {
            assert(v.take(i + 1).drop_last() =~= v.take(i as int));
            assert(v.take(i + 1).last() == v[i as int]);
        }
        if holds_id(mention_ids, roles[i].0) {
            let ghost before = names@;
            names.push(roles[i].1.clone());
            proof {
                assert(names@.map_values(|s: String| s@) =~= before.map_values(|s: String| s@).push(v[i as int].1));
            }
        }
        i = i + 1;
    }
    assert(v.take(roles.len() as int) =~= v);
    names
}

/// For each mention role, whether the member already has it: the menu
/// selects those by default.
pub fn default_selections(mention_ids: &Vec<u64>, member_roles: &Vec<u64>) -> (selected: Vec<bool>)
    ensures
        selected@.len() == mention_ids@.len(),
        forall|i: int| 0 <= i < mention_ids@.len() ==> #[trigger] selected@[i] == member_roles@.contains(mention_ids@[i]),
{
    let mut selected: Vec<bool> = Vec::new();
    let mut i: usize = 0;
    while i < mention_ids.len()
        invariant
            i <= mention_ids.len(),
            selected@.len() == i,
            forall|k: int| 0 <= k < i ==> #[trigger] selected@[k] == member_roles@.contains(mention_ids@[k]),
        decreases mention_ids.len() - i,
    {
        let has = holds_id(member_roles, mention_ids[i]);
        selected.push(has);
        i = i + 1;
    }
    selected
}

/// The mention roles to take away: those the member has and did not pick.
pub open spec fn spec_roles_to_remove(mention_ids: Seq<u64>, picked: Seq<u64>, member_roles: Seq<u64>) -> Seq<u64>
    decreases mention_ids.len(),
{
    if mention_ids.len() == 0 {
        seq![]
    } else {
        let rest = spec_roles_to_remove(mention_ids.drop_last(), picked, member_roles);
        let r = mention_ids.last();
        if !picked.contains(r) && member_roles.contains(r) {
            rest.push(r)
        } else {
            rest
        }
    }
}

/// A role is taken away exactly when it is a mention role that the member
/// has and did not pick; each one at most as often as it is listed among
/// the mention roles, in their order.
pub proof fn lemma_removed_roles(mention_ids: Seq<u64>, picked: Seq<u64>, member_roles: Seq<u64>)
    ensures
        forall|r: u64| #[trigger] spec_roles_to_remove(mention_ids, picked, member_roles).contains(r) <==> (
            mention_ids.contains(r) && !picked.contains(r) && member_roles.contains(r)),
        spec_roles_to_remove(mention_ids, picked, member_roles).len() <= mention_ids.len(),
    decreases mention_ids.len(),
{
    if mention_ids.len() > 0 {
        let rest = mention_ids.drop_last();
        let last = mention_ids.last();
        lemma_removed_roles(rest, picked, member_roles);
        let removed = spec_roles_to_remove(mention_ids, picked, member_roles);
        let before = spec_roles_to_remove(rest, picked, member_roles);
        assert forall|r: u64| removed.contains(r) <==> (mention_ids.contains(r) && !picked.contains(r)
            && member_roles.contains(r)) by {
            assert(mention_ids =~= rest.push(last));
            if mention_ids.contains(r) {
                let k = choose|k: int| 0 <= k < mention_ids.len() && mention_ids[k] == r;
                if k < rest.len() {
                    assert(rest[k] == r);
                }
            }
            if rest.contains(r) {
                let k = choose|k: int| 0 <= k < rest.len() && rest[k] == r;
                assert(mention_ids[k] == r);
            }
            if !picked.contains(last) && member_roles.contains(last) {
                assert(removed == before.push(last));
                assert(removed[before.len() as int] == last);
                if before.contains(r) {
                    let k = choose|k: int| 0 <= k < before.len() && before[k] == r;
                    assert(removed[k] == r);
                }
                if removed.contains(r) {
                    let k = choose|k: int| 0 <= k < removed.len() && removed[k] == r;
                    if k < before.len() {
                        assert(before[k] == r);
                    }
                }
            }
            assert(mention_ids[mention_ids.len() - 1] == last);
        }
    }
}

/// The mention roles to take away from a member who picked `picked`: those
/// he has and did not pick, in the order of the mention roles.
pub fn roles_to_remove(mention_ids: &Vec<u64>, picked: &Vec<u64>, member_roles: &Vec<u64>) -> (removed: Vec<u64>)
    ensures
        removed@ == spec_roles_to_remove(mention_ids@, picked@, member_roles@),
        forall|r: u64| #[trigger] removed@.contains(r) <==> (mention_ids@.contains(r) && !picked@.contains(r)
            && member_roles@.contains(r)),
{
    let mut removed: Vec<u64> = Vec::new();
    let mut i: usize = 0;
    while i < mention_ids.len()
        invariant
            i <= mention_ids.len(),
            removed@ == spec_roles_to_remove(mention_ids@.take(i as int), picked@, member_roles@),
        decreases mention_ids.len() - i,
    {
        let r = mention_ids[i];
        proof {
            assert(mention_ids@.take(i + 1).drop_last() =~= mention_ids@.take(i as int));
            assert(mention_ids@.take(i + 1).last() == r);
        }
        if !holds_id(picked, r) && holds_id(member_roles, r) {
            removed.push(r);
        }
        i = i + 1;
    }
    assert(mention_ids@.take(mention_ids.len() as int) =~= mention_ids@);
    proof {
        lemma_removed_roles(mention_ids@, picked@, member_roles@);
    }
    removed
}

/// The answer after the roles were changed.
pub fn roles_summary(assigned: &Vec<String>, removed: &Vec<String>) -> (text: String)
    ensures
        text@ == "Roles assigned: "@ + joined(assigned@.map_values(|s: String| s@), ", "@)
            + "\nRoles removed: "@ + joined(removed@.map_values(|s: String| s@), ", "@),
{
    let mut text = String::new();
    push_str(&mut text, "Roles assigned: ");
    let a = join(assigned, ", ");
    push_str(&mut text, a.as_str());
    push_str(&mut text, "\nRoles removed: ");
    let r = join(removed, ", ");
    push_str(&mut text, r.as_str());
    text
}

} // verus!
