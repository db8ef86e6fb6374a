//! Who may use the bot, and granting access.

use vstd::prelude::*;

verus! {

use crate::config::{AppConfig, TelegramConfig};
use crate::listing::holds_id;
use crate::validation::{is_sorted_set_of, sorted_unique};

pub open spec fn is_admin(config: AppConfig, user_id: u64) -> bool {
    config.telegram.admin_user_ids@.contains(user_id)
}

/// Administrators may use the bot, and so may the users on the list.
pub open spec fn is_allowed(config: AppConfig, user_id: u64) -> bool {
    is_admin(config, user_id) || config.telegram.allowed_user_ids@.contains(user_id)
}

pub fn is_telegram_admin(config: &AppConfig, user_id: u64) -> (r: bool)
    ensures
        r == is_admin(*config, user_id),
{
    holds_id(&config.telegram.admin_user_ids, user_id)
}

pub fn is_telegram_user_allowed(config: &AppConfig, user_id: u64) -> (r: bool)
    ensures
        r == is_allowed(*config, user_id),
{
    is_telegram_admin(config, user_id) || holds_id(&config.telegram.allowed_user_ids, user_id)
}

/// Grants a user access. Nothing changes where the user already has it; otherwise the list of
/// users holds one more, in increasing order, and nobody twice.
pub fn grant_telegram_user_access(config: &mut AppConfig, user_id: u64) -> (added: bool)
    ensures
        added == !is_allowed(*old(config), user_id),
        !added ==> *final(config) == *old(config),
        added ==> {
            let ids = final(config).telegram.allowed_user_ids;
            &&& is_sorted_set_of(ids@, old(config).telegram.allowed_user_ids@.push(user_id))
            &&& *final(config) == (AppConfig {
                telegram: TelegramConfig { allowed_user_ids: ids, ..old(config).telegram },
                ..*old(config)
            })
        },
{
    if is_telegram_user_allowed(config, user_id) {
        return false;
    }
    config.telegram.allowed_user_ids.push(user_id);
    let ids = sorted_unique(&config.telegram.allowed_user_ids);
    config.telegram.allowed_user_ids = ids;
    true
}

/// After a grant the user has access, and everybody who had it keeps it; nobody else gains it.
pub proof fn law_grant_adds_one_user(before: AppConfig, after: AppConfig, user_id: u64, other: u64)
    requires
        after.telegram.admin_user_ids == before.telegram.admin_user_ids,
        is_sorted_set_of(
            after.telegram.allowed_user_ids@,
            before.telegram.allowed_user_ids@.push(user_id),
        ),
    ensures
        is_allowed(after, user_id),
        is_allowed(after, other) <==> is_allowed(before, other) || other == user_id,
        is_admin(after, other) <==> is_admin(before, other),
{
    let old_ids = before.telegram.allowed_user_ids@;
    let new_ids = old_ids.push(user_id);
    assert(new_ids[old_ids.len() as int] == user_id);
    assert(new_ids.contains(user_id));
    assert(after.telegram.allowed_user_ids@.contains(user_id) <==> new_ids.contains(user_id));
    assert(after.telegram.allowed_user_ids@.contains(other) <==> new_ids.contains(other));
    if old_ids.contains(other) {
        let i = choose|i: int| 0 <= i < old_ids.len() && old_ids[i] == other;
        assert(new_ids[i] == other);
    }
    if new_ids.contains(other) && other != user_id {
        let i = choose|i: int| 0 <= i < new_ids.len() && new_ids[i] == other;
        assert(old_ids[i] == other);
    }
}

/// An administrator is whoever stands on the list of administrators; everyone on either list has
/// access, and nobody else has.
pub proof fn law_listed_users_have_access(config: AppConfig, user_id: u64)
    ensures
        (exists|i: int|
            0 <= i < config.telegram.admin_user_ids@.len()
                && config.telegram.admin_user_ids@[i] == user_id) <==> is_admin(config, user_id),
        is_admin(config, user_id) ==> is_allowed(config, user_id),
        config.telegram.allowed_user_ids@.contains(user_id) ==> is_allowed(config, user_id),
        !config.telegram.admin_user_ids@.contains(user_id)
            && !config.telegram.allowed_user_ids@.contains(user_id) ==> !is_allowed(config, user_id),
{
}

} // verus!
