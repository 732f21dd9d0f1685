//! Choice parameters of the command layer and the exact effect each
//! choice has on the guild document.

use vstd::prelude::*;

use crate::guild::{GuildDb, GuildDbChannels, GuildDbRoles};

verus! {

/// What the cases command does with a case.
#[derive(Debug, Clone, Copy, PartialEq, Eq, Structural)]
pub enum OptionChoices {
    Show,
    Delete,
}

/// Which configured channel a settings command changes.
#[derive(Debug, Clone, Copy, PartialEq, Eq, Structural)]
pub enum ChannelTypeChoices {
    Logs,
    Welcome,
    Starboard,
}

/// Which configured role a settings command changes.
#[derive(Debug, Clone, Copy, PartialEq, Eq, Structural)]
pub enum RoleTypeChoices {
    Staff,
    Mute,
}

/// Point the chosen channel setting at `channel_id`. The channels
/// struct is rebuilt from default around the one chosen field, so the
/// command clears the other channel settings along the way.
pub fn apply_channel_setting(db: GuildDb, type_option: ChannelTypeChoices, channel_id: String) -> (r:
    GuildDb)
    ensures
        r.channels == match type_option {
            ChannelTypeChoices::Logs => GuildDbChannels {
                logs: Some(channel_id),
                welcome: None,
                starboard: None,
            },
            ChannelTypeChoices::Welcome => GuildDbChannels {
                logs: None,
                welcome: Some(channel_id),
                starboard: None,
            },
            ChannelTypeChoices::Starboard => GuildDbChannels {
                logs: None,
                welcome: None,
                starboard: Some(channel_id),
            },
        },
        r.gid == db.gid,
        r.cases == db.cases,
        r.cases_number == db.cases_number,
        r.history == db.history,
        r.roles == db.roles,
        r.reminders == db.reminders,
        r.reminder_count == db.reminder_count,
{
    let channels = match type_option {
        ChannelTypeChoices::Logs => GuildDbChannels {
            logs: Some(channel_id),
            welcome: None,
            starboard: None,
        },
        ChannelTypeChoices::Welcome => GuildDbChannels {
            logs: None,
            welcome: Some(channel_id),
            starboard: None,
        },
        ChannelTypeChoices::Starboard => GuildDbChannels {
            logs: None,
            welcome: None,
            starboard: Some(channel_id),
        },
    };
    db.set_channels(channels)
}

/// Point the chosen role setting at `role_id`. Only the staff role is
/// stored; the mute choice is accepted but changes nothing.
pub fn apply_role_setting(db: GuildDb, type_option: RoleTypeChoices, role_id: String) -> (r:
    GuildDb)
    ensures
        r.roles == match type_option {
            RoleTypeChoices::Staff => GuildDbRoles { staff: Some(role_id) },
            RoleTypeChoices::Mute => db.roles,
        },
        r.gid == db.gid,
        r.cases == db.cases,
        r.cases_number == db.cases_number,
        r.history == db.history,
        r.channels == db.channels,
        r.reminders == db.reminders,
        r.reminder_count == db.reminder_count,
{
    match type_option {
        RoleTypeChoices::Staff => db.set_roles(GuildDbRoles { staff: Some(role_id) }),
        RoleTypeChoices::Mute => db,
    }
}

} // verus!
