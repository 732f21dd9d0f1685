use valeriyya::guild::{
    ActionTypes, Case, CaseUpdateAction, CaseUpdateValue, GuildDb, GuildDbChannels, GuildDbRoles,
    Reminder,
};
use valeriyya::moderation::{
    case_description, check_reference, compare_role_position, default_case_reason,
    member_managable, ReferenceCheck,
};
use valeriyya::util::reminders_response;
use valeriyya::settings::{apply_channel_setting, apply_role_setting, ChannelTypeChoices, RoleTypeChoices};

fn case(id: u32, action: ActionTypes) -> Case {
    Case {
        id,
        action,
        guild_id: "g".to_string(),
        staff_id: "s".to_string(),
        target_id: "t".to_string(),
        date: 0,
        reason: "initial".to_string(),
        reference: None,
        expiration: None,
        message: None,
    }
}

fn reminder(id: u32, user: u64, due: i64) -> Reminder {
    Reminder {
        id,
        user,
        message: format!("reminder {}", id),
        datetime: due,
        created_at: 0,
        channel: 9,
    }
}

#[test]
fn add_cases_advances_the_counter() {
    let db = GuildDb::default();
    let db = db.add_cases(case(1, ActionTypes::Ban));
    let db = db.add_cases(case(2, ActionTypes::Kick));
    assert_eq!(db.cases_number, 2);
    assert_eq!(db.cases.len(), 2);
    assert_eq!(db.cases[0].id, 1);
    assert_eq!(db.cases[1].id, 2);
}

#[test]
fn update_case_reason_touches_only_that_case() {
    let db = GuildDb::default()
        .add_cases(case(1, ActionTypes::Ban))
        .add_cases(case(2, ActionTypes::Mute));
    let db = db.update_case(
        2,
        CaseUpdateAction::Reason,
        CaseUpdateValue { reason: Some("spamming".to_string()), reference: None },
    );
    assert_eq!(db.cases[1].reason, "spamming");
    assert_eq!(db.cases[0].reason, "initial");
}

#[test]
fn update_case_reference_sets_the_reference() {
    let db = GuildDb::default()
        .add_cases(case(1, ActionTypes::Ban))
        .add_cases(case(2, ActionTypes::Ban));
    let db = db.update_case(
        1,
        CaseUpdateAction::Reference,
        CaseUpdateValue { reason: None, reference: Some(2) },
    );
    assert_eq!(db.cases[0].reference, Some(2));
    assert_eq!(db.cases[1].reference, None);
}

#[test]
fn get_case_and_delete_cases() {
    let db = GuildDb::default()
        .add_cases(case(1, ActionTypes::Ban))
        .add_cases(case(2, ActionTypes::Kick));
    assert_eq!(db.get_case(2).expect("case 2 exists").id, 2);
    assert!(db.get_case(3).is_none());
    let db = db.delete_cases(0);
    assert_eq!(db.cases.len(), 1);
    assert_eq!(db.cases[0].id, 2);
    // deleting does not roll the counter back
    assert_eq!(db.cases_number, 2);
}

#[test]
fn delete_case_by_id_finds_the_case() {
    let db = GuildDb::default()
        .add_cases(case(1, ActionTypes::Ban))
        .add_cases(case(2, ActionTypes::Kick))
        .add_cases(case(3, ActionTypes::Mute));
    let db = db.delete_case_by_id(2).expect("case 2 exists");
    assert_eq!(db.cases.len(), 2);
    assert_eq!(db.cases[0].id, 1);
    assert_eq!(db.cases[1].id, 3);
    assert!(db.delete_case_by_id(2).is_none());
}

#[test]
fn reference_check_every_outcome() {
    let db = GuildDb::default()
        .add_cases(case(1, ActionTypes::Ban))
        .add_cases(case(2, ActionTypes::Ban));
    assert_eq!(check_reference(&db, 8, 9), ReferenceCheck::BothMissing);
    assert_eq!(check_reference(&db, 1, 9), ReferenceCheck::ReferenceMissing);
    assert_eq!(check_reference(&db, 8, 2), ReferenceCheck::CaseMissing);
    assert_eq!(check_reference(&db, 1, 1), ReferenceCheck::SameCase);
    assert_eq!(check_reference(&db, 1, 2), ReferenceCheck::Valid);
}

#[test]
fn reminders_filtered_by_user_and_due_time() {
    let db = GuildDb::default()
        .add_reminder(reminder(1, 10, 100))
        .add_reminder(reminder(2, 11, 200))
        .add_reminder(reminder(3, 10, 300));
    let mine = db.get_reminders_for_user(10);
    assert_eq!(mine.len(), 2);
    assert_eq!(mine[0].id, 1);
    assert_eq!(mine[1].id, 3);

    let due = db.get_due_reminders(200);
    assert_eq!(due.len(), 2);
    assert_eq!(due[0].id, 1);
    assert_eq!(due[1].id, 2);

    assert_eq!(db.get_reminder_by_id(2).expect("exists").user, 11);
    assert!(db.get_reminder_by_id(9).is_none());
}

#[test]
fn remove_reminder_drops_exactly_that_id() {
    let db = GuildDb::default()
        .add_reminder(reminder(1, 10, 100))
        .add_reminder(reminder(2, 10, 200))
        .add_reminder(reminder(3, 10, 300));
    let db = db.remove_reminder(2);
    assert_eq!(db.reminders.len(), 2);
    assert_eq!(db.reminders[0].id, 1);
    assert_eq!(db.reminders[1].id, 3);
}

#[test]
fn schedule_reminder_numbers_and_times_it() {
    let db = GuildDb::default();
    let db = db.schedule_reminder(77, 88, "water the plants".to_string(), 1_000, 3_600);
    assert_eq!(db.reminder_count, 1);
    assert_eq!(db.reminders.len(), 1);
    let r = &db.reminders[0];
    assert_eq!(r.id, 1);
    assert_eq!(r.user, 77);
    assert_eq!(r.channel, 88);
    assert_eq!(r.created_at, 1_000);
    assert_eq!(r.datetime, 4_600);
}

#[test]
fn schedule_reminder_from_parsed_duration_text() {
    // the shell parses the text ("2h 30m" is 9000 seconds) and hands
    // the library plain seconds
    let secs = humantime::parse_duration("2h 30m").expect("a plain duration parses").as_secs();
    assert_eq!(secs, 9_000);
    let db = GuildDb::default().schedule_reminder(1, 2, "tea".to_string(), 1_000, secs);
    assert_eq!(db.reminders[0].datetime, 1_000 + 9_000);

    assert!(humantime::parse_duration("soonish").is_err());
}

#[test]
fn channel_setters_touch_one_field() {
    let c = GuildDbChannels::default()
        .set_logs_channel(Some("100".to_string()))
        .set_welcome_channel(Some("200".to_string()))
        .set_starboard_channel(Some("300".to_string()));
    assert_eq!(c.logs.as_deref(), Some("100"));
    assert_eq!(c.welcome.as_deref(), Some("200"));
    assert_eq!(c.starboard.as_deref(), Some("300"));
    let r = GuildDbRoles::default().set_staff_role(Some("400".to_string()));
    assert_eq!(r.staff.as_deref(), Some("400"));
}

#[test]
fn channel_setting_replaces_the_whole_channels_struct() {
    let db = GuildDb::default().set_channels(
        GuildDbChannels::default().set_welcome_channel(Some("200".to_string())),
    );
    let db = apply_channel_setting(db, ChannelTypeChoices::Logs, "100".to_string());
    assert_eq!(db.channels.logs.as_deref(), Some("100"));
    // the settings command rebuilds the struct from default
    assert_eq!(db.channels.welcome, None);
    assert_eq!(db.channels.starboard, None);
}

#[test]
fn role_setting_stores_staff_and_ignores_mute() {
    let db = apply_role_setting(GuildDb::default(), RoleTypeChoices::Staff, "5".to_string());
    assert_eq!(db.roles.staff.as_deref(), Some("5"));
    let db = apply_role_setting(db, RoleTypeChoices::Mute, "6".to_string());
    assert_eq!(db.roles.staff.as_deref(), Some("5"));
}

#[test]
fn case_descriptions_per_action() {
    let plain = case(4, ActionTypes::Ban);
    assert_eq!(
        case_description("user#1", &plain),
        "Member: `user#1`\nAction: `Ban`\nReason: `initial`"
    );

    let mut muted = case(5, ActionTypes::Mute);
    muted.expiration = Some(1_700_000_000);
    muted.reference = Some(4);
    assert_eq!(
        case_description("user#2", &muted),
        "Member: `user#2`\nAction: `Mute`\nReason: `initial`\nExpiration: <t:1700000000:R>\nReference: `4`"
    );

    // a non-mute never shows an expiration, even if one is recorded
    let mut kicked = case(6, ActionTypes::Kick);
    kicked.expiration = Some(1_700_000_000);
    assert_eq!(
        case_description("user#3", &kicked),
        "Member: `user#3`\nAction: `Kick`\nReason: `initial`"
    );

    // the placeholder reason names the case number
    assert_eq!(
        default_case_reason(5),
        "Use /reason 5 <...reason> to set a reason for this case."
    );
}

#[test]
fn reminder_listing_response() {
    let rs = vec![reminder(1, 10, 100), reminder(2, 10, 200)];
    assert_eq!(
        reminders_response(&rs),
        "Here are your reminders:\n\
         ID: 1 - Message: reminder 1 - Time: <t:100:R>\n\
         ID: 2 - Message: reminder 2 - Time: <t:200:R>\n"
    );
}

#[test]
fn role_comparison_positions_then_ids() {
    assert_eq!(compare_role_position(Some((5, 10)), Some((3, 20))), 2);
    assert_eq!(compare_role_position(Some((3, 10)), Some((5, 20))), -2);
    // equal positions: the younger (larger) id loses
    assert_eq!(compare_role_position(Some((4, 10)), Some((4, 30))), 20);
    assert_eq!(compare_role_position(None, Some((4, 30))), 0);
    assert_eq!(compare_role_position(Some((4, 30)), None), 0);
}

#[test]
fn managability_rules() {
    // the owner and the bot itself are never managable
    assert!(!member_managable(1, 1, 2, Some((9, 1)), Some((1, 2))));
    assert!(!member_managable(2, 1, 2, Some((9, 1)), Some((1, 2))));
    // the bot owning the guild manages anyone else
    assert!(member_managable(3, 2, 2, None, None));
    // otherwise the bot's highest role must outrank the member's
    assert!(member_managable(3, 1, 2, Some((9, 1)), Some((4, 2))));
    assert!(!member_managable(3, 1, 2, Some((4, 1)), Some((9, 2))));
    assert!(!member_managable(3, 1, 2, None, Some((9, 2))));
}
