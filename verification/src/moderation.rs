//! Decisions of the moderation commands that do not touch the chat
//! platform: whether two cases may reference each other, and whether
//! the bot outranks a member, given the standings the caller looked up.

use vstd::prelude::*;

use crate::guild::{first_case_index, ActionTypes, Case, GuildDb};
use crate::util::{dec_chars, u64_string};

verus! {

/// The outcome of validating a case-reference request.
#[derive(Debug, Clone, Copy, PartialEq, Eq, Structural)]
pub enum ReferenceCheck {
    /// Neither the case nor the reference exists.
    BothMissing,
    /// The case exists, the reference does not.
    ReferenceMissing,
    /// The reference exists, the case does not.
    CaseMissing,
    /// Both ids name the same existing case.
    SameCase,
    /// Both exist and differ: the reference may be recorded.
    Valid,
}

/// Validate a request to record `reference` on `case`.
pub fn check_reference(db: &GuildDb, case: u32, reference: u32) -> (r: ReferenceCheck)
    ensures
        ({
            let c1 = first_case_index(db.cases@, case);
            let c2 = first_case_index(db.cases@, reference);
            r == if c1 is None && c2 is None {
                ReferenceCheck::BothMissing
            } else if c1 is Some && c2 is None {
                ReferenceCheck::ReferenceMissing
            } else if c1 is None && c2 is Some {
                ReferenceCheck::CaseMissing
            } else if case == reference {
                ReferenceCheck::SameCase
            } else {
                ReferenceCheck::Valid
            }
        }),
{
    let found_case = db.get_case(case).is_some();
    let found_reference = db.get_case(reference).is_some();
    if !found_case && !found_reference {
        ReferenceCheck::BothMissing
    } else if found_case && !found_reference {
        ReferenceCheck::ReferenceMissing
    } else if !found_case && found_reference {
        ReferenceCheck::CaseMissing
    } else if case == reference {
        ReferenceCheck::SameCase
    } else {
        ReferenceCheck::Valid
    }
}

/// The placeholder reason a fresh case carries when the staff member
/// gave none: points at the reason command for this case number.
pub fn default_case_reason(case_number: u32) -> (r: String)
    ensures
        r@ == "Use /reason "@ + crate::util::dec_chars(case_number as nat)
            + " <...reason> to set a reason for this case."@,
{
    let out = String::from_str("Use /reason ");
    let digits = crate::util::u64_string(case_number as u64);
    let out = out.concat(digits.as_str());
    let out = out.concat(" <...reason> to set a reason for this case.");
    out
}

/// The display name of a moderation action.
pub open spec fn action_text(a: ActionTypes) -> Seq<char> {
    match a {
        ActionTypes::Ban => "Ban"@,
        ActionTypes::Unban => "Unban"@,
        ActionTypes::Kick => "Kick"@,
        ActionTypes::Mute => "Mute"@,
    }
}

/// The member, action and reason lines every case description starts
/// with.
pub open spec fn spec_case_base(target: Seq<char>, c: Case) -> Seq<char> {
    "Member: `"@ + target + "`\nAction: `"@ + action_text(c.action) + "`\nReason: `"@ + c.reason@
        + "`"@
}

/// The full description of a case: the base lines, an expiration line
/// for a mute with one, and a reference line when one is recorded.
pub open spec fn spec_case_description(target: Seq<char>, c: Case) -> Seq<char> {
    let base = spec_case_base(target, c);
    let with_exp = match (c.action, c.expiration) {
        (ActionTypes::Mute, Some(exp)) => base + "\nExpiration: <t:"@ + dec_chars(exp as nat)
            + ":R>"@,
        _ => base,
    };
    match c.reference {
        Some(rf) => with_exp + "\nReference: `"@ + dec_chars(rf as nat) + "`"@,
        None => with_exp,
    }
}

fn action_label(a: ActionTypes) -> (r: &'static str)
    ensures
        r@ == action_text(a),
{
    match a {
        ActionTypes::Ban => "Ban",
        ActionTypes::Unban => "Unban",
        ActionTypes::Kick => "Kick",
        ActionTypes::Mute => "Mute",
    }
}

/// Build the description the case-display embed carries, from the
/// resolved tag of the case's target and the case itself.
pub fn case_description(target: &str, c: &Case) -> (r: String)
    requires
        c.expiration matches Some(exp) ==> exp >= 0,
    ensures
        r@ == spec_case_description(target@, *c),
{
    let out = String::from_str("Member: `");
    let out = out.concat(target);
    let out = out.concat("`\nAction: `");
    let out = out.concat(action_label(c.action));
    let out = out.concat("`\nReason: `");
    let out = out.concat(c.reason.as_str());
    let mut out = out.concat("`");
    if matches!(c.action, ActionTypes::Mute) {
        if let Some(exp) = c.expiration {
            let out2 = out.concat("\nExpiration: <t:");
            let digits = u64_string(exp as u64);
            let out2 = out2.concat(digits.as_str());
            out = out2.concat(":R>");
        }
    }
    if let Some(rf) = c.reference {
        let out2 = out.concat("\nReference: `");
        let digits = u64_string(rf as u64);
        let out2 = out2.concat(digits.as_str());
        out = out2.concat("`");
    }
    out
}

/// A role's standing: its position in the role list and its id, the id
/// breaking position ties.
pub open spec fn spec_role_order(pos1: u16, id1: u64, pos2: u16, id2: u64) -> int {
    if pos1 == pos2 {
        id2 - id1
    } else {
        pos1 - pos2
    }
}

/// Compare two roles the caller resolved: positive when the first
/// outranks the second, negative the other way, zero when either role
/// could not be resolved. Ids of the chat platform fit in 63 bits.
pub fn compare_role_position(role1: Option<(u16, u64)>, role2: Option<(u16, u64)>) -> (r: i64)
    requires
        role1 matches Some(r1) ==> r1.1 <= i64::MAX,
        role2 matches Some(r2) ==> r2.1 <= i64::MAX,
    ensures
        r == match (role1, role2) {
            (Some(r1), Some(r2)) => spec_role_order(r1.0, r1.1, r2.0, r2.1),
            _ => 0,
        },
{
    match (role1, role2) {
        (Some(r1), Some(r2)) => {
            let (pos1, id1) = r1;
            let (pos2, id2) = r2;
            if pos1 == pos2 {
                (id2 as i64) - (id1 as i64)
            } else {
                (pos1 as i64) - (pos2 as i64)
            }
        },
        _ => 0,
    }
}

/// Whether the bot may manage a member: never the guild owner or the
/// bot itself, always when the bot owns the guild, otherwise only if
/// the bot's highest role outranks the member's.
pub open spec fn spec_managable(
    member_id: u64,
    owner_id: u64,
    bot_id: u64,
    bot_highest: Option<(u16, u64)>,
    member_highest: Option<(u16, u64)>,
) -> bool {
    if member_id == owner_id || member_id == bot_id {
        false
    } else if bot_id == owner_id {
        true
    } else {
        match (bot_highest, member_highest) {
            (Some(b), Some(m)) => spec_role_order(b.0, b.1, m.0, m.1) > 0,
            _ => false,
        }
    }
}

/// Decide managability from the standings the caller looked up: the
/// member's id, the guild owner's, the bot's, and the two highest
/// roles (each `None` when it could not be resolved).
pub fn member_managable(
    member_id: u64,
    owner_id: u64,
    bot_id: u64,
    bot_highest: Option<(u16, u64)>,
    member_highest: Option<(u16, u64)>,
) -> (r: bool)
    requires
        bot_highest matches Some(b) ==> b.1 <= i64::MAX,
        member_highest matches Some(m) ==> m.1 <= i64::MAX,
    ensures
        r == spec_managable(member_id, owner_id, bot_id, bot_highest, member_highest),
{
    if member_id == owner_id || member_id == bot_id {
        false
    } else if bot_id == owner_id {
        true
    } else {
        match (bot_highest, member_highest) {
            (Some(b), Some(m)) => compare_role_position(Some(b), Some(m)) > 0,
            _ => false,
        }
    }
}

} // verus!
