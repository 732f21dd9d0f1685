//! The per-guild document: moderation cases, member history, reminders,
//! and the configured channels and roles. Pure data and the rules that
//! update it; reading and writing the backing document store is the
//! caller's business.

use vstd::prelude::*;

verus! {

broadcast use vstd::prelude::Seq::lemma_filter_push;

/// Channels a guild has configured for the bot's outgoing messages.
#[derive(Debug, Default)]
pub struct GuildDbChannels {
    pub logs: Option<String>,
    pub welcome: Option<String>,
    pub starboard: Option<String>,
}

/// Roles a guild has configured for the bot's permission checks.
#[derive(Debug, Default)]
pub struct GuildDbRoles {
    pub staff: Option<String>,
}

/// A scheduled reminder, times in wall-clock epoch seconds.
#[derive(Debug)]
pub struct Reminder {
    pub id: u32,
    pub user: u64,
    pub message: String,
    pub datetime: i64,
    pub created_at: i64,
    pub channel: u64,
}

/// The moderation actions a case can record.
#[derive(Debug, Clone, Copy, PartialEq, Eq, Structural)]
pub enum ActionTypes {
    Ban,
    Unban,
    Kick,
    Mute,
}

/// One moderation case.
#[derive(Debug)]
pub struct Case {
    pub id: u32,
    pub action: ActionTypes,
    pub guild_id: String,
    pub staff_id: String,
    pub target_id: String,
    pub date: i64,
    pub reason: String,
    pub reference: Option<u32>,
    pub expiration: Option<i64>,
    pub message: Option<String>,
}

/// Per-member tallies of past moderation actions.
#[derive(Debug)]
pub struct History {
    pub id: String,
    pub ban: u16,
    pub kick: u16,
    pub mute: u16,
}

/// Which field of a case an update touches.
pub enum CaseUpdateAction {
    Reason,
    Reference,
}

/// The value for a case update; the field matching the action is set.
pub struct CaseUpdateValue {
    pub reason: Option<String>,
    pub reference: Option<u32>,
}

/// The whole per-guild document.
#[derive(Debug, Default)]
pub struct GuildDb {
    pub gid: String,
    pub cases: Vec<Case>,
    pub cases_number: u32,
    pub history: Vec<History>,
    pub channels: GuildDbChannels,
    pub roles: GuildDbRoles,
    pub reminders: Vec<Reminder>,
    pub reminder_count: u32,
}

impl GuildDbChannels {
    /// Set the channel that receives moderation log messages.
    pub fn set_logs_channel(self, logs: Option<String>) -> (r: Self)
        ensures
            r.logs == logs,
            r.welcome == self.welcome,
            r.starboard == self.starboard,
    {
        let mut c = self;
        c.logs = logs;
        c
    }

    /// Set the channel that greets joining members.
    pub fn set_welcome_channel(self, welcome: Option<String>) -> (r: Self)
        ensures
            r.welcome == welcome,
            r.logs == self.logs,
            r.starboard == self.starboard,
    {
        let mut c = self;
        c.welcome = welcome;
        c
    }

    /// Set the channel that starred messages are reposted to.
    pub fn set_starboard_channel(self, starboard: Option<String>) -> (r: Self)
        ensures
            r.starboard == starboard,
            r.logs == self.logs,
            r.welcome == self.welcome,
    {
        let mut c = self;
        c.starboard = starboard;
        c
    }
}

impl GuildDbRoles {
    /// Set the staff role.
    pub fn set_staff_role(self, staff: Option<String>) -> (r: Self)
        ensures
            r.staff == staff,
    {
        let mut c = self;
        c.staff = staff;
        c
    }
}

fn clone_opt_string(o: &Option<String>) -> (r: Option<String>)
    ensures
        r == o,
{
    match o {
        Some(s) => Some(s.clone()),
        None => None,
    }
}

impl Clone for Reminder {
    fn clone(&self) -> (res: Self)
        ensures
            res == *self,
    {
        Reminder {
            id: self.id,
            user: self.user,
            message: self.message.clone(),
            datetime: self.datetime,
            created_at: self.created_at,
            channel: self.channel,
        }
    }
}

impl Clone for Case {
    fn clone(&self) -> (res: Self)
        ensures
            res == *self,
    {
        Case {
            id: self.id,
            action: self.action,
            guild_id: self.guild_id.clone(),
            staff_id: self.staff_id.clone(),
            target_id: self.target_id.clone(),
            date: self.date,
            reason: self.reason.clone(),
            reference: self.reference,
            expiration: self.expiration,
            message: clone_opt_string(&self.message),
        }
    }
}

/// The index of the first case carrying `id`, if any.
pub open spec fn first_case_index(cases: Seq<Case>, id: u32) -> Option<int>
    decreases cases.len(),
{
    if cases.len() == 0 {
        None
    } else if cases[0].id == id {
        Some(0)
    } else {
        match first_case_index(cases.drop_first(), id) {
            Some(i) => Some(i + 1),
            None => None,
        }
    }
}

/// `first_case_index` finds exactly the first index carrying `id`.
pub proof fn lemma_first_case_index(cases: Seq<Case>, id: u32)
    ensures
        match first_case_index(cases, id) {
            Some(i) => 0 <= i < cases.len() && cases[i].id == id && (forall|j: int|
                0 <= j < i ==> cases[j].id != id),
            None => forall|j: int| 0 <= j < cases.len() ==> cases[j].id != id,
        },
    decreases cases.len(),
{
    if cases.len() > 0 && cases[0].id != id {
        lemma_first_case_index(cases.drop_first(), id);
        assert(forall|j: int| 0 < j < cases.len() ==> cases[j] == cases.drop_first()[j - 1]);
    }
}

proof fn lemma_first_case_index_at(cases: Seq<Case>, id: u32, i: int)
    requires
        0 <= i < cases.len(),
        cases[i].id == id,
        forall|j: int| 0 <= j < i ==> cases[j].id != id,
    ensures
        first_case_index(cases, id) == Some(i),
    decreases cases.len(),
{
    if i > 0 {
        lemma_first_case_index_at(cases.drop_first(), id, i - 1);
    }
}

impl GuildDb {
    /// Set the guild identifier.
    pub fn guild_id(self, gid: String) -> (r: Self)
        ensures
            r.gid == gid,
            r.cases == self.cases,
            r.cases_number == self.cases_number,
            r.history == self.history,
            r.channels == self.channels,
            r.roles == self.roles,
            r.reminders == self.reminders,
            r.reminder_count == self.reminder_count,
    {
        let mut db = self;
        db.gid = gid;
        db
    }

    /// Record one more case: the counter advances with it, so case ids
    /// stay unique when callers number new cases `cases_number + 1`.
    pub fn add_cases(self, case: Case) -> (r: Self)
        requires
            self.cases_number < u32::MAX,
        ensures
            r.cases@ == self.cases@.push(case),
            r.cases_number == self.cases_number + 1,
            r.gid == self.gid,
            r.history == self.history,
            r.channels == self.channels,
            r.roles == self.roles,
            r.reminders == self.reminders,
            r.reminder_count == self.reminder_count,
    {
        let mut db = self;
        db.cases_number = db.cases_number + 1;
        db.cases.push(case);
        db
    }

    /// Append a reminder as given.
    pub fn add_reminder(self, reminder: Reminder) -> (r: Self)
        ensures
            r.reminders@ == self.reminders@.push(reminder),
            r.gid == self.gid,
            r.cases == self.cases,
            r.cases_number == self.cases_number,
            r.history == self.history,
            r.channels == self.channels,
            r.roles == self.roles,
            r.reminder_count == self.reminder_count,
    {
        let mut db = self;
        db.reminders.push(reminder);
        db
    }

    /// Drop every reminder carrying `id`.
    pub fn remove_reminder(self, id: u32) -> (r: Self)
        ensures
            r.reminders@ == self.reminders@.filter(|rem: Reminder| rem.id != id),
            r.gid == self.gid,
            r.cases == self.cases,
            r.cases_number == self.cases_number,
            r.history == self.history,
            r.channels == self.channels,
            r.roles == self.roles,
            r.reminder_count == self.reminder_count,
    {
        let mut db = self;
        let mut kept: Vec<Reminder> = Vec::new();
        let n = db.reminders.len();
        let mut i: usize = 0;
        while i < n
            invariant
                n == db.reminders@.len(),
                i <= n,
                kept@ == db.reminders@.take(i as int).filter(|rem: Reminder| rem.id != id),
            decreases n - i,
        {
            let rem = &db.reminders[i];
            proof {
                assert(db.reminders@.take(i as int + 1) =~= db.reminders@.take(i as int).push(
                    db.reminders@[i as int],
                ));
            }
            if rem.id != id {
                kept.push(rem.clone());
            }
            i += 1;
        }
        proof {
            assert(db.reminders@.take(n as int) =~= db.reminders@);
        }
        db.reminders = kept;
        db
    }

    /// Replace the case list.
    pub fn set_cases(self, cases: Vec<Case>) -> (r: Self)
        ensures
            r.cases == cases,
            r.gid == self.gid,
            r.cases_number == self.cases_number,
            r.history == self.history,
            r.channels == self.channels,
            r.roles == self.roles,
            r.reminders == self.reminders,
            r.reminder_count == self.reminder_count,
    {
        let mut db = self;
        db.cases = cases;
        db
    }

    /// Remove the case at `index` (cases keep their order).
    pub fn delete_cases(self, index: usize) -> (r: Self)
        requires
            index < self.cases@.len(),
        ensures
            r.cases@ == self.cases@.remove(index as int),
            r.gid == self.gid,
            r.cases_number == self.cases_number,
            r.history == self.history,
            r.channels == self.channels,
            r.roles == self.roles,
            r.reminders == self.reminders,
            r.reminder_count == self.reminder_count,
    {
        let mut db = self;
        let _ = db.cases.remove(index);
        db
    }

    /// Overwrite the running case counter.
    pub fn set_cases_count(self, cases_number: u32) -> (r: Self)
        ensures
            r.cases_number == cases_number,
            r.gid == self.gid,
            r.cases == self.cases,
            r.history == self.history,
            r.channels == self.channels,
            r.roles == self.roles,
            r.reminders == self.reminders,
            r.reminder_count == self.reminder_count,
    {
        let mut db = self;
        db.cases_number = cases_number;
        db
    }

    /// Replace the history list.
    pub fn set_history(self, history: Vec<History>) -> (r: Self)
        ensures
            r.history == history,
            r.gid == self.gid,
            r.cases == self.cases,
            r.cases_number == self.cases_number,
            r.channels == self.channels,
            r.roles == self.roles,
            r.reminders == self.reminders,
            r.reminder_count == self.reminder_count,
    {
        let mut db = self;
        db.history = history;
        db
    }

    /// Replace the configured channels.
    pub fn set_channels(self, channels: GuildDbChannels) -> (r: Self)
        ensures
            r.channels == channels,
            r.gid == self.gid,
            r.cases == self.cases,
            r.cases_number == self.cases_number,
            r.history == self.history,
            r.roles == self.roles,
            r.reminders == self.reminders,
            r.reminder_count == self.reminder_count,
    {
        let mut db = self;
        db.channels = channels;
        db
    }

    /// Replace the configured roles.
    pub fn set_roles(self, roles: GuildDbRoles) -> (r: Self)
        ensures
            r.roles == roles,
            r.gid == self.gid,
            r.cases == self.cases,
            r.cases_number == self.cases_number,
            r.history == self.history,
            r.channels == self.channels,
            r.reminders == self.reminders,
            r.reminder_count == self.reminder_count,
    {
        let mut db = self;
        db.roles = roles;
        db
    }

    /// Update the first case carrying `case_id`: its reason, or its
    /// reference, per `action`. The case must exist and the value must
    /// carry the field the action asks for.
    pub fn update_case(self, case_id: u32, action: CaseUpdateAction, value: CaseUpdateValue) -> (r:
        Self)
        requires
            first_case_index(self.cases@, case_id) is Some,
            action is Reason ==> value.reason is Some,
            action is Reference ==> value.reference is Some,
        ensures
            ({
                let i = first_case_index(self.cases@, case_id).unwrap();
                let c = self.cases@[i];
                let c2 = match action {
                    CaseUpdateAction::Reason => Case { reason: value.reason.unwrap(), ..c },
                    CaseUpdateAction::Reference => Case {
                        reference: Some(value.reference.unwrap()),
                        ..c
                    },
                };
                r.cases@ == self.cases@.update(i, c2)
            }),
            r.gid == self.gid,
            r.cases_number == self.cases_number,
            r.history == self.history,
            r.channels == self.channels,
            r.roles == self.roles,
            r.reminders == self.reminders,
            r.reminder_count == self.reminder_count,
    {
        proof {
            lemma_first_case_index(self.cases@, case_id);
        }
        let mut db = self;
        let ghost cases0 = db.cases@;
        let i = db.find_case_position(case_id);
        let mut c = db.cases.remove(i);
        match action {
            CaseUpdateAction::Reason => {
                c.reason = value.reason.unwrap();
            },
            CaseUpdateAction::Reference => {
                c.reference = Some(value.reference.unwrap());
            },
        }
        db.cases.insert(i, c);
        proof {
            assert(db.cases@ =~= cases0.update(
                first_case_index(cases0, case_id).unwrap(),
                db.cases@[i as int],
            ));
        }
        db
    }

    /// The position of the first case carrying `id`; the case must
    /// exist.
    fn find_case_position(&self, id: u32) -> (i: usize)
        requires
            first_case_index(self.cases@, id) is Some,
        ensures
            first_case_index(self.cases@, id) == Some(i as int),
    {
        proof {
            lemma_first_case_index(self.cases@, id);
        }
        let n = self.cases.len();
        let mut i: usize = 0;
        while i < n
            invariant
                n == self.cases@.len(),
                i <= n,
                forall|j: int| 0 <= j < i ==> self.cases@[j].id != id,
                first_case_index(self.cases@, id) is Some,
            decreases n - i,
        {
            if self.cases[i].id == id {
                proof {
                    lemma_first_case_index_at(self.cases@, id, i as int);
                }
                return i;
            }
            i += 1;
        }
        proof {
            lemma_first_case_index(self.cases@, id);
            assert(false);
        }
        0
    }

    /// The first case carrying `id`, if any (a copy).
    pub fn get_case(&self, id: u32) -> (r: Option<Case>)
        ensures
            match r {
                Some(c) => first_case_index(self.cases@, id) matches Some(i) && c == self.cases@[i],
                None => first_case_index(self.cases@, id) is None,
            },
    {
        proof {
            lemma_first_case_index(self.cases@, id);
        }
        let n = self.cases.len();
        let mut i: usize = 0;
        while i < n
            invariant
                n == self.cases@.len(),
                i <= n,
                forall|j: int| 0 <= j < i ==> self.cases@[j].id != id,
            decreases n - i,
        {
            if self.cases[i].id == id {
                proof {
                    lemma_first_case_index_at(self.cases@, id, i as int);
                }
                return Some(self.cases[i].clone());
            }
            i += 1;
        }
        None
    }

    /// Remove the first case carrying `id`, as the case-deletion
    /// command does; `None` — nothing changed to keep — when no case
    /// carries it.
    pub fn delete_case_by_id(self, id: u32) -> (r: Option<Self>)
        ensures
            match first_case_index(self.cases@, id) {
                Some(i) => r matches Some(db) && db.cases@ == self.cases@.remove(i) && db.gid
                    == self.gid && db.cases_number == self.cases_number && db.history
                    == self.history && db.channels == self.channels && db.roles == self.roles
                    && db.reminders == self.reminders && db.reminder_count == self.reminder_count,
                None => r is None,
            },
    {
        proof {
            lemma_first_case_index(self.cases@, id);
        }
        if self.get_case(id).is_some() {
            let i = self.find_case_position(id);
            Some(self.delete_cases(i))
        } else {
            None
        }
    }

    /// Every reminder belonging to `user_id`, in stored order.
    pub fn get_reminders_for_user(&self, user_id: u64) -> (r: Vec<Reminder>)
        ensures
            r@ == self.reminders@.filter(|rem: Reminder| rem.user == user_id),
    {
        let mut out: Vec<Reminder> = Vec::new();
        let n = self.reminders.len();
        let mut i: usize = 0;
        while i < n
            invariant
                n == self.reminders@.len(),
                i <= n,
                out@ == self.reminders@.take(i as int).filter(|rem: Reminder| rem.user == user_id),
            decreases n - i,
        {
            proof {
                assert(self.reminders@.take(i as int + 1) =~= self.reminders@.take(i as int).push(
                    self.reminders@[i as int],
                ));
            }
            if self.reminders[i].user == user_id {
                out.push(self.reminders[i].clone());
            }
            i += 1;
        }
        proof {
            assert(self.reminders@.take(n as int) =~= self.reminders@);
        }
        out
    }

    /// The first reminder carrying `id`, if any (a copy).
    pub fn get_reminder_by_id(&self, id: u32) -> (r: Option<Reminder>)
        ensures
            match r {
                Some(rem) => exists|i: int|
                    0 <= i < self.reminders@.len() && self.reminders@[i].id == id && rem
                        == self.reminders@[i],
                None => forall|i: int| 0 <= i < self.reminders@.len() ==> self.reminders@[i].id != id,
            },
    {
        let n = self.reminders.len();
        let mut i: usize = 0;
        while i < n
            invariant
                n == self.reminders@.len(),
                i <= n,
                forall|j: int| 0 <= j < i ==> self.reminders@[j].id != id,
            decreases n - i,
        {
            if self.reminders[i].id == id {
                return Some(self.reminders[i].clone());
            }
            i += 1;
        }
        None
    }

    /// Record a reminder for `user` in `channel`, due `duration_secs`
    /// after `now_epoch`. The reminder takes the next id and the
    /// counter advances with it.
    pub fn schedule_reminder(
        self,
        user: u64,
        channel: u64,
        message: String,
        now_epoch: i64,
        duration_secs: u64,
    ) -> (r: Self)
        requires
            self.reminder_count < u32::MAX,
            0 <= now_epoch,
            now_epoch + duration_secs <= i64::MAX,
        ensures
            r.reminders@ == self.reminders@.push(
                Reminder {
                    id: (self.reminder_count + 1) as u32,
                    user,
                    message,
                    datetime: (now_epoch + duration_secs) as i64,
                    created_at: now_epoch,
                    channel,
                },
            ),
            r.reminder_count == self.reminder_count + 1,
            r.gid == self.gid,
            r.cases == self.cases,
            r.cases_number == self.cases_number,
            r.history == self.history,
            r.channels == self.channels,
            r.roles == self.roles,
    {
        let mut db = self;
        let reminder = Reminder {
            id: db.reminder_count + 1,
            user,
            message,
            datetime: now_epoch + (duration_secs as i64),
            created_at: now_epoch,
            channel,
        };
        db.reminder_count = db.reminder_count + 1;
        db.reminders.push(reminder);
        db
    }

    /// Every reminder due at `now` or earlier, in stored order.
    pub fn get_due_reminders(&self, now: i64) -> (r: Vec<Reminder>)
        ensures
            r@ == self.reminders@.filter(|rem: Reminder| rem.datetime <= now),
    {
        let mut out: Vec<Reminder> = Vec::new();
        let n = self.reminders.len();
        let mut i: usize = 0;
        while i < n
            invariant
                n == self.reminders@.len(),
                i <= n,
                out@ == self.reminders@.take(i as int).filter(|rem: Reminder| rem.datetime <= now),
            decreases n - i,
        {
            proof {
                assert(self.reminders@.take(i as int + 1) =~= self.reminders@.take(i as int).push(
                    self.reminders@[i as int],
                ));
            }
            if self.reminders[i].datetime <= now {
                out.push(self.reminders[i].clone());
            }
            i += 1;
        }
        proof {
            assert(self.reminders@.take(n as int) =~= self.reminders@);
        }
        out
    }
}

} // verus!
