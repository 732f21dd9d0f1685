//! Per-room playback sessions: an ordered queue of resolved audio items,
//! automatic advance with lifecycle notifications, and idle-based
//! reclamation that can never drop a concurrently enqueued item.

use vstd::prelude::*;

verus! {

/// Seconds a session may sit with an empty queue and nothing playing
/// before an idle sweep is allowed to reclaim it.
pub const IDLE_WINDOW_SECS: u64 = 600;

/// Seconds before the end of the active item at which the next item's
/// audio source should begin preloading.
pub const PRELOAD_MARGIN_SECS: u64 = 15;

/// A resolved, queueable unit of audio with a known duration.
pub struct Video {
    pub id: String,
    pub title: String,
    pub duration_secs: u64,
}

impl Clone for Video {
    fn clone(&self) -> (res: Self)
        ensures
            res == *self,
    {
        let res = Video {
            id: self.id.clone(),
            title: self.title.clone(),
            duration_secs: self.duration_secs,
        };
        res
    }
}

impl Video {
    /// The playback offset, in seconds from the start of this item, at
    /// which the next item should begin preloading: the preload margin
    /// before this item ends, clamped at the item's start.
    pub fn preload_offset_secs(&self) -> (r: u64)
        ensures
            r == spec_preload_offset(self.duration_secs),
    {
        if self.duration_secs >= PRELOAD_MARGIN_SECS {
            self.duration_secs - PRELOAD_MARGIN_SECS
        } else {
            0
        }
    }
}

pub open spec fn spec_preload_offset(duration_secs: u64) -> u64 {
    if duration_secs >= PRELOAD_MARGIN_SECS {
        (duration_secs - PRELOAD_MARGIN_SECS) as u64
    } else {
        0
    }
}

/// What a notification reports: an item beginning to play, or an item
/// that finished (normally, by skip, or by a resolution failure).
#[derive(Clone, Copy, PartialEq, Eq, Structural, Debug)]
pub enum EventKind {
    Started,
    Ended,
}

/// One lifecycle event handed to the notification sink.
pub struct Notification {
    pub room_id: u64,
    pub kind: EventKind,
    pub item: Video,
    /// Set on an `Ended` event when the item could not be resolved or
    /// preloaded and was skipped over rather than played.
    pub failed: bool,
}

/// The chat line a notification carries: the announcement of a
/// starting item, the completion note of a finished one, or the
/// failure note of an item that could not be played.
pub open spec fn spec_notification_text(n: Notification) -> Seq<char> {
    match n.kind {
        EventKind::Started => "Playing ["@ + n.item.title@ + "](https://youtu.be/"@ + n.item.id@
            + ")"@,
        EventKind::Ended => if n.failed {
            n.item.title@ + " could not be played."@
        } else {
            n.item.title@ + " has finished."@
        },
    }
}

impl Notification {
    /// The message the notification sink posts for this event.
    pub fn message_text(&self) -> (r: String)
        ensures
            r@ == spec_notification_text(*self),
    {
        match self.kind {
            EventKind::Started => {
                let out = String::from_str("Playing [");
                let out = out.concat(self.item.title.as_str());
                let out = out.concat("](https://youtu.be/");
                let out = out.concat(self.item.id.as_str());
                let out = out.concat(")");
                out
            },
            EventKind::Ended => {
                let out = String::from_str(self.item.title.as_str());
                if self.failed {
                    out.concat(" could not be played.")
                } else {
                    out.concat(" has finished.")
                }
            },
        }
    }
}

/// A queue slot: the item plus whether a `Started` notification was
/// registered for it when it was enqueued. Only items after the first
/// of a multi-item batch announce their start.
pub struct QueuedEntry {
    pub item: Video,
    pub announce_start: bool,
}

/// Mathematical model of one session.
pub struct SessionModel {
    pub room_id: u64,
    pub queue: Seq<QueuedEntry>,
    pub current: Option<QueuedEntry>,
    pub last_activity: u64,
}

pub open spec fn started_note(room_id: u64, item: Video) -> Notification {
    Notification { room_id, kind: EventKind::Started, item, failed: false }
}

pub open spec fn ended_note(room_id: u64, item: Video, failed: bool) -> Notification {
    Notification { room_id, kind: EventKind::Ended, item, failed }
}

pub open spec fn empty_session(room_id: u64, now: u64) -> SessionModel {
    SessionModel { room_id, queue: Seq::empty(), current: None, last_activity: now }
}

/// Move the head of the queue (if any) into the active slot, announcing
/// its start when it was registered to do so.
pub open spec fn spec_start_next(s: SessionModel) -> (SessionModel, Seq<Notification>) {
    if s.queue.len() > 0 {
        let e = s.queue[0];
        let s2 = SessionModel { queue: s.queue.drop_first(), current: Some(e), ..s };
        if e.announce_start {
            (s2, seq![started_note(s.room_id, e.item)])
        } else {
            (s2, Seq::empty())
        }
    } else {
        (SessionModel { current: None, ..s }, Seq::empty())
    }
}

/// The entry built for position `i` of an enqueued batch.
pub open spec fn entry_for(items: Seq<Video>, i: int) -> QueuedEntry {
    QueuedEntry { item: items[i], announce_start: items.len() >= 2 && i >= 1 }
}

pub open spec fn entries_for(items: Seq<Video>) -> Seq<QueuedEntry> {
    Seq::new(items.len(), |i: int| entry_for(items, i))
}

/// Append a batch to the queue; if nothing is playing, start the head.
pub open spec fn spec_enqueue(s: SessionModel, items: Seq<Video>, now: u64) -> (
    SessionModel,
    Seq<Notification>,
) {
    let s1 = SessionModel { queue: s.queue + entries_for(items), last_activity: now, ..s };
    if s1.current is None && s1.queue.len() > 0 {
        spec_start_next(s1)
    } else {
        (s1, Seq::empty())
    }
}

/// The active item (if any) ends — normally, by skip, or failed — and
/// the head of the queue takes its place. With no active item this is
/// a no-op: there is nothing to end.
pub open spec fn spec_advance(s: SessionModel, now: u64, failed: bool) -> (
    SessionModel,
    Seq<Notification>,
) {
    match s.current {
        Some(e) => {
            let (s2, notes) = spec_start_next(SessionModel { current: None, ..s });
            (
                SessionModel { last_activity: now, ..s2 },
                seq![ended_note(s.room_id, e.item, failed)] + notes,
            )
        },
        None => (s, Seq::empty()),
    }
}

/// An idle sweep may reclaim the session only if nothing is playing,
/// the queue is empty, and that has been so for the whole idle window.
pub open spec fn spec_may_reclaim(s: SessionModel, now: u64) -> bool {
    s.current is None && s.queue.len() == 0 && now as int >= s.last_activity as int
        + IDLE_WINDOW_SECS as int
}

/// One playback session, owned by a room's controller task.
pub struct Session {
    pub room_id: u64,
    pub queue: Vec<QueuedEntry>,
    pub current: Option<QueuedEntry>,
    pub last_activity: u64,
}

impl View for Session {
    type V = SessionModel;

    open spec fn view(&self) -> SessionModel {
        SessionModel {
            room_id: self.room_id,
            queue: self.queue@,
            current: self.current,
            last_activity: self.last_activity,
        }
    }
}

impl Session {
    pub fn new(room_id: u64, now: u64) -> (s: Session)
        ensures
            s@ == empty_session(room_id, now),
    {
        let s = Session { room_id, queue: Vec::new(), current: None, last_activity: now };
        assert(s@.queue =~= empty_session(room_id, now).queue);
        s
    }

    fn start_next(&mut self, out: &mut Vec<Notification>)
        ensures
            ({
                let (s2, notes) = spec_start_next(old(self)@);
                final(self)@ == s2 && final(out)@ == old(out)@ + notes
            }),
    {
        if self.queue.len() > 0 {
            let e = self.queue.remove(0);
            if e.announce_start {
                out.push(
                    Notification {
                        room_id: self.room_id,
                        kind: EventKind::Started,
                        item: e.item.clone(),
                        failed: false,
                    },
                );
            }
            self.current = Some(e);
            proof {
                assert(self.queue@ =~= old(self)@.queue.drop_first());
            }
        } else {
            self.current = None;
        }
        proof {
            if spec_start_next(old(self)@).1.len() == 0 {
                assert(out@ =~= old(out)@ + spec_start_next(old(self)@).1);
            }
        }
    }

    /// Append `items` as a batch; if nothing is playing, the first one
    /// becomes active at once. Returns the notifications emitted now.
    pub fn enqueue_batch(&mut self, items: &Vec<Video>, now: u64) -> (out: Vec<Notification>)
        ensures
            ({
                let (s2, notes) = spec_enqueue(old(self)@, items@, now);
                final(self)@ == s2 && out@ == notes
            }),
    {
        let ghost s0 = self@;
        let batch = items.len();
        let mut idx: usize = 0;
        while idx < batch
            invariant
                batch == items@.len(),
                idx <= batch,
                self@.room_id == s0.room_id,
                self@.current == s0.current,
                self@.last_activity == s0.last_activity,
                self@.queue =~= s0.queue + entries_for(items@).take(idx as int),
            decreases batch - idx,
        {
            let entry = QueuedEntry {
                item: items[idx].clone(),
                announce_start: batch >= 2 && idx >= 1,
            };
            self.queue.push(entry);
            idx += 1;
            proof {
                assert(self@.queue =~= s0.queue + entries_for(items@).take(idx as int));
            }
        }
        self.last_activity = now;
        proof {
            assert(entries_for(items@).take(batch as int) =~= entries_for(items@));
        }
        let mut out: Vec<Notification> = Vec::new();
        if self.current.is_none() && self.queue.len() > 0 {
            self.start_next(&mut out);
        }
        proof {
            let (s2, notes) = spec_enqueue(s0, items@, now);
            assert(out@ =~= notes);
        }
        out
    }

    fn advance_inner(&mut self, now: u64, failed: bool) -> (out: Vec<Notification>)
        ensures
            ({
                let (s2, notes) = spec_advance(old(self)@, now, failed);
                final(self)@ == s2 && out@ == notes
            }),
    {
        let mut out: Vec<Notification> = Vec::new();
        let cur = self.current.take();
        match cur {
            Some(e) => {
                out.push(
                    Notification {
                        room_id: self.room_id,
                        kind: EventKind::Ended,
                        item: e.item,
                        failed,
                    },
                );
                self.start_next(&mut out);
                self.last_activity = now;
                proof {
                    let (s2, notes) = spec_advance(old(self)@, now, failed);
                    assert(out@ =~= notes);
                }
            },
            None => {
                proof {
                    assert(out@ =~= spec_advance(old(self)@, now, failed).1);
                }
            },
        }
        out
    }

    /// The transport reported that the active item finished playing.
    pub fn advance(&mut self, now: u64) -> (out: Vec<Notification>)
        ensures
            ({
                let (s2, notes) = spec_advance(old(self)@, now, false);
                final(self)@ == s2 && out@ == notes
            }),
    {
        self.advance_inner(now, false)
    }

    /// A user forcibly ends the active item. By construction this is
    /// the very same transition as an immediate natural completion.
    pub fn skip(&mut self, now: u64) -> (out: Vec<Notification>)
        ensures
            ({
                let (s2, notes) = spec_advance(old(self)@, now, false);
                final(self)@ == s2 && out@ == notes
            }),
    {
        self.advance_inner(now, false)
    }

    /// The active item's source could not be resolved or preloaded: its
    /// `Ended` notification fires at once with the failure flag set and
    /// the queue advances as if it had played to completion.
    pub fn fail_current(&mut self, now: u64) -> (out: Vec<Notification>)
        ensures
            ({
                let (s2, notes) = spec_advance(old(self)@, now, true);
                final(self)@ == s2 && out@ == notes
            }),
    {
        self.advance_inner(now, true)
    }

    /// Whether an idle sweep may reclaim this session now.
    pub fn may_reclaim(&self, now: u64) -> (b: bool)
        ensures
            b == spec_may_reclaim(self@, now),
    {
        self.current.is_none() && self.queue.len() == 0 && now >= IDLE_WINDOW_SECS && now
            - IDLE_WINDOW_SECS >= self.last_activity
    }
}

/// No two sessions of a registry share a room.
pub open spec fn wf_registry(ss: Seq<SessionModel>) -> bool {
    forall|i: int, j: int| 0 <= i < j < ss.len() ==> ss[i].room_id != ss[j].room_id
}

/// The index of the session for `room`, if one exists.
pub open spec fn find_room(ss: Seq<SessionModel>, room: u64) -> Option<int>
    decreases ss.len(),
{
    if ss.len() == 0 {
        None
    } else if ss[0].room_id == room {
        Some(0)
    } else {
        match find_room(ss.drop_first(), room) {
            Some(i) => Some(i + 1),
            None => None,
        }
    }
}

/// `find_room` finds exactly the first index holding `room`.
pub proof fn lemma_find_room(ss: Seq<SessionModel>, room: u64)
    ensures
        match find_room(ss, room) {
            Some(i) => 0 <= i < ss.len() && ss[i].room_id == room && (forall|j: int|
                0 <= j < i ==> ss[j].room_id != room),
            None => forall|j: int| 0 <= j < ss.len() ==> ss[j].room_id != room,
        },
    decreases ss.len(),
{
    if ss.len() > 0 && ss[0].room_id != room {
        lemma_find_room(ss.drop_first(), room);
        assert(forall|j: int| 0 < j < ss.len() ==> ss[j] == ss.drop_first()[j - 1]);
    }
}

/// Enqueue into the room's session, creating it if absent.
pub open spec fn spec_reg_enqueue(
    ss: Seq<SessionModel>,
    room: u64,
    items: Seq<Video>,
    now: u64,
) -> (Seq<SessionModel>, Seq<Notification>) {
    match find_room(ss, room) {
        Some(i) => {
            let (s2, notes) = spec_enqueue(ss[i], items, now);
            (ss.update(i, s2), notes)
        },
        None => {
            let (s2, notes) = spec_enqueue(empty_session(room, now), items, now);
            (ss.push(s2), notes)
        },
    }
}

/// Advance the room's session; without one there is nothing to do.
pub open spec fn spec_reg_advance(
    ss: Seq<SessionModel>,
    room: u64,
    now: u64,
    failed: bool,
) -> (Seq<SessionModel>, Seq<Notification>) {
    match find_room(ss, room) {
        Some(i) => {
            let (s2, notes) = spec_advance(ss[i], now, failed);
            (ss.update(i, s2), notes)
        },
        None => (ss, Seq::empty()),
    }
}

/// Commit an idle teardown: the session is removed only if, at the
/// moment of commit, it is still idle and has been for the whole
/// window; otherwise the teardown aborts and the registry is unchanged.
pub open spec fn spec_reg_sweep(ss: Seq<SessionModel>, room: u64, now: u64) -> (
    Seq<SessionModel>,
    bool,
) {
    match find_room(ss, room) {
        Some(i) => if spec_may_reclaim(ss[i], now) {
            (ss.remove(i), true)
        } else {
            (ss, false)
        },
        None => (ss, false),
    }
}

/// The process-wide room-to-session registry.
pub struct SessionRegistry {
    pub sessions: Vec<Session>,
}

impl View for SessionRegistry {
    type V = Seq<SessionModel>;

    open spec fn view(&self) -> Seq<SessionModel> {
        self.sessions@.map_values(|s: Session| s@)
    }
}

impl SessionRegistry {
    pub open spec fn wf(&self) -> bool {
        wf_registry(self@)
    }

    pub fn new() -> (r: SessionRegistry)
        ensures
            r@ =~= Seq::<SessionModel>::empty(),
            r.wf(),
    {
        SessionRegistry { sessions: Vec::new() }
    }

    /// The index of the room's session, matching `find_room`.
    fn position_of(&self, room: u64) -> (r: Option<usize>)
        ensures
            match r {
                Some(i) => find_room(self@, room) == Some(i as int),
                None => find_room(self@, room) is None,
            },
    {
        proof {
            lemma_find_room(self@, room);
        }
        let n = self.sessions.len();
        let mut i: usize = 0;
        while i < n
            invariant
                n == self.sessions.len(),
                i <= n,
                forall|j: int| 0 <= j < i ==> self@[j].room_id != room,
            decreases n - i,
        {
            if self.sessions[i].room_id == room {
                proof {
                    lemma_find_room_characterization(self@, room, i as int);
                }
                return Some(i);
            }
            i += 1;
        }
        None
    }

    /// Whether a session exists for `room`.
    pub fn has_session(&self, room: u64) -> (b: bool)
        ensures
            b == (find_room(self@, room) is Some),
    {
        self.position_of(room).is_some()
    }

    /// Enqueue a batch of items for `room`, creating the session if
    /// absent. Returns the notifications emitted now.
    pub fn enqueue(&mut self, room: u64, items: &Vec<Video>, now: u64) -> (out: Vec<Notification>)
        requires
            old(self).wf(),
        ensures
            ({
                let (ss2, notes) = spec_reg_enqueue(old(self)@, room, items@, now);
                final(self)@ == ss2 && out@ == notes && final(self).wf()
            }),
    {
        let ghost ss0 = self@;
        match self.position_of(room) {
            Some(i) => {
                proof {
                    lemma_find_room(ss0, room);
                }
                let mut s = self.sessions.remove(i);
                let out = s.enqueue_batch(items, now);
                self.sessions.insert(i, s);
                proof {
                    assert(self@ =~= ss0.update(i as int, s@));
                    lemma_update_keeps_rooms(ss0, i as int, s@);
                }
                out
            },
            None => {
                let mut s = Session::new(room, now);
                let out = s.enqueue_batch(items, now);
                self.sessions.push(s);
                proof {
                    assert(self@ =~= ss0.push(s@));
                    lemma_find_room(ss0, room);
                    assert(spec_enqueue(empty_session(room, now), items@, now).0.room_id == room);
                    assert forall|i: int, j: int| 0 <= i < j < self@.len() implies self@[i].room_id
                        != self@[j].room_id by {
                        if j == ss0.len() as int {
                            assert(self@[i] == ss0[i]);
                        }
                    }
                }
                out
            },
        }
    }

    fn advance_inner(&mut self, room: u64, now: u64, failed: bool) -> (out: Vec<Notification>)
        requires
            old(self).wf(),
        ensures
            ({
                let (ss2, notes) = spec_reg_advance(old(self)@, room, now, failed);
                final(self)@ == ss2 && out@ == notes && final(self).wf()
            }),
    {
        let ghost ss0 = self@;
        match self.position_of(room) {
            Some(i) => {
                proof {
                    lemma_find_room(ss0, room);
                }
                let mut s = self.sessions.remove(i);
                let out = s.advance_inner(now, failed);
                self.sessions.insert(i, s);
                proof {
                    assert(self@ =~= ss0.update(i as int, s@));
                    lemma_update_keeps_rooms(ss0, i as int, s@);
                }
                out
            },
            None => Vec::new(),
        }
    }

    /// The transport reported completion of the room's active item.
    pub fn advance(&mut self, room: u64, now: u64) -> (out: Vec<Notification>)
        requires
            old(self).wf(),
        ensures
            ({
                let (ss2, notes) = spec_reg_advance(old(self)@, room, now, false);
                final(self)@ == ss2 && out@ == notes && final(self).wf()
            }),
    {
        self.advance_inner(room, now, false)
    }

    /// A user skips the room's active item.
    pub fn skip(&mut self, room: u64, now: u64) -> (out: Vec<Notification>)
        requires
            old(self).wf(),
        ensures
            ({
                let (ss2, notes) = spec_reg_advance(old(self)@, room, now, false);
                final(self)@ == ss2 && out@ == notes && final(self).wf()
            }),
    {
        self.advance_inner(room, now, false)
    }

    /// The room's active item failed to resolve or preload.
    pub fn fail_current(&mut self, room: u64, now: u64) -> (out: Vec<Notification>)
        requires
            old(self).wf(),
        ensures
            ({
                let (ss2, notes) = spec_reg_advance(old(self)@, room, now, true);
                final(self)@ == ss2 && out@ == notes && final(self).wf()
            }),
    {
        self.advance_inner(room, now, true)
    }

    /// Commit step of the idle sweep. Returns true iff the session was
    /// reclaimed; with new work present the teardown aborts, leaving
    /// the session (and every item it holds) intact.
    pub fn idle_sweep(&mut self, room: u64, now: u64) -> (destroyed: bool)
        requires
            old(self).wf(),
        ensures
            ({
                let (ss2, gone) = spec_reg_sweep(old(self)@, room, now);
                final(self)@ == ss2 && destroyed == gone && final(self).wf()
            }),
    {
        let ghost ss0 = self@;
        match self.position_of(room) {
            Some(i) => {
                proof {
                    lemma_find_room(ss0, room);
                }
                let reclaim = self.sessions[i].may_reclaim(now);
                if reclaim {
                    let _ = self.sessions.remove(i);
                    proof {
                        assert(self@ =~= ss0.remove(i as int));
                        lemma_remove_keeps_rooms(ss0, i as int);
                    }
                    true
                } else {
                    false
                }
            },
            None => false,
        }
    }
}

/// Updating one slot of a well-formed registry with a session of the
/// same room keeps it well-formed.
proof fn lemma_update_keeps_rooms(ss: Seq<SessionModel>, i: int, s2: SessionModel)
    requires
        wf_registry(ss),
        0 <= i < ss.len(),
        s2.room_id == ss[i].room_id,
    ensures
        wf_registry(ss.update(i, s2)),
{
}

/// Removing a slot of a well-formed registry keeps it well-formed.
proof fn lemma_remove_keeps_rooms(ss: Seq<SessionModel>, i: int)
    requires
        wf_registry(ss),
        0 <= i < ss.len(),
    ensures
        wf_registry(ss.remove(i)),
{
    let ss2 = ss.remove(i);
    assert forall|a: int, b: int| 0 <= a < b < ss2.len() implies ss2[a].room_id != ss2[b].room_id by {
        let a0 = if a < i {
            a
        } else {
            a + 1
        };
        let b0 = if b < i {
            b
        } else {
            b + 1
        };
        assert(ss2[a] == ss[a0] && ss2[b] == ss[b0]);
    }
}

/// The items a session holds, in playback order: the active item (if
/// any) followed by the queue.
pub open spec fn items_of(s: SessionModel) -> Seq<Video> {
    (match s.current {
        Some(e) => seq![e.item],
        None => Seq::<Video>::empty(),
    }) + s.queue.map_values(|e: QueuedEntry| e.item)
}

/// Drain a whole batch: `k` consecutive advances.
pub open spec fn spec_run_advances(s: SessionModel, k: nat, now: u64) -> (
    SessionModel,
    Seq<Notification>,
)
    decreases k,
{
    if k == 0 {
        (s, Seq::empty())
    } else {
        let (s1, n1) = spec_advance(s, now, false);
        let (s2, n2) = spec_run_advances(s1, (k - 1) as nat, now);
        (s2, n1 + n2)
    }
}

/// `Started` then `Ended` for each of `rest`, in order.
pub open spec fn started_ended_chain(room: u64, rest: Seq<Video>) -> Seq<Notification>
    decreases rest.len(),
{
    if rest.len() == 0 {
        Seq::empty()
    } else {
        seq![started_note(room, rest[0]), ended_note(room, rest[0], false)]
            + started_ended_chain(room, rest.drop_first())
    }
}

/// The full notification sequence of playing a batch to completion:
/// no `Started` for the first item (by the registration rule), then
/// alternating `Started`/`Ended` in playback order, each exactly once.
pub open spec fn expected_playthrough(room: u64, items: Seq<Video>) -> Seq<Notification> {
    if items.len() == 0 {
        Seq::empty()
    } else {
        seq![ended_note(room, items[0], false)] + started_ended_chain(room, items.drop_first())
    }
}

/// Draining a session that is playing `cur` with `rest` queued (all of
/// `rest` registered to announce) emits exactly `Ended(cur)` then the
/// `Started`/`Ended` chain of `rest`, and leaves the session idle.
proof fn lemma_drain(s: SessionModel, rest_items: Seq<Video>, now: u64)
    requires
        s.current is Some,
        rest_items.len() == s.queue.len(),
        forall|i: int|
            0 <= i < s.queue.len() ==> s.queue[i].item == rest_items[i]
                && s.queue[i].announce_start,
    ensures
        ({
            let (s2, notes) = spec_run_advances(s, (s.queue.len() + 1) as nat, now);
            notes =~= seq![ended_note(s.room_id, s.current.unwrap().item, false)]
                + started_ended_chain(s.room_id, rest_items) && s2.current is None
                && s2.queue.len() == 0
        }),
    decreases s.queue.len(),
{
    let (s1, n1) = spec_advance(s, now, false);
    if s.queue.len() == 0 {
        let (s2, n2) = spec_run_advances(s1, 0, now);
        assert(n1 + n2 =~= n1);
    } else {
        assert(s1.current == Some(s.queue[0]));
        assert(forall|i: int|
            0 <= i < s1.queue.len() ==> s1.queue[i] == s.queue[i + 1]
                && rest_items.drop_first()[i] == rest_items[i + 1]);
        lemma_drain(s1, rest_items.drop_first(), now);
    }
}

/// Queue ordering law: enqueueing a batch into a fresh (or idle,
/// empty) room session and driving one advance per item emits, in
/// order and exactly once each, `Ended` for every item in batch order
/// and `Started` for every item but the first — never reordered,
/// never duplicated — and leaves the session idle and empty.
pub proof fn lemma_queue_ordering(room: u64, items: Seq<Video>, start: u64, now: u64)
    requires
        items.len() >= 1,
    ensures
        ({
            let (s1, notes0) = spec_enqueue(empty_session(room, start), items, now);
            let (s2, notes) = spec_run_advances(s1, items.len(), now);
            notes0 + notes =~= expected_playthrough(room, items) && s2.current is None
                && s2.queue.len() == 0
        }),
{
    let s0 = empty_session(room, start);
    let (s1, notes0) = spec_enqueue(s0, items, now);
    let entries = entries_for(items);
    assert(s0.queue + entries =~= entries);
    assert(s1.current == Some(entries[0]));
    assert(s1.queue =~= entries.drop_first());
    assert(notes0 =~= Seq::<Notification>::empty());
    assert(forall|i: int|
        0 <= i < s1.queue.len() ==> s1.queue[i].item == items.drop_first()[i]
            && s1.queue[i].announce_start);
    lemma_drain(s1, items.drop_first(), now);
    let (s2, notes) = spec_run_advances(s1, items.len(), now);
    assert(notes0 + notes =~= notes);
}

/// Enqueueing leaves every previously held item in place and appends
/// the new batch after them, whatever state the session was in.
pub proof fn lemma_enqueue_keeps_items(s: SessionModel, items: Seq<Video>, now: u64)
    ensures
        items_of(spec_enqueue(s, items, now).0) =~= items_of(s) + items,
{
    let entries = entries_for(items);
    let q1 = s.queue + entries;
    assert(q1.map_values(|e: QueuedEntry| e.item) =~= s.queue.map_values(|e: QueuedEntry| e.item)
        + items);
    let s1 = spec_enqueue(s, items, now).0;
    if s.current is None && q1.len() > 0 {
        assert(q1.drop_first().map_values(|e: QueuedEntry| e.item) =~= q1.map_values(
            |e: QueuedEntry| e.item,
        ).drop_first());
    }
}

/// The room's session exists and holds `items` as the tail of its
/// playback order (active item first).
pub open spec fn session_holds_suffix(ss: Seq<SessionModel>, room: u64, items: Seq<Video>) -> bool {
    match find_room(ss, room) {
        Some(i) => {
            let held = items_of(ss[i]);
            held.len() >= items.len() && held.skip(held.len() - items.len() as int) =~= items
        },
        None => false,
    }
}

/// After an update of slot `i` (same room), `find_room` still answers
/// `i` for that room.
proof fn lemma_find_room_update(ss: Seq<SessionModel>, i: int, s2: SessionModel, room: u64)
    requires
        find_room(ss, room) == Some(i),
        s2.room_id == room,
    ensures
        find_room(ss.update(i, s2), room) == Some(i),
{
    lemma_find_room(ss, room);
    lemma_find_room_characterization(ss.update(i, s2), room, i);
}

/// Idle-reclaim law: a sweep commit destroys the room's session if and
/// only if the session exists, nothing is playing, the queue is empty,
/// and the full idle window has elapsed since its last activity.
pub proof fn lemma_idle_reclaim(ss: Seq<SessionModel>, room: u64, now: u64)
    ensures
        spec_reg_sweep(ss, room, now).1 <==> match find_room(ss, room) {
            Some(i) => ss[i].current is None && ss[i].queue.len() == 0 && now as int
                >= ss[i].last_activity as int + IDLE_WINDOW_SECS as int,
            None => false,
        },
{
}

/// A sweep cycle never destroys a session that an enqueue reached
/// first, no matter how much time has passed: the commit observes the
/// new work and aborts.
pub proof fn lemma_enqueue_blocks_reclaim(
    ss: Seq<SessionModel>,
    room: u64,
    items: Seq<Video>,
    t1: u64,
    t2: u64,
)
    requires
        wf_registry(ss),
        items.len() >= 1,
    ensures
        ({
            let (ss1, _) = spec_reg_enqueue(ss, room, items, t1);
            !spec_reg_sweep(ss1, room, t2).1 && spec_reg_sweep(ss1, room, t2).0 == ss1
        }),
{
    let (ss1, _) = spec_reg_enqueue(ss, room, items, t1);
    match find_room(ss, room) {
        Some(i) => {
            lemma_find_room(ss, room);
            let (s2, _) = spec_enqueue(ss[i], items, t1);
            assert(s2.current is Some || s2.queue.len() > 0);
            lemma_find_room_update(ss, i, s2, room);
        },
        None => {
            lemma_find_room(ss, room);
            let (s2, _) = spec_enqueue(empty_session(room, t1), items, t1);
            assert(ss1 == ss.push(s2));
            assert(forall|j: int| 0 <= j < ss.len() ==> ss1[j] == ss[j]);
            lemma_find_room_characterization(ss1, room, ss.len() as int);
            assert(s2.current is Some || s2.queue.len() > 0);
        },
    }
}

/// Removing the room's one session leaves no session for that room.
proof fn lemma_find_room_after_remove(ss: Seq<SessionModel>, i: int, room: u64)
    requires
        wf_registry(ss),
        find_room(ss, room) == Some(i),
    ensures
        find_room(ss.remove(i), room) is None,
{
    lemma_find_room(ss, room);
    let ss2 = ss.remove(i);
    assert forall|j: int| 0 <= j < ss2.len() implies ss2[j].room_id != room by {
        let j0 = if j < i {
            j
        } else {
            j + 1
        };
        assert(ss2[j] == ss[j0]);
    }
    lemma_find_room(ss2, room);
    if find_room(ss2, room) is Some {
        let k = find_room(ss2, room).unwrap();
        assert(ss2[k].room_id == room);
    }
}

/// After any enqueue, the room's session exists and holds the batch as
/// the tail of its playback order.
proof fn lemma_enqueue_holds(ss: Seq<SessionModel>, room: u64, items: Seq<Video>, t: u64)
    requires
        wf_registry(ss),
    ensures
        session_holds_suffix(spec_reg_enqueue(ss, room, items, t).0, room, items),
{
    let (ss1, _) = spec_reg_enqueue(ss, room, items, t);
    match find_room(ss, room) {
        Some(i) => {
            lemma_find_room(ss, room);
            let (s2, _) = spec_enqueue(ss[i], items, t);
            lemma_find_room_update(ss, i, s2, room);
            lemma_enqueue_keeps_items(ss[i], items, t);
            let held = items_of(s2);
            assert(held.skip(held.len() - items.len() as int) =~= items);
        },
        None => {
            lemma_find_room(ss, room);
            let (s2, _) = spec_enqueue(empty_session(room, t), items, t);
            assert(ss1 == ss.push(s2));
            assert(forall|j: int| 0 <= j < ss.len() ==> ss1[j] == ss[j]);
            lemma_find_room_characterization(ss1, room, ss.len() as int);
            lemma_enqueue_keeps_items(empty_session(room, t), items, t);
            assert(items_of(empty_session(room, t)) + items =~= items);
            let held = items_of(s2);
            assert(held.skip(held.len() - items.len() as int) =~= items);
        },
    }
}

/// Race-safety law: whichever way an `enqueue` and an idle-sweep
/// commit for the same room serialize, the enqueued items are never
/// lost. Enqueue first: the commit aborts and the session keeps them.
/// Commit first: the enqueue builds a fresh session holding them.
pub proof fn lemma_enqueue_sweep_race(
    ss: Seq<SessionModel>,
    room: u64,
    items: Seq<Video>,
    t1: u64,
    t2: u64,
)
    requires
        wf_registry(ss),
        items.len() >= 1,
    ensures
        ({
            let (ss1, _) = spec_reg_enqueue(ss, room, items, t1);
            let (ss2, destroyed) = spec_reg_sweep(ss1, room, t2);
            !destroyed && session_holds_suffix(ss2, room, items)
        }),
        ({
            let (ss1, _) = spec_reg_sweep(ss, room, t1);
            session_holds_suffix(spec_reg_enqueue(ss1, room, items, t2).0, room, items)
        }),
{
    lemma_enqueue_blocks_reclaim(ss, room, items, t1, t2);
    lemma_enqueue_holds(ss, room, items, t1);
    let (ss1, destroyed) = spec_reg_sweep(ss, room, t1);
    if destroyed {
        let i = find_room(ss, room).unwrap();
        lemma_find_room(ss, room);
        lemma_find_room_after_remove(ss, i, room);
        lemma_remove_keeps_rooms(ss, i);
        lemma_enqueue_holds(ss1, room, items, t2);
    } else {
        lemma_enqueue_holds(ss1, room, items, t2);
    }
}

/// `find_room` returns `i` when `room` first occurs at index `i`.
proof fn lemma_find_room_characterization(ss: Seq<SessionModel>, room: u64, i: int)
    requires
        0 <= i < ss.len(),
        ss[i].room_id == room,
        forall|j: int| 0 <= j < i ==> ss[j].room_id != room,
    ensures
        find_room(ss, room) == Some(i),
    decreases ss.len(),
{
    if i > 0 {
        lemma_find_room_characterization(ss.drop_first(), room, i - 1);
    }
}

} // verus!
