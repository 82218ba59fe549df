//! The registry of word wars: every war under its identifier, and the
//! operations that schedule, join, leave, cancel and list them.

use vstd::prelude::*;
use crate::clock::Moment;
use crate::war::{
    actions_model, arm_model, cancel_model, clone_names, lemma_rearm_outstanding, names_model,
    outstanding_after, rearmed, ActionModel, TimerAction, TimerKind, War, WarError, WarModel,
};

verus! {

/// The word wars, in the order of their identifiers, and the identifier and
/// the timer token that are handed out next.
#[derive(Clone, Debug, PartialEq, Eq)]
pub struct Wars {
    pub next_id: u64,
    pub next_token: u64,
    pub entries: Vec<(u64, War)>,
}

pub struct WarsModel {
    pub next_id: u64,
    pub next_token: u64,
    pub entries: Seq<(u64, WarModel)>,
}

pub open spec fn entries_model(v: Seq<(u64, War)>) -> Seq<(u64, WarModel)> {
    Seq::new(v.len(), |i: int| (v[i].0, v[i].1@))
}

impl View for Wars {
    type V = WarsModel;

    open spec fn view(&self) -> WarsModel {
        WarsModel {
            next_id: self.next_id,
            next_token: self.next_token,
            entries: entries_model(self.entries@),
        }
    }
}

/// The war `w` after `who` has joined it at `now`.
pub open spec fn joined(w: WarModel, who: Seq<char>, now: Moment, token: u64) -> WarModel {
    rearmed(WarModel { participants: w.participants.push(who), ..w }, now, token)
}

/// The war `w` after its participant `who` has left it at `now`.
pub open spec fn parted(w: WarModel, who: Seq<char>, now: Moment, token: u64) -> WarModel {
    rearmed(
        WarModel { participants: w.participants.remove(w.participants.index_of(who)), ..w },
        now,
        token,
    )
}

/// The war that `sender` starts at `now` with the given times.
pub open spec fn started(sender: Seq<char>, times: (u64, u64, i64), now: Moment, token: u64)
    -> WarModel {
    rearmed(
        WarModel {
            start_time: times.0,
            end_time: times.1,
            minutes: times.2,
            start_msg: None,
            end_msg: None,
            participants: seq![sender],
            starter: sender,
        },
        now,
        token,
    )
}

impl WarsModel {
    /// Identifiers grow along the entries and lie below the next one; every war
    /// is well formed and its tokens lie below the next token.
    pub open spec fn wf(self) -> bool {
        &&& forall|i: int, j: int|
            0 <= i < j < self.entries.len() ==> (#[trigger] self.entries[i]).0 < (
            #[trigger] self.entries[j]).0
        &&& forall|i: int|
            0 <= i < self.entries.len() ==> {
                &&& (#[trigger] self.entries[i]).0 < self.next_id
                &&& self.entries[i].1.wf()
                &&& self.entries[i].1.tokens_below(self.next_token)
            }
    }

    /// Whether two more tokens can be handed out.
    pub open spec fn has_tokens(self) -> bool {
        self.next_token < u64::MAX - 1
    }

    /// Where the war with identifier `id` stands, if there is one.
    pub open spec fn index_of(self, id: u64) -> Option<int> {
        if exists|i: int| 0 <= i < self.entries.len() && (#[trigger] self.entries[i]).0 == id {
            Some(choose|i: int| 0 <= i < self.entries.len() && (#[trigger] self.entries[i]).0 == id)
        } else {
            None
        }
    }

    /// Where the war stands that `who` may join at `now`, or why there is none:
    /// it must exist and not have ended, and `who` must not be in it.
    pub open spec fn join_target(self, id: u64, who: Seq<char>, now: Moment) -> Result<
        int,
        WarError,
    > {
        match self.index_of(id) {
            None => Err(WarError::NotFound),
            Some(i) => if now.is_after(self.entries[i].1.end_time) {
                Err(WarError::NotFound)
            } else if self.entries[i].1.participants.contains(who) {
                Err(WarError::AlreadyMember)
            } else {
                Ok(i)
            },
        }
    }

    /// Where the war stands that `who` may leave at `now`, or why there is none.
    pub open spec fn leave_target(self, id: u64, who: Seq<char>, now: Moment) -> Result<
        int,
        WarError,
    > {
        match self.index_of(id) {
            None => Err(WarError::NotFound),
            Some(i) => if now.is_after(self.entries[i].1.end_time) {
                Err(WarError::NotFound)
            } else if !self.entries[i].1.participants.contains(who) {
                Err(WarError::NotMember)
            } else {
                Ok(i)
            },
        }
    }

    /// Where the war stands that `requester` may cancel, or why there is none:
    /// only its starter may.
    pub open spec fn cancel_target(self, id: u64, requester: Seq<char>) -> Result<int, WarError> {
        match self.index_of(id) {
            None => Err(WarError::NotFound),
            Some(i) => if self.entries[i].1.starter != requester {
                Err(WarError::NotOwner)
            } else {
                Ok(i)
            },
        }
    }

    /// The registry without the entry at `i`.
    pub open spec fn without(self, i: int) -> WarsModel {
        WarsModel { entries: self.entries.remove(i), ..self }
    }

    /// The registry with the entry at `i` replaced and two more tokens used.
    pub open spec fn with_war(self, i: int, w: WarModel) -> WarsModel {
        WarsModel {
            next_id: self.next_id,
            next_token: (self.next_token + 2) as u64,
            entries: self.entries.update(i, (self.entries[i].0, w)),
        }
    }
}

/// Where `who` stands first among `names`.
pub fn position_of(names: &Vec<String>, who: &String) -> (r: Option<usize>)
    ensures
        match r {
            Some(i) => {
                &&& i < names@.len()
                &&& names_model(names@)[i as int] == who@
                &&& forall|j: int| 0 <= j < i ==> #[trigger] names_model(names@)[j] != who@
            },
            None => !names_model(names@).contains(who@),
        },
{
    let mut i: usize = 0;
    while i < names.len()
        invariant
            i <= names@.len(),
            forall|j: int| 0 <= j < i ==> #[trigger] names_model(names@)[j] != who@,
        decreases names@.len() - i,
    {
        if names[i] == *who {
            return Some(i);
        }
        i += 1;
    }
    None
}

impl Wars {
    /// Where the war with identifier `id` stands.
    pub fn find(&self, id: u64) -> (r: Option<usize>)
        requires
            self@.wf(),
        ensures
            r matches Some(i) ==> i < self.entries@.len() && self@.index_of(id) == Some(i as int),
            r is None ==> self@.index_of(id) is None,
    {
        let mut i: usize = 0;
        while i < self.entries.len()
            invariant
                self@.wf(),
                i <= self.entries@.len(),
                forall|j: int| 0 <= j < i ==> (#[trigger] self@.entries[j]).0 != id,
            decreases self.entries@.len() - i,
        {
            if self.entries[i].0 == id {
                proof {
                    assert(self@.entries[i as int].0 == id);
                    let c = choose|k: int|
                        0 <= k < self@.entries.len() && (#[trigger] self@.entries[k]).0 == id;
                    assert(c == i) by {
                        if c < i {
                            assert(self@.entries[c].0 < self@.entries[i as int].0);
                        } else if c > i {
                            assert(self@.entries[i as int].0 < self@.entries[c].0);
                        }
                    }
                }
                return Some(i);
            }
            i += 1;
        }
        None
    }

    /// Puts `war` in the place of the entry at `i`, under the same identifier.
    fn replace(&mut self, i: usize, war: War)
        requires
            i < old(self).entries@.len(),
        ensures
            final(self)@.entries == old(self)@.entries.update(
                i as int,
                (old(self)@.entries[i as int].0, war@),
            ),
            final(self).next_id == old(self).next_id,
            final(self).next_token == old(self).next_token,
    {
        let (id, _) = self.entries.remove(i);
        self.entries.insert(i, (id, war));
        assert(self@.entries =~= old(self)@.entries.update(
            i as int,
            (old(self)@.entries[i as int].0, war@),
        ));
    }

    /// Takes a copy of the war at `i`.
    fn war_at(&self, i: usize) -> (war: War)
        requires
            i < self.entries@.len(),
        ensures
            war@ == self@.entries[i as int].1,
    {
        let w = &self.entries[i].1;
        let war = War {
            start_time: w.start_time,
            end_time: w.end_time,
            minutes: w.minutes,
            start_msg: w.start_msg,
            end_msg: w.end_msg,
            participants: clone_names(&w.participants),
            starter: w.starter.clone(),
        };
        war
    }

    /// Adds `who` to the war `id` and arms its notifications anew.
    pub fn join(&mut self, id: u64, who: String, now: Moment) -> (r: Result<
        Vec<TimerAction>,
        WarError,
    >)
        requires
            old(self)@.wf(),
            old(self)@.has_tokens(),
            now.wf(),
        ensures
            final(self)@.wf(),
            match old(self)@.join_target(id, who@, now) {
                Err(e) => r matches Err(x) && x == e && final(self)@ == old(self)@,
                Ok(i) => r matches Ok(actions) && ({
                    let before = old(self)@.entries[i].1;
                    let after = joined(before, who@, now, old(self).next_token);
                    &&& final(self)@ == old(self)@.with_war(i, after)
                    &&& actions_model(actions@) == cancel_model(before) + arm_model(after, now)
                }),
            },
    {
        let i = match self.find(id) {
            None => {
                return Err(WarError::NotFound);
            },
            Some(i) => i,
        };
        if now.after(self.entries[i].1.end_time) {
            return Err(WarError::NotFound);
        }
        if position_of(&self.entries[i].1.participants, &who).is_some() {
            return Err(WarError::AlreadyMember);
        }
        let mut war = self.war_at(i);
        let ghost before = war@;
        let ghost name = who@;
        war.participants.push(who);
        assert(names_model(war.participants@) =~= before.participants.push(name));
        let actions = war.register_msgs(now, self.next_token);
        self.replace(i, war);
        self.next_token = self.next_token + 2;
        Ok(actions)
    }

    /// Takes `who` out of the war `id` and arms its notifications anew.
    pub fn leave(&mut self, id: u64, who: &String, now: Moment) -> (r: Result<
        Vec<TimerAction>,
        WarError,
    >)
        requires
            old(self)@.wf(),
            old(self)@.has_tokens(),
            now.wf(),
        ensures
            final(self)@.wf(),
            match old(self)@.leave_target(id, who@, now) {
                Err(e) => r matches Err(x) && x == e && final(self)@ == old(self)@,
                Ok(i) => r matches Ok(actions) && ({
                    let before = old(self)@.entries[i].1;
                    let after = parted(before, who@, now, old(self).next_token);
                    &&& final(self)@ == old(self)@.with_war(i, after)
                    &&& actions_model(actions@) == cancel_model(before) + arm_model(after, now)
                }),
            },
    {
        let i = match self.find(id) {
            None => {
                return Err(WarError::NotFound);
            },
            Some(i) => i,
        };
        if now.after(self.entries[i].1.end_time) {
            return Err(WarError::NotFound);
        }
        let p = match position_of(&self.entries[i].1.participants, who) {
            None => {
                return Err(WarError::NotMember);
            },
            Some(p) => p,
        };
        let mut war = self.war_at(i);
        let ghost before = war@;
        proof {
            let q = before.participants.index_of(who@);
            assert(before.participants[p as int] == who@);
            assert(before.participants.contains(who@));
            assert(q == p);
        }
        war.participants.remove(p);
        assert(names_model(war.participants@) =~= before.participants.remove(p as int));
        assert(before.participants.remove(p as int).no_duplicates());
        let actions = war.register_msgs(now, self.next_token);
        self.replace(i, war);
        self.next_token = self.next_token + 2;
        Ok(actions)
    }

    /// Removes the war `id` for its starter and cancels what is pending for it.
    /// For anyone else nothing changes.
    pub fn cancel(&mut self, id: u64, requester: &String) -> (r: Result<
        Vec<TimerAction>,
        WarError,
    >)
        requires
            old(self)@.wf(),
        ensures
            final(self)@.wf(),
            match old(self)@.cancel_target(id, requester@) {
                Err(e) => r matches Err(x) && x == e && final(self)@ == old(self)@,
                Ok(i) => r matches Ok(actions) && final(self)@ == old(self)@.without(i)
                    && actions_model(actions@) == cancel_model(old(self)@.entries[i].1),
            },
    {
        let i = match self.find(id) {
            None => {
                return Err(WarError::NotFound);
            },
            Some(i) => i,
        };
        if self.entries[i].1.starter != *requester {
            return Err(WarError::NotOwner);
        }
        let (_, war) = self.entries.remove(i);
        assert(self@.entries =~= old(self)@.entries.remove(i as int));
        Ok(war.cancel())
    }

    /// A timer with `token`, armed for the war `id`, has fired. Where that war
    /// still exists and the token is still pending for it, the notification is
    /// due and is pending no longer; in every other case nothing is due and
    /// nothing changes.
    pub fn timer_fired(&mut self, id: u64, token: u64) -> (r: Option<(TimerKind, Vec<String>)>)
        requires
            old(self)@.wf(),
        ensures
            final(self)@.wf(),
            match old(self)@.index_of(id) {
                None => r is None && final(self)@ == old(self)@,
                Some(i) => {
                    let w = old(self)@.entries[i].1;
                    if w.start_msg == Some(token) {
                        &&& r matches Some((kind, names))
                        &&& kind == TimerKind::Start
                        &&& names_model(names@) == w.participants
                        &&& final(self)@.entries == old(self)@.entries.update(
                            i,
                            (id, WarModel { start_msg: None, ..w }),
                        )
                        &&& final(self).next_id == old(self).next_id
                        &&& final(self).next_token == old(self).next_token
                    } else if w.end_msg == Some(token) {
                        &&& r matches Some((kind, names))
                        &&& kind == TimerKind::End
                        &&& names_model(names@) == w.participants
                        &&& final(self)@.entries == old(self)@.entries.update(
                            i,
                            (id, WarModel { end_msg: None, ..w }),
                        )
                        &&& final(self).next_id == old(self).next_id
                        &&& final(self).next_token == old(self).next_token
                    } else {
                        r is None && final(self)@ == old(self)@
                    }
                },
            },
    {
        let i = match self.find(id) {
            None => {
                return None;
            },
            Some(i) => i,
        };
        let start = self.entries[i].1.start_msg;
        let end = self.entries[i].1.end_msg;
        if start == Some(token) {
            let mut war = self.war_at(i);
            war.start_msg = None;
            let names = clone_names(&war.participants);
            self.replace(i, war);
            Some((TimerKind::Start, names))
        } else if end == Some(token) {
            let mut war = self.war_at(i);
            war.end_msg = None;
            let names = clone_names(&war.participants);
            self.replace(i, war);
            Some((TimerKind::End, names))
        } else {
            None
        }
    }
}

/// A cancelled war is gone: after the starter has cancelled the war `id`, the
/// registry is well formed and holds no war under `id`, so that a timer that
/// fires for it later finds nothing to do.
pub proof fn lemma_cancelled_war_is_gone(m: WarsModel, id: u64, requester: Seq<char>)
    requires
        m.wf(),
        m.cancel_target(id, requester) is Ok,
    ensures
        m.without(m.cancel_target(id, requester).unwrap()).wf(),
        m.without(m.cancel_target(id, requester).unwrap()).index_of(id) is None,
{
    let i = m.cancel_target(id, requester).unwrap();
    let after = m.without(i);
    assert(m.entries[i].0 == id);
    assert forall|k: int| 0 <= k < after.entries.len() implies (#[trigger] after.entries[k]).0
        != id by {
        if k < i {
            assert(m.entries[k].0 < m.entries[i].0);
        } else {
            assert(m.entries[i].0 < m.entries[k + 1].0);
        }
    }
}

/// Joining keeps one pair of notifications: the actions that a join hands out
/// leave outstanding exactly the tokens that the war then holds, at most one
/// for its start and one for its end, and the one who joined is its last
/// participant.
pub proof fn lemma_join_outstanding(m: WarsModel, id: u64, who: Seq<char>, now: Moment)
    requires
        m.wf(),
        m.has_tokens(),
        m.join_target(id, who, now) is Ok,
    ensures
        ({
            let before = m.entries[m.join_target(id, who, now).unwrap()].1;
            let after = joined(before, who, now, m.next_token);
            &&& outstanding_after(
                before.pending(),
                cancel_model(before) + arm_model(after, now),
            ) == after.pending()
            &&& after.pending().len() <= 2
            &&& forall|t: u64| t < m.next_token ==> !after.pending().contains(t)
            &&& after.participants == before.participants.push(who)
            &&& m.with_war(m.join_target(id, who, now).unwrap(), after).wf()
        }),
{
    let before = m.entries[m.join_target(id, who, now).unwrap()].1;
    assert(before.wf());
    let grown = WarModel { participants: before.participants.push(who), ..before };
    lemma_rearm_outstanding(grown, now, m.next_token);
    assert(cancel_model(grown) == cancel_model(before));
    assert(grown.pending() == before.pending());
}

/// Leaving keeps one pair of notifications: the actions that a leave hands out
/// leave outstanding exactly the tokens that the war then holds, at most one
/// for its start and one for its end, and the one who left is no participant
/// any more.
pub proof fn lemma_leave_outstanding(m: WarsModel, id: u64, who: Seq<char>, now: Moment)
    requires
        m.wf(),
        m.has_tokens(),
        m.leave_target(id, who, now) is Ok,
    ensures
        ({
            let before = m.entries[m.leave_target(id, who, now).unwrap()].1;
            let after = parted(before, who, now, m.next_token);
            &&& outstanding_after(
                before.pending(),
                cancel_model(before) + arm_model(after, now),
            ) == after.pending()
            &&& after.pending().len() <= 2
            &&& forall|t: u64| t < m.next_token ==> !after.pending().contains(t)
            &&& !after.participants.contains(who)
            &&& forall|other: Seq<char>|
                other != who ==> after.participants.contains(other)
                    == before.participants.contains(other)
            &&& m.with_war(m.leave_target(id, who, now).unwrap(), after).wf()
        }),
{
    let i = m.leave_target(id, who, now).unwrap();
    let before = m.entries[i].1;
    let p = before.participants.index_of(who);
    let fewer = WarModel { participants: before.participants.remove(p), ..before };
    lemma_rearm_outstanding(fewer, now, m.next_token);
    assert(cancel_model(fewer) == cancel_model(before));
    assert(fewer.pending() == before.pending());
    assert(before.wf());
    assert(before.participants.contains(who));
    assert(before.participants[p] == who);
    let old_names = before.participants;
    let new_names = fewer.participants;
    assert(new_names.no_duplicates());
    assert forall|k: int| 0 <= k < new_names.len() implies new_names[k] != who by {
        if k < p {
            assert(new_names[k] == old_names[k]);
        } else {
            assert(new_names[k] == old_names[k + 1]);
        }
    }
    assert forall|other: Seq<char>| other != who implies new_names.contains(other)
        == old_names.contains(other) by {
        if old_names.contains(other) {
            let k = old_names.index_of(other);
            assert(old_names[k] == other);
            if k < p {
                assert(new_names[k] == other);
            } else {
                assert(new_names[k - 1] == other);
            }
        }
        if new_names.contains(other) {
            let k = new_names.index_of(other);
            assert(new_names[k] == other);
            if k < p {
                assert(old_names[k] == other);
            } else {
                assert(old_names[k + 1] == other);
            }
        }
    }
}

/// A join or a leave of the participant it names, at the moment it names.
pub enum Move {
    Join(Seq<char>, Moment),
    Leave(Seq<char>, Moment),
}

/// The registry after one move on the war `id`. A move that is refused
/// changes nothing.
pub open spec fn moved(m: WarsModel, id: u64, mv: Move) -> WarsModel {
    match mv {
        Move::Join(who, now) => match m.join_target(id, who, now) {
            Ok(i) => m.with_war(i, joined(m.entries[i].1, who, now, m.next_token)),
            Err(_) => m,
        },
        Move::Leave(who, now) => match m.leave_target(id, who, now) {
            Ok(i) => m.with_war(i, parted(m.entries[i].1, who, now, m.next_token)),
            Err(_) => m,
        },
    }
}

/// The actions that one move on the war `id` hands out. A move that is refused
/// hands out none.
pub open spec fn move_actions(m: WarsModel, id: u64, mv: Move) -> Seq<ActionModel> {
    match mv {
        Move::Join(who, now) => match m.join_target(id, who, now) {
            Ok(i) => cancel_model(m.entries[i].1) + arm_model(
                joined(m.entries[i].1, who, now, m.next_token),
                now,
            ),
            Err(_) => Seq::empty(),
        },
        Move::Leave(who, now) => match m.leave_target(id, who, now) {
            Ok(i) => cancel_model(m.entries[i].1) + arm_model(
                parted(m.entries[i].1, who, now, m.next_token),
                now,
            ),
            Err(_) => Seq::empty(),
        },
    }
}

/// The registry after the moves on the war `id`, in their order.
pub open spec fn after_moves(m: WarsModel, id: u64, moves: Seq<Move>) -> WarsModel
    decreases moves.len(),
{
    if moves.len() == 0 {
        m
    } else {
        moved(after_moves(m, id, moves.drop_last()), id, moves.last())
    }
}

/// The timers that are outstanding after the owner of the timers has carried
/// out what each of the moves handed out.
pub open spec fn outstanding_through(
    out: Set<u64>,
    m: WarsModel,
    id: u64,
    moves: Seq<Move>,
) -> Set<u64>
    decreases moves.len(),
{
    if moves.len() == 0 {
        out
    } else {
        outstanding_after(
            outstanding_through(out, m, id, moves.drop_last()),
            move_actions(after_moves(m, id, moves.drop_last()), id, moves.last()),
        )
    }
}

/// In a well-formed registry the war `id` stands where an entry carries `id`.
pub proof fn lemma_index_of(m: WarsModel, id: u64, i: int)
    requires
        m.wf(),
        0 <= i < m.entries.len(),
        m.entries[i].0 == id,
    ensures
        m.index_of(id) == Some(i),
{
    let c = choose|k: int| 0 <= k < m.entries.len() && (#[trigger] m.entries[k]).0 == id;
    if c < i {
        assert(m.entries[c].0 < m.entries[i].0);
    } else if c > i {
        assert(m.entries[i].0 < m.entries[c].0);
    }
}

/// Joins and leaves keep one pair of notifications. After any moves on a war,
/// as long as tokens are left for them, the registry is well formed, the war
/// still stands where it stood, and the timers outstanding for it are exactly
/// the tokens it holds: at most one for its start and one for its end.
pub proof fn lemma_moves_keep_one_pair(m: WarsModel, id: u64, moves: Seq<Move>)
    requires
        m.wf(),
        m.index_of(id) is Some,
        m.next_token + 2 * moves.len() < u64::MAX - 1,
    ensures
        ({
            let i = m.index_of(id).unwrap();
            let last = after_moves(m, id, moves);
            &&& last.wf()
            &&& last.index_of(id) == Some(i)
            &&& last.entries.len() == m.entries.len()
            &&& last.next_token <= m.next_token + 2 * moves.len()
            &&& outstanding_through(m.entries[i].1.pending(), m, id, moves)
                == last.entries[i].1.pending()
            &&& last.entries[i].1.pending().len() <= 2
        }),
    decreases moves.len(),
{
    let i = m.index_of(id).unwrap();
    let w = m.entries[i].1;
    if moves.len() == 0 {
        assert(w.pending().finite() && w.pending().len() <= 2) by {
            match (w.start_msg, w.end_msg) {
                (Some(a), Some(b)) => {
                    assert(w.pending() =~= set![a].insert(b));
                },
                (Some(a), None) => {
                    assert(w.pending() =~= set![a]);
                },
                (None, Some(b)) => {
                    assert(w.pending() =~= Set::<u64>::empty().insert(b));
                },
                (None, None) => {
                    assert(w.pending() =~= Set::<u64>::empty());
                },
            }
        }
    } else {
        let front = moves.drop_last();
        lemma_moves_keep_one_pair(m, id, front);
        let mid = after_moves(m, id, front);
        let out = outstanding_through(w.pending(), m, id, front);
        let last = moved(mid, id, moves.last());
        match moves.last() {
            Move::Join(who, now) => {
                if mid.join_target(id, who, now) is Ok {
                    lemma_join_outstanding(mid, id, who, now);
                    lemma_index_of(last, id, i);
                }
            },
            Move::Leave(who, now) => {
                if mid.leave_target(id, who, now) is Ok {
                    lemma_leave_outstanding(mid, id, who, now);
                    lemma_index_of(last, id, i);
                }
            },
        }
    }
}

/// An empty registry.
pub fn wars_init() -> (wars: Wars)
    ensures
        wars@.wf(),
        wars@.entries.len() == 0,
        wars.next_id == 0,
        wars.next_token == 0,
{
    Wars { next_id: 0, next_token: 0, entries: Vec::new() }
}

} // verus!
