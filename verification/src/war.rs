//! One word war: its times, its participants, and the two notifications that
//! may be pending for it.

use vstd::prelude::*;
use crate::clock::{delay_to, next_start, start_and_end, until, Delay, Moment};
use crate::request::{parse_ww, request_of};

verus! {

/// Why a request on the word wars is turned down.
#[derive(Clone, Copy, Debug, PartialEq, Eq, Structural)]
pub enum WarError {
    /// The request is not of the form `:<minute> for <minutes>`, or names no
    /// identifier.
    BadRequestSyntax,
    /// The length asked for is not between 1 and 59 minutes.
    DurationOutOfRange,
    /// The minute asked for is no minute of the hour, or the times cannot be
    /// held.
    TimeOutOfRange,
    NotFound,
    NotOwner,
    AlreadyMember,
    NotMember,
}

/// Which of a war's two notifications a timer stands for.
#[derive(Clone, Copy, Debug, PartialEq, Eq, Structural)]
pub enum TimerKind {
    Start,
    End,
}

/// What the owner of the timers is asked to do.
#[derive(Clone, Debug, PartialEq, Eq)]
pub enum TimerAction {
    /// Drop the timer with this token: it must never fire.
    Cancel(u64),
    /// Start a timer under `token` that fires after `delay` and addresses
    /// `recipients`.
    Arm { token: u64, kind: TimerKind, delay: Delay, recipients: Vec<String> },
}

pub enum ActionModel {
    Cancel(u64),
    Arm { token: u64, kind: TimerKind, delay: Delay, recipients: Seq<Seq<char>> },
}

pub open spec fn names_model(v: Seq<String>) -> Seq<Seq<char>> {
    Seq::new(v.len(), |i: int| v[i]@)
}

impl View for TimerAction {
    type V = ActionModel;

    open spec fn view(&self) -> ActionModel {
        match *self {
            TimerAction::Cancel(t) => ActionModel::Cancel(t),
            TimerAction::Arm { token, kind, delay, recipients } => ActionModel::Arm {
                token,
                kind,
                delay,
                recipients: names_model(recipients@),
            },
        }
    }
}

pub open spec fn actions_model(v: Seq<TimerAction>) -> Seq<ActionModel> {
    Seq::new(v.len(), |i: int| v[i]@)
}

/// A word war. Times are whole seconds of the local clock.
#[derive(Clone, Debug, PartialEq, Eq)]
pub struct War {
    pub start_time: u64,
    pub end_time: u64,
    pub minutes: i64,
    /// The token of the pending start notification, if one is pending.
    pub start_msg: Option<u64>,
    /// The token of the pending end notification, if one is pending.
    pub end_msg: Option<u64>,
    /// The participants, in the order in which they joined, each once.
    pub participants: Vec<String>,
    pub starter: String,
}

pub struct WarModel {
    pub start_time: u64,
    pub end_time: u64,
    pub minutes: i64,
    pub start_msg: Option<u64>,
    pub end_msg: Option<u64>,
    pub participants: Seq<Seq<char>>,
    pub starter: Seq<char>,
}

impl View for War {
    type V = WarModel;

    open spec fn view(&self) -> WarModel {
        WarModel {
            start_time: self.start_time,
            end_time: self.end_time,
            minutes: self.minutes,
            start_msg: self.start_msg,
            end_msg: self.end_msg,
            participants: names_model(self.participants@),
            starter: self.starter@,
        }
    }
}

impl WarModel {
    /// A war lasts 1 to 59 minutes, ends after it starts, and names no
    /// participant twice.
    pub open spec fn wf(self) -> bool {
        &&& 1 <= self.minutes <= 59
        &&& self.start_time < self.end_time
        &&& self.participants.no_duplicates()
    }

    /// The tokens of the notifications that are pending for this war.
    pub open spec fn pending(self) -> Set<u64> {
        let s: Set<u64> = match self.start_msg {
            Some(t) => set![t],
            None => Set::empty(),
        };
        match self.end_msg {
            Some(t) => s.insert(t),
            None => s,
        }
    }

    pub open spec fn tokens_below(self, bound: u64) -> bool {
        &&& self.start_msg matches Some(t) ==> t < bound
        &&& self.end_msg matches Some(t) ==> t < bound
    }
}

/// The cancellations of what is pending for `w`: the start, then the end.
pub open spec fn cancel_model(w: WarModel) -> Seq<ActionModel> {
    let first: Seq<ActionModel> = match w.start_msg {
        Some(t) => seq![ActionModel::Cancel(t)],
        None => Seq::empty(),
    };
    match w.end_msg {
        Some(t) => first.push(ActionModel::Cancel(t)),
        None => first,
    }
}

/// The timers that stand behind the pending tokens of `w` when armed at `now`:
/// each fires at the war's start or end and addresses its participants.
pub open spec fn arm_model(w: WarModel, now: Moment) -> Seq<ActionModel> {
    let first: Seq<ActionModel> = match w.start_msg {
        Some(t) => seq![
            ActionModel::Arm {
                token: t,
                kind: TimerKind::Start,
                delay: delay_to(w.start_time, now),
                recipients: w.participants,
            },
        ],
        None => Seq::empty(),
    };
    match w.end_msg {
        Some(t) => first.push(
            ActionModel::Arm {
                token: t,
                kind: TimerKind::End,
                delay: delay_to(w.end_time, now),
                recipients: w.participants,
            },
        ),
        None => first,
    }
}

/// The war `w` with its notifications armed anew at `now`: a notification is
/// pending, under a token of its own, for each of start and end that `now` is
/// not after.
pub open spec fn rearmed(w: WarModel, now: Moment, token: u64) -> WarModel {
    WarModel {
        start_msg: if now.is_after(w.start_time) {
            None
        } else {
            Some(token)
        },
        end_msg: if now.is_after(w.end_time) {
            None
        } else {
            Some((token + 1) as u64)
        },
        ..w
    }
}

/// The set of outstanding timers after the owner of the timers has carried out
/// `actions` in their order.
pub open spec fn outstanding_after(before: Set<u64>, actions: Seq<ActionModel>) -> Set<u64>
    decreases actions.len(),
{
    if actions.len() == 0 {
        before
    } else {
        let rest = outstanding_after(before, actions.drop_last());
        match actions.last() {
            ActionModel::Cancel(t) => rest.remove(t),
            ActionModel::Arm { token, .. } => rest.insert(token),
        }
    }
}

/// What a request asks for at `now`: the start, the end and the length in
/// minutes of the war, or why there is none.
pub open spec fn schedule_of(s: Seq<u8>, now: Moment) -> Result<(u64, u64, i64), WarError> {
    match request_of(s) {
        None => Err(WarError::BadRequestSyntax),
        Some((at, minutes)) => if minutes > 59 || minutes < 1 {
            Err(WarError::DurationOutOfRange)
        } else if at > 59 || next_start(now.secs, at) + minutes * 60 > u64::MAX {
            Err(WarError::TimeOutOfRange)
        } else {
            Ok(
                (
                    next_start(now.secs, at) as u64,
                    (next_start(now.secs, at) + minutes * 60) as u64,
                    minutes as i64,
                ),
            )
        },
    }
}

pub fn clone_names(names: &Vec<String>) -> (out: Vec<String>)
    ensures
        names_model(out@) == names_model(names@),
{
    let mut out: Vec<String> = Vec::new();
    let mut i: usize = 0;
    while i < names.len()
        invariant
            i <= names@.len(),
            out@.len() == i,
            forall|j: int| 0 <= j < i ==> (#[trigger] out@[j])@ == names@[j]@,
        decreases names@.len() - i,
    {
        out.push(names[i].clone());
        i += 1;
    }
    assert(names_model(out@) =~= names_model(names@));
    out
}

fn push_action(list: &mut Vec<TimerAction>, action: TimerAction)
    ensures
        actions_model(final(list)@) == actions_model(old(list)@).push(action@),
{
    list.push(action);
    assert(actions_model(list@) =~= actions_model(old(list)@).push(action@));
}

impl War {
    /// Reads a request and computes the times of the war it asks for.
    pub fn parse(bytes: &[u8], now: Moment) -> (r: Result<(u64, u64, i64), WarError>)
        ensures
            r == schedule_of(bytes@, now),
    {
        let (at, minutes) = match parse_ww(bytes) {
            None => {
                return Err(WarError::BadRequestSyntax);
            },
            Some(found) => found,
        };
        if minutes > 59 || minutes < 1 {
            return Err(WarError::DurationOutOfRange);
        }
        match start_and_end(now, at, minutes) {
            None => Err(WarError::TimeOutOfRange),
            Some((start, end)) => Ok((start, end, minutes as i64)),
        }
    }

    /// The cancellations of this war's pending notifications.
    pub fn cancel(&self) -> (actions: Vec<TimerAction>)
        ensures
            actions_model(actions@) == cancel_model(self@),
    {
        let mut actions: Vec<TimerAction> = Vec::new();
        assert(actions_model(actions@) =~= Seq::<ActionModel>::empty());
        if let Some(t) = self.start_msg {
            push_action(&mut actions, TimerAction::Cancel(t));
        }
        if let Some(t) = self.end_msg {
            push_action(&mut actions, TimerAction::Cancel(t));
        }
        assert(actions_model(actions@) =~= cancel_model(self@));
        actions
    }

    /// Cancels what is pending and arms both notifications anew, for the
    /// participants as they are now, under the tokens `token` and `token + 1`.
    pub fn register_msgs(&mut self, now: Moment, token: u64) -> (actions: Vec<TimerAction>)
        requires
            now.wf(),
            token < u64::MAX,
        ensures
            final(self)@ == rearmed(old(self)@, now, token),
            actions_model(actions@) == cancel_model(old(self)@) + arm_model(final(self)@, now),
    {
        let mut actions = self.cancel();
        let ghost canceled = actions_model(actions@);
        self.start_msg = None;
        self.end_msg = None;
        if let Some(delay) = until(self.start_time, now) {
            let recipients = clone_names(&self.participants);
            push_action(
                &mut actions,
                TimerAction::Arm { token, kind: TimerKind::Start, delay, recipients },
            );
            self.start_msg = Some(token);
        }
        if let Some(delay) = until(self.end_time, now) {
            let recipients = clone_names(&self.participants);
            push_action(
                &mut actions,
                TimerAction::Arm { token: token + 1, kind: TimerKind::End, delay, recipients },
            );
            self.end_msg = Some(token + 1);
        }
        assert(actions_model(actions@) =~= canceled + arm_model(self@, now));
        actions
    }
}

/// Re-arming leaves exactly the war's own tokens outstanding: whatever was
/// pending for it before is cancelled, and at most one start and one end
/// notification are outstanding after, both under the new tokens, so that no
/// token handed out earlier is pending any more.
pub proof fn lemma_rearm_outstanding(w: WarModel, now: Moment, token: u64)
    requires
        token < u64::MAX,
    ensures
        outstanding_after(
            w.pending(),
            cancel_model(w) + arm_model(rearmed(w, now, token), now),
        ) == rearmed(w, now, token).pending(),
        rearmed(w, now, token).pending().finite(),
        rearmed(w, now, token).pending().len() <= 2,
        forall|t: u64| t < token ==> !rearmed(w, now, token).pending().contains(t),
{
    let after = rearmed(w, now, token);
    let none = Seq::<ActionModel>::empty();
    let p = w.pending();
    let cancel_start: Seq<ActionModel> = match w.start_msg {
        Some(t) => seq![ActionModel::Cancel(t)],
        None => none,
    };
    if let Some(t) = w.start_msg {
        assert(cancel_start =~= none.push(ActionModel::Cancel(t)));
        lemma_outstanding_push(p, none, ActionModel::Cancel(t));
    }
    if let Some(t) = w.end_msg {
        lemma_outstanding_push(p, cancel_start, ActionModel::Cancel(t));
    }
    assert(outstanding_after(p, cancel_model(w)) =~= Set::<u64>::empty());
    let e = Set::<u64>::empty();
    let arm_start: Seq<ActionModel> = match after.start_msg {
        Some(t) => seq![
            ActionModel::Arm {
                token: t,
                kind: TimerKind::Start,
                delay: delay_to(after.start_time, now),
                recipients: after.participants,
            },
        ],
        None => none,
    };
    if let Some(t) = after.start_msg {
        let a = ActionModel::Arm {
            token: t,
            kind: TimerKind::Start,
            delay: delay_to(after.start_time, now),
            recipients: after.participants,
        };
        assert(arm_start =~= none.push(a));
        lemma_outstanding_push(e, none, a);
    }
    if let Some(t) = after.end_msg {
        let a = ActionModel::Arm {
            token: t,
            kind: TimerKind::End,
            delay: delay_to(after.end_time, now),
            recipients: after.participants,
        };
        lemma_outstanding_push(e, arm_start, a);
    }
    assert(outstanding_after(e, arm_model(after, now)) =~= after.pending());
    lemma_outstanding_concat(p, cancel_model(w), arm_model(after, now));
}

/// One more action changes the outstanding set by that action alone.
pub proof fn lemma_outstanding_push(before: Set<u64>, actions: Seq<ActionModel>, a: ActionModel)
    ensures
        outstanding_after(before, actions.push(a)) == (match a {
            ActionModel::Cancel(t) => outstanding_after(before, actions).remove(t),
            ActionModel::Arm { token, .. } => outstanding_after(before, actions).insert(token),
        }),
{
    assert(actions.push(a).drop_last() =~= actions);
}

/// Carrying out one list of actions after another is carrying out the two as
/// one.
pub proof fn lemma_outstanding_concat(
    before: Set<u64>,
    first: Seq<ActionModel>,
    second: Seq<ActionModel>,
)
    ensures
        outstanding_after(before, first + second) == outstanding_after(
            outstanding_after(before, first),
            second,
        ),
    decreases second.len(),
{
    if second.len() == 0 {
        assert(first + second =~= first);
    } else {
        lemma_outstanding_concat(before, first, second.drop_last());
        assert((first + second).drop_last() =~= first + second.drop_last());
    }
}

} // verus!
