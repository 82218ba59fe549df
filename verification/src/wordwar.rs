//! The word-war command: what a line of chat asks of the registry, and what
//! is to be done about it.

use vstd::prelude::*;
use crate::bytes::same_bytes;
use crate::clock::{lemma_next_start, minute, minute_of, Moment};
use crate::request::{after_word, id_of, parse_id, request_of, word, word_end};
use crate::war::{
    actions_model, arm_model, cancel_model, clone_names, names_model, schedule_of, ActionModel,
    TimerAction, War, WarError, WarModel,
};
use crate::wars::{started, Wars, WarsModel};

verus! {

/// The sub-commands of the word-war command.
#[derive(Clone, Copy, Debug, PartialEq, Eq, Structural)]
pub enum Command {
    At,
    Cancel,
    List,
    Other,
}

pub open spec fn command_of(w: Seq<u8>) -> Command {
    if w == seq![97u8, 116u8] {
        Command::At
    } else if w == seq![99u8, 97u8, 110u8, 99u8, 101u8, 108u8] {
        Command::Cancel
    } else if w == seq![108u8, 105u8, 115u8, 116u8] {
        Command::List
    } else {
        Command::Other
    }
}

/// Which sub-command the word `w` names: `at`, `cancel` or `list`.
pub fn command(w: &[u8]) -> (c: Command)
    ensures
        c == command_of(w@),
{
    let at = vec![97u8, 116u8];
    let cancel = vec![99u8, 97u8, 110u8, 99u8, 101u8, 108u8];
    let list = vec![108u8, 105u8, 115u8, 116u8];
    if same_bytes(w, at.as_slice()) {
        Command::At
    } else if same_bytes(w, cancel.as_slice()) {
        Command::Cancel
    } else if same_bytes(w, list.as_slice()) {
        Command::List
    } else {
        Command::Other
    }
}

/// One line of the list of wars.
#[derive(Clone, Debug, PartialEq, Eq)]
pub struct ListEntry {
    pub id: u64,
    pub starter: String,
    pub participants: Vec<String>,
    /// The minute of the hour at which the war starts.
    pub start_minute: u32,
    /// The minute of the hour at which the war ends.
    pub end_minute: u32,
    /// How many of the twelve steps of the progress bar are filled.
    pub width: u32,
}

pub struct EntryModel {
    pub id: u64,
    pub starter: Seq<char>,
    pub participants: Seq<Seq<char>>,
    pub start_minute: u32,
    pub end_minute: u32,
    pub width: u32,
}

impl View for ListEntry {
    type V = EntryModel;

    open spec fn view(&self) -> EntryModel {
        EntryModel {
            id: self.id,
            starter: self.starter@,
            participants: names_model(self.participants@),
            start_minute: self.start_minute,
            end_minute: self.end_minute,
            width: self.width,
        }
    }
}

pub open spec fn list_model(v: Seq<ListEntry>) -> Seq<EntryModel> {
    Seq::new(v.len(), |i: int| v[i]@)
}

/// The whole seconds of the war that have passed at `now`.
pub open spec fn elapsed(w: WarModel, now: Moment) -> int {
    if now.secs < w.start_time {
        0
    } else {
        now.secs - w.start_time
    }
}

/// The filled steps of the progress bar: twelve for the whole length of the
/// war, never more.
pub open spec fn progress(w: WarModel, now: Moment) -> int {
    let steps = elapsed(w, now) * 12 / (w.minutes * 60);
    if steps > 12 {
        12
    } else {
        steps
    }
}

pub open spec fn entry_of(id: u64, w: WarModel, now: Moment) -> EntryModel {
    EntryModel {
        id,
        starter: w.starter,
        participants: w.participants,
        start_minute: minute_of(w.start_time) as u32,
        end_minute: minute_of(w.end_time) as u32,
        width: progress(w, now) as u32,
    }
}

/// The list at `now`: a line for each war that has not ended, in the order of
/// the entries.
pub open spec fn listing(entries: Seq<(u64, WarModel)>, now: Moment) -> Seq<EntryModel>
    decreases entries.len(),
{
    if entries.len() == 0 {
        Seq::empty()
    } else {
        let rest = listing(entries.drop_last(), now);
        if now.is_after(entries.last().1.end_time) {
            rest
        } else {
            rest.push(entry_of(entries.last().0, entries.last().1, now))
        }
    }
}

/// The registry after `sender` has scheduled a war with the given times.
pub open spec fn scheduled(m: WarsModel, sender: Seq<char>, times: (u64, u64, i64), now: Moment)
    -> WarsModel {
    WarsModel {
        next_id: (m.next_id + 1) as u64,
        next_token: (m.next_token + 2) as u64,
        entries: m.entries.push((m.next_id, started(sender, times, now, m.next_token))),
    }
}

/// A new war has both its notifications pending: its start lies after the
/// moment at which it is scheduled, so a timer is armed for its start and one
/// for its end, and the war is well formed.
pub proof fn lemma_schedule_arms_both(rest: Seq<u8>, sender: Seq<char>, now: Moment, token: u64)
    requires
        schedule_of(rest, now) is Ok,
        token < u64::MAX,
    ensures
        ({
            let war = started(sender, schedule_of(rest, now).unwrap(), now, token);
            &&& war.wf()
            &&& war.start_msg == Some(token)
            &&& war.end_msg == Some((token + 1) as u64)
            &&& now.secs < war.start_time < war.end_time
            &&& war.end_time == war.start_time + war.minutes * 60
            &&& war.start_time <= now.secs - now.secs % 60 + 3600
        }),
{
    let (at, minutes) = request_of(rest).unwrap();
    lemma_next_start(now.secs, at);
    assert(seq![sender].no_duplicates());
}

/// What scheduling owes: on a request that cannot be met, its error and an
/// unchanged registry; else a new war under the next identifier, started by
/// `sender` alone, and the timers armed for it.
pub open spec fn at_post(
    before: WarsModel,
    after: WarsModel,
    sender: Seq<char>,
    rest: Seq<u8>,
    now: Moment,
    r: Result<(u64, Vec<TimerAction>), WarError>,
) -> bool {
    match schedule_of(rest, now) {
        Err(e) => r matches Err(x) && x == e && after == before,
        Ok(times) => r matches Ok((id, actions)) && id == before.next_id && after == scheduled(
            before,
            sender,
            times,
            now,
        ) && actions_model(actions@) == arm_model(
            started(sender, times, now, before.next_token),
            now,
        ),
    }
}

/// What cancelling owes: an error and an unchanged registry where the text is
/// no identifier, names no war, or names a war of someone else; else the war
/// is gone and what was pending for it is cancelled.
pub open spec fn cancel_post(
    before: WarsModel,
    after: WarsModel,
    sender: Seq<char>,
    text: Seq<u8>,
    r: Result<(u64, Vec<TimerAction>), WarError>,
) -> bool {
    match id_of(text) {
        None => r matches Err(x) && x == WarError::BadRequestSyntax && after == before,
        Some(id) => match before.cancel_target(id, sender) {
            Err(e) => r matches Err(x) && x == e && after == before,
            Ok(i) => r matches Ok((rid, actions)) && rid == id && after == before.without(i)
                && actions_model(actions@) == cancel_model(before.entries[i].1),
        },
    }
}

/// Schedules the war that `rest` asks for, with `sender` as its starter and
/// first participant.
pub fn wordwar_at(wars: &mut Wars, sender: &String, rest: &[u8], now: Moment) -> (r: Result<
    (u64, Vec<TimerAction>),
    WarError,
>)
    requires
        old(wars)@.wf(),
        old(wars)@.has_tokens(),
        old(wars).next_id < u64::MAX,
        now.wf(),
    ensures
        final(wars)@.wf(),
        at_post(old(wars)@, final(wars)@, sender@, rest@, now, r),
{
    let times = match War::parse(rest, now) {
        Err(e) => {
            return Err(e);
        },
        Ok(times) => times,
    };
    let id = wars.next_id;
    let mut participants: Vec<String> = Vec::new();
    participants.push(sender.clone());
    assert(names_model(participants@) =~= seq![sender@]);
    let mut war = War {
        start_time: times.0,
        end_time: times.1,
        minutes: times.2,
        start_msg: None,
        end_msg: None,
        participants,
        starter: sender.clone(),
    };
    let ghost fresh = war@;
    let actions = war.register_msgs(now, wars.next_token);
    assert(cancel_model(fresh) =~= Seq::<ActionModel>::empty());
    assert(cancel_model(fresh) + arm_model(war@, now) =~= arm_model(war@, now));
    let ghost added = war@;
    wars.entries.push((id, war));
    wars.next_id = wars.next_id + 1;
    wars.next_token = wars.next_token + 2;
    assert(wars@.entries =~= old(wars)@.entries.push((id, added)));
    Ok((id, actions))
}

/// Cancels the war that `text` names, for its starter.
pub fn wordwar_cancel(wars: &mut Wars, sender: &String, text: &[u8]) -> (r: Result<
    (u64, Vec<TimerAction>),
    WarError,
>)
    requires
        old(wars)@.wf(),
    ensures
        final(wars)@.wf(),
        cancel_post(old(wars)@, final(wars)@, sender@, text@, r),
{
    let id = match parse_id(text) {
        None => {
            return Err(WarError::BadRequestSyntax);
        },
        Some(id) => id,
    };
    match wars.cancel(id, sender) {
        Err(e) => Err(e),
        Ok(actions) => Ok((id, actions)),
    }
}

/// How many of the twelve steps of the progress bar of `war` are filled.
pub fn bar_width(war: &War, now: Moment) -> (w: u32)
    requires
        1 <= war.minutes <= 59,
    ensures
        w == progress(war@, now),
        w <= 12,
{
    let passed: u128 = if now.secs < war.start_time {
        0
    } else {
        (now.secs - war.start_time) as u128
    };
    let steps: u128 = passed * 12 / ((war.minutes as u128) * 60);
    if steps > 12 {
        12
    } else {
        steps as u32
    }
}

/// Lists the wars that have not ended at `now`.
pub fn wordwar_list(wars: &Wars, now: Moment) -> (list: Vec<ListEntry>)
    requires
        wars@.wf(),
    ensures
        list_model(list@) == listing(wars@.entries, now),
{
    let mut list: Vec<ListEntry> = Vec::new();
    let mut i: usize = 0;
    assert(wars@.entries.take(0) =~= Seq::<(u64, WarModel)>::empty());
    assert(list_model(list@) =~= Seq::<EntryModel>::empty());
    while i < wars.entries.len()
        invariant
            wars@.wf(),
            i <= wars.entries@.len(),
            list_model(list@) == listing(wars@.entries.take(i as int), now),
        decreases wars.entries@.len() - i,
    {
        let war = &wars.entries[i].1;
        proof {
            let longer = wars@.entries.take(i + 1);
            assert(longer.drop_last() =~= wars@.entries.take(i as int));
            assert(longer.last() == wars@.entries[i as int]);
            assert(wars@.entries[i as int].1.wf());
        }
        if !now.after(war.end_time) {
            let entry = ListEntry {
                id: wars.entries[i].0,
                starter: war.starter.clone(),
                participants: clone_names(&war.participants),
                start_minute: minute(war.start_time),
                end_minute: minute(war.end_time),
                width: bar_width(war, now),
            };
            let ghost before = list_model(list@);
            list.push(entry);
            assert(list_model(list@) =~= before.push(entry@));
        }
        i += 1;
    }
    assert(wars@.entries.take(i as int) =~= wars@.entries);
    list
}

/// What came of a word-war command.
#[derive(Debug, PartialEq, Eq)]
pub enum Outcome {
    /// `at`: the identifier of the new war and the timers to arm, or why there
    /// is no new war.
    Scheduled(Result<(u64, Vec<TimerAction>), WarError>),
    /// `cancel`: the identifier of the war that is gone and the timers to
    /// cancel, or why nothing was cancelled.
    Canceled(Result<(u64, Vec<TimerAction>), WarError>),
    /// `list`: the wars that have not ended.
    Listed(Vec<ListEntry>),
    /// Any other word: nothing was done.
    Unknown,
}

/// Carries out the word-war command in `content` for `sender`: the first word
/// names the sub-command, what follows the space after it is its argument.
pub fn wordwar(wars: &mut Wars, sender: &String, content: &[u8], now: Moment) -> (r: Outcome)
    requires
        old(wars)@.wf(),
        old(wars)@.has_tokens(),
        old(wars).next_id < u64::MAX,
        now.wf(),
    ensures
        final(wars)@.wf(),
        match command_of(content@.subrange(0, word_end(content@))) {
            Command::At => r matches Outcome::Scheduled(res) && at_post(
                old(wars)@,
                final(wars)@,
                sender@,
                after_word(content@),
                now,
                res,
            ),
            Command::Cancel => r matches Outcome::Canceled(res) && cancel_post(
                old(wars)@,
                final(wars)@,
                sender@,
                after_word(content@),
                res,
            ),
            Command::List => r matches Outcome::Listed(list) && final(wars)@ == old(wars)@
                && list_model(list@) == listing(old(wars)@.entries, now),
            Command::Other => r is Unknown && final(wars)@ == old(wars)@,
        },
{
    let (first, rest) = word(content);
    match command(first.as_slice()) {
        Command::At => Outcome::Scheduled(wordwar_at(wars, sender, rest.as_slice(), now)),
        Command::Cancel => Outcome::Canceled(wordwar_cancel(wars, sender, rest.as_slice())),
        Command::List => Outcome::Listed(wordwar_list(wars, now)),
        Command::Other => Outcome::Unknown,
    }
}

} // verus!
