use marsipan::clock::{minute, moment_of, now, start_and_end, until, Delay, Moment};
use marsipan::request::{number, parse_id, parse_ww, word};
use marsipan::war::{TimerAction, TimerKind, War, WarError};
use marsipan::wars::{wars_init, Wars};
use marsipan::wordwar::{bar_width, command, wordwar, wordwar_at, wordwar_cancel, wordwar_list, Command, Outcome};

const HOUR: u64 = 1000 * 3600;

fn at_minute(m: u64, s: u64) -> Moment {
    Moment { secs: HOUR + m * 60 + s, nanos: 0 }
}

fn name(s: &str) -> String {
    String::from(s)
}

fn one_war(wars: &mut Wars) -> u64 {
    let r = wordwar_at(wars, &name("ann"), b":15 for 20", at_minute(10, 30));
    r.expect("a war").0
}

#[test]
fn request_is_read() {
    assert_eq!(parse_ww(b":15 for 20"), Some((15, 20)));
    assert_eq!(parse_ww(b":007 for 0"), Some((7, 0)));
    assert_eq!(parse_ww(b":4294967295 for 1"), Some((4294967295, 1)));
}

#[test]
fn request_of_another_form_is_not_read() {
    assert_eq!(parse_ww(b"15 for 20"), None);
    assert_eq!(parse_ww(b":15 for 20 "), None);
    assert_eq!(parse_ww(b":15 for"), None);
    assert_eq!(parse_ww(b":15  for 20"), None);
    assert_eq!(parse_ww(b": for 20"), None);
    assert_eq!(parse_ww(b":15 for x"), None);
    assert_eq!(parse_ww(b":4294967296 for 1"), None);
    assert_eq!(parse_ww(b":1 for 99999999999999999999999999"), None);
    assert_eq!(parse_ww(b""), None);
}

#[test]
fn number_is_read_up_to_its_last_digit() {
    assert_eq!(number(b"ab123cd", 2, 1000), Some((123, 5)));
    assert_eq!(number(b"ab123cd", 2, 122), None);
    assert_eq!(number(b"ab123cd", 1, 1000), None);
    assert_eq!(number(b"18446744073709551615", 0, u64::MAX), Some((u64::MAX, 20)));
    assert_eq!(number(b"18446744073709551616", 0, u64::MAX), None);
}

#[test]
fn identifier_is_read() {
    assert_eq!(parse_id(b"42"), Some(42));
    assert_eq!(parse_id(b"42 "), None);
    assert_eq!(parse_id(b"x"), None);
    assert_eq!(parse_id(b""), None);
}

#[test]
fn word_splits_at_first_space() {
    assert_eq!(word(b"at :15 for 20"), (b"at".to_vec(), b":15 for 20".to_vec()));
    assert_eq!(word(b"list"), (b"list".to_vec(), vec![]));
    assert_eq!(word(b"cancel "), (b"cancel".to_vec(), vec![]));
    assert_eq!(word(b""), (vec![], vec![]));
}

#[test]
fn command_words() {
    assert_eq!(command(b"at"), Command::At);
    assert_eq!(command(b"cancel"), Command::Cancel);
    assert_eq!(command(b"list"), Command::List);
    assert_eq!(command(b"At"), Command::Other);
    assert_eq!(command(b""), Command::Other);
}

#[test]
fn until_gives_the_time_left() {
    let now = Moment { secs: 100, nanos: 250_000_000 };
    assert_eq!(until(103, now), Some(Delay { secs: 2, nanos: 750_000_000 }));
    assert_eq!(until(101, now), Some(Delay { secs: 0, nanos: 750_000_000 }));
    assert_eq!(until(100, now), None);
    assert_eq!(until(99, now), None);
    assert_eq!(until(100, Moment { secs: 100, nanos: 0 }), Some(Delay { secs: 0, nanos: 0 }));
    assert_eq!(until(160, Moment { secs: 100, nanos: 0 }), Some(Delay { secs: 60, nanos: 0 }));
}

#[test]
fn minute_of_the_hour() {
    assert_eq!(minute(HOUR + 10 * 60 + 30), 10);
    assert_eq!(minute(HOUR + 59 * 60 + 59), 59);
    assert_eq!(minute(HOUR), 0);
}

#[test]
fn start_later_in_this_hour() {
    assert_eq!(War::parse(b":15 for 20", at_minute(10, 30)),
               Ok((HOUR + 15 * 60, HOUR + 35 * 60, 20)));
}

#[test]
fn start_at_current_minute_rolls_one_hour() {
    assert_eq!(War::parse(b":10 for 20", at_minute(10, 30)),
               Ok((HOUR + 3600 + 10 * 60, HOUR + 3600 + 30 * 60, 20)));
    assert_eq!(War::parse(b":10 for 20", at_minute(10, 0)),
               Ok((HOUR + 3600 + 10 * 60, HOUR + 3600 + 30 * 60, 20)));
}

#[test]
fn start_before_current_minute_rolls_one_hour() {
    assert_eq!(War::parse(b":5 for 59", at_minute(10, 30)),
               Ok((HOUR + 3600 + 5 * 60, HOUR + 3600 + 64 * 60, 59)));
    assert_eq!(War::parse(b":0 for 1", at_minute(0, 0)),
               Ok((HOUR + 3600, HOUR + 3600 + 60, 1)));
}

#[test]
fn duration_out_of_range() {
    assert_eq!(War::parse(b":15 for 60", at_minute(10, 30)), Err(WarError::DurationOutOfRange));
    assert_eq!(War::parse(b":15 for 4000000000", at_minute(10, 30)), Err(WarError::DurationOutOfRange));
    assert_eq!(War::parse(b":15 for 0", at_minute(10, 30)), Err(WarError::DurationOutOfRange));
    assert_eq!(War::parse(b":99 for 60", at_minute(10, 30)), Err(WarError::DurationOutOfRange));
}

#[test]
fn bad_request_syntax() {
    assert_eq!(War::parse(b"15 for 20", at_minute(10, 30)), Err(WarError::BadRequestSyntax));
    assert_eq!(War::parse(b":15 for 4294967296", at_minute(10, 30)), Err(WarError::BadRequestSyntax));
}

#[test]
fn time_out_of_range() {
    assert_eq!(War::parse(b":60 for 20", at_minute(10, 30)), Err(WarError::TimeOutOfRange));
    assert_eq!(War::parse(b":15 for 20", Moment { secs: u64::MAX, nanos: 0 }), Err(WarError::TimeOutOfRange));
    assert_eq!(start_and_end(at_minute(10, 0), 60, 1), None);
    assert_eq!(start_and_end(at_minute(10, 0), 11, 1), Some((HOUR + 11 * 60, HOUR + 12 * 60)));
}

#[test]
fn schedule_arms_both_notifications() {
    let mut wars = wars_init();
    let now = Moment { secs: HOUR + 10 * 60 + 30, nanos: 500_000_000 };
    let (id, actions) = wordwar_at(&mut wars, &name("ann"), b":15 for 20", now).expect("a war");
    assert_eq!(id, 0);
    assert_eq!(actions,
               vec![TimerAction::Arm {
                        token: 0,
                        kind: TimerKind::Start,
                        delay: Delay { secs: 269, nanos: 500_000_000 },
                        recipients: vec![name("ann")],
                    },
                    TimerAction::Arm {
                        token: 1,
                        kind: TimerKind::End,
                        delay: Delay { secs: 1469, nanos: 500_000_000 },
                        recipients: vec![name("ann")],
                    }]);
    assert_eq!(wars.next_id, 1);
    assert_eq!(wars.next_token, 2);
    assert_eq!(wars.entries.len(), 1);
    let war = &wars.entries[0].1;
    assert_eq!(war.start_time, HOUR + 15 * 60);
    assert_eq!(war.end_time, HOUR + 35 * 60);
    assert_eq!(war.minutes, 20);
    assert_eq!(war.start_msg, Some(0));
    assert_eq!(war.end_msg, Some(1));
    assert_eq!(war.participants, vec![name("ann")]);
    assert_eq!(war.starter, name("ann"));
}

#[test]
fn refused_schedule_changes_nothing() {
    let mut wars = wars_init();
    one_war(&mut wars);
    let before = wars.clone();
    assert_eq!(wordwar_at(&mut wars, &name("bob"), b":15 for 60", at_minute(10, 30)),
               Err(WarError::DurationOutOfRange));
    assert_eq!(wordwar_at(&mut wars, &name("bob"), b"nonsense", at_minute(10, 30)),
               Err(WarError::BadRequestSyntax));
    assert_eq!(wars, before);
}

#[test]
fn identifiers_grow() {
    let mut wars = wars_init();
    assert_eq!(one_war(&mut wars), 0);
    assert_eq!(one_war(&mut wars), 1);
    wars.cancel(1, &name("ann")).expect("canceled");
    assert_eq!(one_war(&mut wars), 2);
    assert_eq!(wars.find(0), Some(0));
    assert_eq!(wars.find(1), None);
    assert_eq!(wars.find(2), Some(1));
}

#[test]
fn join_rearms_for_all_participants() {
    let mut wars = wars_init();
    let id = one_war(&mut wars);
    let actions = wars.join(id, name("bob"), at_minute(11, 0)).expect("joined");
    let both = vec![name("ann"), name("bob")];
    assert_eq!(actions,
               vec![TimerAction::Cancel(0),
                    TimerAction::Cancel(1),
                    TimerAction::Arm {
                        token: 2,
                        kind: TimerKind::Start,
                        delay: Delay { secs: 240, nanos: 0 },
                        recipients: both.clone(),
                    },
                    TimerAction::Arm {
                        token: 3,
                        kind: TimerKind::End,
                        delay: Delay { secs: 1440, nanos: 0 },
                        recipients: both.clone(),
                    }]);
    assert_eq!(wars.entries[0].1.participants, both);
    assert_eq!(wars.entries[0].1.start_msg, Some(2));
    assert_eq!(wars.entries[0].1.end_msg, Some(3));
    assert_eq!(wars.next_token, 4);
}

#[test]
fn join_twice_is_refused() {
    let mut wars = wars_init();
    let id = one_war(&mut wars);
    let before = wars.clone();
    assert_eq!(wars.join(id, name("ann"), at_minute(11, 0)), Err(WarError::AlreadyMember));
    assert_eq!(wars, before);
}

#[test]
fn join_unknown_or_ended_war_is_not_found() {
    let mut wars = wars_init();
    let id = one_war(&mut wars);
    let before = wars.clone();
    assert_eq!(wars.join(id + 1, name("bob"), at_minute(11, 0)), Err(WarError::NotFound));
    assert_eq!(wars.join(id, name("bob"), at_minute(35, 1)), Err(WarError::NotFound));
    assert_eq!(wars.leave(id, &name("ann"), at_minute(35, 1)), Err(WarError::NotFound));
    assert_eq!(wars.leave(id + 1, &name("ann"), at_minute(11, 0)), Err(WarError::NotFound));
    assert_eq!(wars, before);
}

#[test]
fn join_after_start_arms_only_the_end() {
    let mut wars = wars_init();
    let id = one_war(&mut wars);
    let actions = wars.join(id, name("bob"), at_minute(20, 0)).expect("joined");
    assert_eq!(actions,
               vec![TimerAction::Cancel(0),
                    TimerAction::Cancel(1),
                    TimerAction::Arm {
                        token: 3,
                        kind: TimerKind::End,
                        delay: Delay { secs: 900, nanos: 0 },
                        recipients: vec![name("ann"), name("bob")],
                    }]);
    assert_eq!(wars.entries[0].1.start_msg, None);
    assert_eq!(wars.entries[0].1.end_msg, Some(3));
}

#[test]
fn leave_rearms_without_the_one_who_left() {
    let mut wars = wars_init();
    let id = one_war(&mut wars);
    wars.join(id, name("bob"), at_minute(11, 0)).expect("joined");
    wars.join(id, name("cyd"), at_minute(11, 0)).expect("joined");
    let actions = wars.leave(id, &name("bob"), at_minute(12, 0)).expect("left");
    let rest = vec![name("ann"), name("cyd")];
    assert_eq!(actions,
               vec![TimerAction::Cancel(4),
                    TimerAction::Cancel(5),
                    TimerAction::Arm {
                        token: 6,
                        kind: TimerKind::Start,
                        delay: Delay { secs: 180, nanos: 0 },
                        recipients: rest.clone(),
                    },
                    TimerAction::Arm {
                        token: 7,
                        kind: TimerKind::End,
                        delay: Delay { secs: 1380, nanos: 0 },
                        recipients: rest.clone(),
                    }]);
    assert_eq!(wars.entries[0].1.participants, rest);
}

#[test]
fn leave_by_a_stranger_is_refused() {
    let mut wars = wars_init();
    let id = one_war(&mut wars);
    let before = wars.clone();
    assert_eq!(wars.leave(id, &name("bob"), at_minute(11, 0)), Err(WarError::NotMember));
    assert_eq!(wars, before);
}

#[test]
fn joins_and_leaves_keep_one_pending_pair() {
    let mut wars = wars_init();
    let id = one_war(&mut wars);
    let mut outstanding: Vec<u64> = vec![0, 1];
    let mut steps: Vec<Vec<TimerAction>> = Vec::new();
    steps.push(wars.join(id, name("bob"), at_minute(11, 0)).expect("joined"));
    steps.push(wars.join(id, name("cyd"), at_minute(11, 5)).expect("joined"));
    steps.push(wars.leave(id, &name("ann"), at_minute(12, 0)).expect("left"));
    steps.push(wars.leave(id, &name("cyd"), at_minute(12, 1)).expect("left"));
    steps.push(wars.join(id, name("ann"), at_minute(13, 0)).expect("joined"));
    for actions in steps {
        for a in actions {
            match a {
                TimerAction::Cancel(t) => outstanding.retain(|x| *x != t),
                TimerAction::Arm { token, .. } => outstanding.push(token),
            }
        }
        assert_eq!(outstanding.len(), 2);
    }
    let war = &wars.entries[0].1;
    assert_eq!(outstanding, vec![war.start_msg.unwrap(), war.end_msg.unwrap()]);
    let list = wordwar_list(&wars, at_minute(13, 0));
    assert_eq!(list.len(), 1);
    assert_eq!(list[0].participants, vec![name("bob"), name("ann")]);
}

#[test]
fn cancel_by_starter_removes_the_war() {
    let mut wars = wars_init();
    let id = one_war(&mut wars);
    assert_eq!(wars.cancel(id, &name("ann")),
               Ok(vec![TimerAction::Cancel(0), TimerAction::Cancel(1)]));
    assert_eq!(wars.entries.len(), 0);
    assert_eq!(wars.cancel(id, &name("ann")), Err(WarError::NotFound));
}

#[test]
fn cancel_by_another_is_refused() {
    let mut wars = wars_init();
    let id = one_war(&mut wars);
    wars.join(id, name("bob"), at_minute(11, 0)).expect("joined");
    let before = wars.clone();
    assert_eq!(wars.cancel(id, &name("bob")), Err(WarError::NotOwner));
    assert_eq!(wordwar_cancel(&mut wars, &name("bob"), b"0"), Err(WarError::NotOwner));
    assert_eq!(wars, before);
}

#[test]
fn cancel_command_reads_the_identifier() {
    let mut wars = wars_init();
    one_war(&mut wars);
    one_war(&mut wars);
    assert_eq!(wordwar_cancel(&mut wars, &name("ann"), b"one"), Err(WarError::BadRequestSyntax));
    assert_eq!(wordwar_cancel(&mut wars, &name("ann"), b"7"), Err(WarError::NotFound));
    assert_eq!(wordwar_cancel(&mut wars, &name("ann"), b"1"),
               Ok((1, vec![TimerAction::Cancel(2), TimerAction::Cancel(3)])));
    assert_eq!(wars.entries.len(), 1);
    assert_eq!(wars.entries[0].0, 0);
}

#[test]
fn timer_fires_once() {
    let mut wars = wars_init();
    let id = one_war(&mut wars);
    assert_eq!(wars.timer_fired(id, 0), Some((TimerKind::Start, vec![name("ann")])));
    assert_eq!(wars.entries[0].1.start_msg, None);
    assert_eq!(wars.timer_fired(id, 0), None);
    assert_eq!(wars.timer_fired(id, 1), Some((TimerKind::End, vec![name("ann")])));
    assert_eq!(wars.timer_fired(id, 1), None);
}

#[test]
fn timer_after_cancel_does_nothing() {
    let mut wars = wars_init();
    let id = one_war(&mut wars);
    let other = one_war(&mut wars);
    wars.cancel(id, &name("ann")).expect("canceled");
    let before = wars.clone();
    assert_eq!(wars.timer_fired(id, 0), None);
    assert_eq!(wars.timer_fired(id, 1), None);
    assert_eq!(wars.timer_fired(other, 0), None);
    assert_eq!(wars, before);
}

#[test]
fn stale_timer_after_rearm_does_nothing() {
    let mut wars = wars_init();
    let id = one_war(&mut wars);
    wars.join(id, name("bob"), at_minute(11, 0)).expect("joined");
    let before = wars.clone();
    assert_eq!(wars.timer_fired(id, 0), None);
    assert_eq!(wars, before);
}

#[test]
fn list_shows_progress() {
    let mut wars = wars_init();
    one_war(&mut wars);
    let list = wordwar_list(&wars, at_minute(12, 0));
    assert_eq!(list.len(), 1);
    assert_eq!(list[0].id, 0);
    assert_eq!(list[0].starter, name("ann"));
    assert_eq!(list[0].start_minute, 15);
    assert_eq!(list[0].end_minute, 35);
    assert_eq!(list[0].width, 0);
    assert_eq!(wordwar_list(&wars, at_minute(15, 0))[0].width, 0);
    assert_eq!(wordwar_list(&wars, at_minute(16, 39))[0].width, 0);
    assert_eq!(wordwar_list(&wars, at_minute(16, 40))[0].width, 1);
    assert_eq!(wordwar_list(&wars, at_minute(25, 0))[0].width, 6);
    assert_eq!(wordwar_list(&wars, at_minute(34, 59))[0].width, 11);
    assert_eq!(wordwar_list(&wars, at_minute(35, 0))[0].width, 12);
}

#[test]
fn list_leaves_out_ended_wars() {
    let mut wars = wars_init();
    one_war(&mut wars);
    wordwar_at(&mut wars, &name("bob"), b":40 for 5", at_minute(10, 30)).expect("a war");
    assert_eq!(wordwar_list(&wars, at_minute(35, 0)).len(), 2);
    let late = wordwar_list(&wars, Moment { secs: HOUR + 35 * 60, nanos: 1 });
    assert_eq!(late.len(), 1);
    assert_eq!(late[0].id, 1);
    assert_eq!(wordwar_list(&wars, at_minute(45, 1)).len(), 0);
    assert_eq!(wars.entries.len(), 2);
}

#[test]
fn bar_is_clamped_to_twelve() {
    let war = War {
        start_time: 0,
        end_time: 60,
        minutes: 1,
        start_msg: None,
        end_msg: None,
        participants: vec![],
        starter: name("ann"),
    };
    assert_eq!(bar_width(&war, Moment { secs: 30, nanos: 0 }), 6);
    assert_eq!(bar_width(&war, Moment { secs: 6000, nanos: 0 }), 12);
}

#[test]
fn command_is_dispatched() {
    let mut wars = wars_init();
    let now = at_minute(10, 30);
    match wordwar(&mut wars, &name("ann"), b"at :15 for 20", now) {
        Outcome::Scheduled(Ok((id, actions))) => {
            assert_eq!(id, 0);
            assert_eq!(actions.len(), 2);
        }
        other => panic!("{:?}", other),
    }
    match wordwar(&mut wars, &name("ann"), b"list", now) {
        Outcome::Listed(list) => assert_eq!(list.len(), 1),
        other => panic!("{:?}", other),
    }
    assert_eq!(wordwar(&mut wars, &name("bob"), b"cancel 0", now),
               Outcome::Canceled(Err(WarError::NotOwner)));
    assert_eq!(wordwar(&mut wars, &name("ann"), b"cancel 0", now),
               Outcome::Canceled(Ok((0, vec![TimerAction::Cancel(0), TimerAction::Cancel(1)]))));
    assert_eq!(wordwar(&mut wars, &name("ann"), b"at", now),
               Outcome::Scheduled(Err(WarError::BadRequestSyntax)));
    assert_eq!(wordwar(&mut wars, &name("ann"), b"dance now", now), Outcome::Unknown);
    assert_eq!(wars.entries.len(), 0);
}

#[test]
fn clock_readings_become_moments() {
    assert_eq!(moment_of(5, 7), Some(Moment { secs: 5, nanos: 7 }));
    assert_eq!(moment_of(0, 999_999_999), Some(Moment { secs: 0, nanos: 999_999_999 }));
    assert_eq!(moment_of(-1, 0), None);
    assert_eq!(moment_of(5, 1_000_000_000), None);
    let first = now().expect("a clock after the epoch");
    assert!(first.secs > 1_000_000_000);
    assert!(first.nanos < 1_000_000_000);
}
