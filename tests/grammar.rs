use worklog::action::Action;
use worklog::cli::{AbsoluteMessage, Cli, Error};
use worklog::grammar::{parse_syntax, ClockTime, Span, Syntax, When};
use worklog::time::{interval2duration, Date, Interval, LocalTime, Timestamp};

fn clock(hour: u32, minute: u32, second: u32) -> When {
    When::Clock(ClockTime { hour, minute, second })
}

#[test]
fn started_at_is_tried_before_started_and_start() {
    let syn = parse_syntax("started at 9:00: x").unwrap();
    assert_eq!(syn, Syntax::StartedAt(clock(9, 0, 0), Some(Span { start: 17, end: 18 })));
    match Cli::parse("started at 9:00: x").unwrap() {
        Cli::StartedAt(a) => {
            assert_eq!(a.message, "x");
            assert_eq!((a.timestamp.hour, a.timestamp.minute, a.timestamp.second), (9, 0, 0));
        }
        other => panic!("unexpected {:?}", other),
    }
}

#[test]
fn start_without_message_fails_and_stop_without_message_succeeds() {
    assert!(matches!(Cli::parse("start").unwrap_err(), Error::NoStartMessage));
    assert!(matches!(Cli::parse("start    ").unwrap_err(), Error::NoStartMessage));
    match Cli::parse("stop").unwrap() {
        Cli::Stop(b) => assert_eq!(b.message, ""),
        other => panic!("unexpected {:?}", other),
    }
}

#[test]
fn started_15m_ago_task_counts_back_from_now() {
    let cli = Cli::parse("started 15m ago: task").unwrap();
    let now = LocalTime {
        instant: Timestamp { secs: 1_700_000_000, nanos: 5 },
        date: Date { year: 2023, month: 11, day: 14 },
        hour: 22,
        minute: 13,
        second: 20,
    };
    match Action::from_cli_at(cli, &now) {
        Action::Start(e) => {
            assert_eq!(e.timestamp, Timestamp { secs: 1_700_000_000 - 900, nanos: 5 });
            assert_eq!(e.message, "task");
        }
        other => panic!("unexpected {:?}", other),
    }
}

#[test]
fn military_fragments_read_digit_pairs() {
    assert_eq!(
        parse_syntax("started at 2359: x").unwrap(),
        Syntax::StartedAt(clock(23, 59, 0), Some(Span { start: 17, end: 18 }))
    );
    assert_eq!(
        parse_syntax("stopped at 123456").unwrap(),
        Syntax::StoppedAt(clock(12, 34, 56), None)
    );
    match Cli::parse("started at 2359: x").unwrap() {
        Cli::StartedAt(a) => assert_eq!((a.timestamp.hour, a.timestamp.minute), (23, 59)),
        other => panic!("unexpected {:?}", other),
    }
}

#[test]
fn military_out_of_range_is_invalid_time() {
    assert!(matches!(Cli::parse("started at 0960: x").unwrap_err(), Error::InvalidTime));
    assert!(matches!(Cli::parse("stopped at 235960").unwrap_err(), Error::InvalidTime));
    assert!(matches!(Cli::parse("stopped at 2400").unwrap_err(), Error::InvalidTime));
}

#[test]
fn pm_markers_add_twelve_hours() {
    for line in ["stopped at 1:23p", "stopped at 1:23 p", "stopped at 1:23 PM", "stopped at 1:23pm"] {
        assert_eq!(parse_syntax(line).unwrap(), Syntax::StoppedAt(clock(13, 23, 0), None));
    }
    assert_eq!(parse_syntax("stopped at 1:23 am").unwrap(), Syntax::StoppedAt(clock(1, 23, 0), None));
    assert_eq!(parse_syntax("stopped at 1:23").unwrap(), Syntax::StoppedAt(clock(1, 23, 0), None));
    let a = Cli::parse("stopped at 1:23p").unwrap();
    let b = Cli::parse("stopped at 1:23 p").unwrap();
    let c = Cli::parse("stopped at 1:23 PM").unwrap();
    assert_eq!(a, b);
    assert_eq!(b, c);
}

#[test]
fn pm_marker_past_midnight_is_invalid() {
    assert!(matches!(Cli::parse("started at 12:30 pm: x").unwrap_err(), Error::InvalidTime));
}

#[test]
fn structural_mismatch_reports_where() {
    assert!(matches!(Cli::parse("").unwrap_err(), Error::UnexpectedParseError(0)));
    assert!(matches!(Cli::parse("start\tx").unwrap_err(), Error::UnexpectedParseError(5)));
    assert!(matches!(
        Cli::parse("started at 0901 foo").unwrap_err(),
        Error::UnexpectedParseError(15)
    ));
    assert!(matches!(
        Cli::parse("event rm 99999999999999999999").unwrap_err(),
        Error::UnexpectedParseError(9)
    ));
}

#[test]
fn unknown_command_names_the_word() {
    match Cli::parse("frobnicate the widgets").unwrap_err() {
        Error::UnknownCommand(name) => assert_eq!(name, "frobnicate"),
        other => panic!("unexpected {:?}", other),
    }
}

#[test]
fn paths() {
    assert_eq!(Cli::parse("path db").unwrap(), Cli::PathDatabase);
    assert_eq!(Cli::parse("paths database").unwrap(), Cli::PathDatabase);
    assert_eq!(Cli::parse("path conf").unwrap(), Cli::PathConfig);
    assert_eq!(Cli::parse("paths config").unwrap(), Cli::PathConfig);
}

#[test]
fn unreadable_phrases_name_the_phrase() {
    match Cli::parse("started blorp ago: x").unwrap_err() {
        Error::ParseInterval(p, _) => assert_eq!(p, "blorp"),
        other => panic!("unexpected {:?}", other),
    }
    match Cli::parse("report for blorp").unwrap_err() {
        Error::ParseDatetime(p, _) => assert_eq!(p, "blorp"),
        other => panic!("unexpected {:?}", other),
    }
}

#[test]
fn interval_phrases_in_seconds() {
    assert_eq!(interval2duration(Interval::Seconds(-30)), -30);
    assert_eq!(interval2duration(Interval::Days(2)), 172_800);
    assert_eq!(interval2duration(Interval::Months(1)), 2_592_000);
    match Cli::parse("stopped 2 days: x").unwrap() {
        Cli::Stopped(r) => assert_eq!(r.interval, Interval::Days(2)),
        other => panic!("unexpected {:?}", other),
    }
}

#[test]
fn messages_are_trimmed() {
    assert_eq!(
        parse_syntax("stop   over  and out  ").unwrap(),
        Syntax::Stop(Span { start: 7, end: 20 })
    );
    match Cli::parse("stopped 5m ago:   done  ").unwrap() {
        Cli::Stopped(r) => assert_eq!(r.message, "done"),
        other => panic!("unexpected {:?}", other),
    }
}

#[test]
fn numbers_past_five_digits_are_unreadable() {
    match Cli::parse("started 1234567s ago: x").unwrap_err() {
        Error::ParseInterval(p, _) => assert_eq!(p, "1234567s"),
        other => panic!("unexpected {:?}", other),
    }
    match Cli::parse("report 999999 days").unwrap_err() {
        Error::ParseDatetime(p, _) => assert_eq!(p, "999999 days"),
        other => panic!("unexpected {:?}", other),
    }
    match Cli::parse("stopped 12345s ago").unwrap() {
        Cli::Stopped(r) => assert_eq!(r.interval, Interval::Seconds(12345)),
        other => panic!("unexpected {:?}", other),
    }
}

#[test]
fn absolute_messages_fall_on_the_given_date() {
    let day = Date { year: 2024, month: 1, day: 2 };
    let a = AbsoluteMessage::at(day, 9, 15, "x").unwrap();
    assert_eq!(a.timestamp.date, day);
    assert_eq!((a.timestamp.hour, a.timestamp.minute, a.timestamp.second), (9, 15, 0));
    assert_eq!(a.message, "x");
}

#[test]
fn errors_compare_by_kind() {
    assert!(Error::UnknownCommand("a".to_string()) == Error::UnknownCommand("b".to_string()));
    assert!(Error::InvalidTime != Error::NoStartMessage);
    assert!(Error::UnexpectedParseError(1) == Error::UnexpectedParseError(2));
}
