use chrono::{Datelike, Local};
use worklog::cli::{AbsoluteMessage, BareMessage, Cli, Error, RelativeMessage};
use worklog::time::Date;

fn expect_ok(msg: &str, expect: Cli) {
    assert_eq!(Cli::parse(msg).unwrap(), expect);
}

fn date_of(d: chrono::NaiveDate) -> Date {
    Date { year: d.year(), month: d.month(), day: d.day() }
}

fn today() -> Date {
    date_of(Local::now().date_naive())
}

fn yesterday() -> Date {
    date_of(Local::now().date_naive().pred_opt().unwrap())
}

fn at_today(h: u32, m: u32, message: &str) -> AbsoluteMessage {
    AbsoluteMessage::new(h, m, message).expect("specified time is unambiguous")
}

#[test]
fn glorb() {
    let err = Cli::parse("glorb").unwrap_err();
    assert!(matches!(err, Error::UnknownCommand(_)));
}

#[test]
fn start_1234() {
    expect_ok("start #1234", Cli::Start(BareMessage::new("#1234")));
}

#[test]
fn bare_start() {
    let err = Cli::parse("start").unwrap_err();
    assert!(matches!(err, Error::NoStartMessage));
}

#[test]
fn bare_stop() {
    expect_ok("stop", Cli::Stop(BareMessage::new("")));
}

#[test]
fn stop_1234() {
    expect_ok("stop #1234", Cli::Stop(BareMessage::new("#1234")));
}

#[test]
fn started_15m_ago_2345() {
    expect_ok(
        "started 15m ago: #2345",
        Cli::Started(RelativeMessage::new(15 * 60, "#2345")),
    );
}

#[test]
fn started_15m_ago() {
    let err = Cli::parse("started 15m ago").unwrap_err();
    assert!(matches!(err, Error::NoStartMessage));
}

#[test]
fn stopped_5m_ago() {
    expect_ok(
        "stopped 5m ago",
        Cli::Stopped(RelativeMessage::new(5 * 60, "")),
    );
}

#[test]
fn stopped_5m_ago_2345() {
    expect_ok(
        "stopped 5m ago: #2345",
        Cli::Stopped(RelativeMessage::new(5 * 60, "#2345")),
    );
}

#[test]
fn started_at_0901_foo() {
    expect_ok("started at 0901: foo", Cli::StartedAt(at_today(9, 1, "foo")));
}

#[test]
fn started_at_1234_bar() {
    expect_ok("started at 12:34: bar", Cli::StartedAt(at_today(12, 34, "bar")));
}

#[test]
fn started_at_123456_bat() {
    let mut expect_msg = at_today(12, 34, "bat");
    expect_msg.timestamp = expect_msg
        .timestamp
        .with_second(56)
        .expect("56 is legal seconds");
    expect_ok("started at 12:34:56: bat", Cli::StartedAt(expect_msg));
}

#[test]
fn started_at_123p_ampm() {
    expect_ok("started at 1:23p: ampm", Cli::StartedAt(at_today(13, 23, "ampm")));
}

#[test]
fn started_at_0926pm_yem() {
    expect_ok(
        "started at 09:26 PM: yem",
        Cli::StartedAt(at_today(12 + 9, 26, "yem")),
    );
}

#[test]
fn started_at_123_p_ampm() {
    expect_ok("started at 1:23 p: ampm", Cli::StartedAt(at_today(13, 23, "ampm")));
}

#[test]
fn started_at_2403_3452() {
    let err = Cli::parse("started at 2403: 3452").unwrap_err();
    assert!(matches!(err, Error::InvalidTime));
}

#[test]
fn report_bare() {
    expect_ok("report", Cli::Report(today()))
}

#[test]
fn report_today() {
    expect_ok("report today", Cli::Report(today()))
}

#[test]
fn report_yesterday() {
    expect_ok("report yesterday", Cli::Report(yesterday()))
}

#[test]
fn report_2022_07_04() {
    expect_ok(
        "report 2022-07-04",
        Cli::Report(Date { year: 2022, month: 7, day: 4 }),
    )
}

#[test]
fn events_bare() {
    expect_ok("events", Cli::EventsList(today()))
}

#[test]
fn events_today() {
    expect_ok("events today", Cli::EventsList(today()))
}

#[test]
fn events_yesterday() {
    expect_ok("events yesterday", Cli::EventsList(yesterday()))
}

#[test]
fn events_2022_07_04() {
    expect_ok(
        "events 2022-07-04",
        Cli::EventsList(Date { year: 2022, month: 7, day: 4 }),
    )
}

#[test]
fn events_list_bare() {
    expect_ok("events list", Cli::EventsList(today()))
}

#[test]
fn events_list_today() {
    expect_ok("events list today", Cli::EventsList(today()))
}

#[test]
fn events_list_yesterday() {
    expect_ok("events list yesterday", Cli::EventsList(yesterday()))
}

#[test]
fn events_list_2022_07_04() {
    expect_ok(
        "events list 2022-07-04",
        Cli::EventsList(Date { year: 2022, month: 7, day: 4 }),
    )
}

#[test]
fn event_rm_1() {
    expect_ok("event rm 1", Cli::EventRm(1))
}

#[test]
fn events_rm_1() {
    expect_ok("events rm 1", Cli::EventRm(1))
}

#[test]
fn event_remove_1() {
    expect_ok("event remove 1", Cli::EventRm(1))
}

#[test]
fn events_remove_1() {
    expect_ok("events remove 1", Cli::EventRm(1))
}

#[test]
fn event_del_1() {
    expect_ok("event del 1", Cli::EventRm(1))
}

#[test]
fn events_del_1() {
    expect_ok("events del 1", Cli::EventRm(1))
}

#[test]
fn event_delete_1() {
    expect_ok("event delete 1", Cli::EventRm(1))
}

#[test]
fn events_delete_1() {
    expect_ok("events delete 1", Cli::EventRm(1))
}
