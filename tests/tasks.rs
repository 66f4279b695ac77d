use worklog::action::{ack_line, day_window, events_text, reconstruct_tasks, report_text, total_duration, truncate_message};
use worklog::db::{EvtType, EvtTypeIds, RetrieveEvent};
use worklog::models;
use worklog::models::get_evt_type_named;
use worklog::time::{Date, LocalTime, Timestamp};

const DAY: Date = Date { year: 2024, month: 1, day: 2 };
const MIDNIGHT: i64 = 1_704_153_600;

fn at(hour: u32, minute: u32) -> LocalTime {
    LocalTime {
        instant: Timestamp { secs: MIDNIGHT + (hour * 3600 + minute * 60) as i64, nanos: 0 },
        date: DAY,
        hour,
        minute,
        second: 0,
    }
}

fn event(id: i64, evt_type: EvtType, timestamp: LocalTime, message: &str) -> RetrieveEvent {
    RetrieveEvent { id, evt_type, timestamp, message: message.to_string() }
}

#[test]
fn second_start_closes_the_first_task() {
    let events = vec![
        event(1, EvtType::Start, at(9, 0), "A"),
        event(2, EvtType::Start, at(9, 30), "B"),
        event(3, EvtType::Stop, at(10, 0), ""),
    ];
    let tasks = reconstruct_tasks(&events);
    assert_eq!(tasks.len(), 2);
    assert_eq!(tasks[0].render(), "[0900–0930] (0:30) #1: A");
    assert_eq!(tasks[1].render(), "[0930–1000] (0:30) #2: B");
    assert_eq!(tasks[0].duration(), Some(1_800_000_000_000));
    assert_eq!(tasks[1].stop, Some(at(10, 0)));
    assert_eq!(total_duration(&tasks), 3_600_000_000_000);
    assert_eq!(
        report_text(&DAY, &tasks),
        "2024-01-02:\n-----------\n[0900–0930] (0:30) #1: A\n[0930–1000] (0:30) #2: B\n-----------\n  2 tasks    1:00\n"
    );
}

#[test]
fn lone_start_stays_open() {
    let events = vec![event(1, EvtType::Start, at(9, 0), "A")];
    let tasks = reconstruct_tasks(&events);
    assert_eq!(tasks.len(), 1);
    assert_eq!(tasks[0].stop, None);
    assert_eq!(tasks[0].duration(), None);
    assert_eq!(tasks[0].render(), "[0900–…   ] (0:00) #1: A");
    assert_eq!(total_duration(&tasks), 0);
    assert_eq!(
        report_text(&DAY, &tasks),
        "2024-01-02:\n-----------\n[0900–…   ] (0:00) #1: A\n-----------\n  1 tasks    0:00\n"
    );
}

#[test]
fn stop_with_nothing_open_makes_no_task() {
    let events = vec![
        event(1, EvtType::Stop, at(8, 0), ""),
        event(2, EvtType::Start, at(9, 0), "A"),
        event(3, EvtType::Stop, at(11, 45), ""),
        event(4, EvtType::Stop, at(12, 0), ""),
    ];
    let tasks = reconstruct_tasks(&events);
    assert_eq!(tasks.len(), 1);
    assert_eq!(tasks[0].id, 2);
    assert_eq!(tasks[0].render(), "[0900–1145] (2:45) #2: A");
    assert!(reconstruct_tasks(&Vec::new()).is_empty());
    assert_eq!(report_text(&DAY, &Vec::new()), "2024-01-02:\n-----------\n-----------\n  0 tasks    0:00\n");
}

#[test]
fn long_days_pad_nothing() {
    let events = vec![
        event(1, EvtType::Start, at(0, 0), "night"),
        event(2, EvtType::Stop, at(23, 59), ""),
    ];
    let mut tasks = reconstruct_tasks(&events);
    let more = vec![event(3, EvtType::Start, at(0, 0), "x"), event(4, EvtType::Stop, at(23, 59), "")];
    let mut later = reconstruct_tasks(&more);
    later[0].start.instant.secs += 86_400;
    later[0].stop.as_mut().unwrap().instant.secs += 86_400;
    tasks.append(&mut later);
    assert!(report_text(&DAY, &tasks).ends_with("  2 tasks   47:58\n"));
}

#[test]
fn event_list_lines() {
    let mut e = event(12, EvtType::Stop, at(17, 5), "home");
    e.timestamp.second = 9;
    let events = vec![event(11, EvtType::Start, at(9, 0), "write"), e];
    assert_eq!(
        events_text(&DAY, &events),
        "2024-01-02:\n-----------\n#11 090000: START write\n#12 170509: STOP home\n-----------\n"
    );
}

#[test]
fn acknowledgement_truncates_long_messages() {
    let long = "0123456789012345678901234567890123456789X";
    assert_eq!(truncate_message(long), "012345678901234567890123456789012345678…");
    let exact = "0123456789012345678901234567890123456789";
    assert_eq!(truncate_message(exact), exact);
    assert_eq!(ack_line(EvtType::Start, &at(9, 5), 7, "write"), "[2024-01-02 0905] #7: START write");
    assert_eq!(
        ack_line(EvtType::Stop, &at(9, 5), 8, long),
        "[2024-01-02 0905] #8: STOP 012345678901234567890123456789012345678…"
    );
}

#[test]
fn years_outside_four_digits_carry_a_sign() {
    let mut t = at(9, 5);
    t.date = Date { year: 12345, month: 3, day: 4 };
    assert_eq!(ack_line(EvtType::Start, &t, 1, "x"), "[+12345-03-04 0905] #1: START x");
    t.date = Date { year: -5, month: 3, day: 4 };
    assert_eq!(ack_line(EvtType::Start, &t, -1, "x"), "[-0005-03-04 0905] #-1: START x");
    t.date = Date { year: 987, month: 3, day: 4 };
    assert_eq!(ack_line(EvtType::Start, &t, 1, "x"), "[0987-03-04 0905] #1: START x");
}

#[test]
fn kind_ids_from_the_table() {
    let table = vec![
        models::EvtType { id: 4, name: "STOP".to_string() },
        models::EvtType { id: 9, name: "START".to_string() },
        models::EvtType { id: 5, name: "STOP".to_string() },
    ];
    let row = get_evt_type_named(&table, "STOP").unwrap();
    assert_eq!(row, models::EvtType { id: 4, name: "STOP".to_string() });
    assert_eq!(get_evt_type_named(&table, "PAUSE"), None);
    let ids = EvtTypeIds::from_table(&table).unwrap();
    assert_eq!(ids, EvtTypeIds { start: 9, stop: 4 });
    assert_eq!(ids.id(EvtType::Start), 9);
    assert_eq!(ids.unmap(4), Some(EvtType::Stop));
    assert_eq!(ids.unmap(ids.id(EvtType::Start)), Some(EvtType::Start));
    assert_eq!(ids.unmap(5), None);
    let only_stop = vec![models::EvtType { id: 4, name: "STOP".to_string() }];
    assert_eq!(EvtTypeIds::from_table(&only_stop), None);
    assert_eq!(EvtType::Start.name(), "START");
    assert_eq!(EvtType::Stop.name(), "STOP");
}

#[test]
fn a_day_window_runs_from_midnight_to_the_next_midnight() {
    let (a, b) = day_window(DAY).unwrap_or_else(|_| panic!("midnight is ambiguous"));
    assert_eq!(a.date, DAY);
    assert_eq!((a.hour, a.minute, a.second), (0, 0, 0));
    assert_eq!(b.date, Date { year: 2024, month: 1, day: 3 });
    assert_eq!((b.hour, b.minute, b.second), (0, 0, 0));
    assert_eq!(b.instant.secs - a.instant.secs, 86_400);
}

#[test]
fn next_dates() {
    let d = |year, month, day| Date { year, month, day };
    assert_eq!(d(2024, 2, 28).next(), Some(d(2024, 2, 29)));
    assert_eq!(d(2024, 2, 29).next(), Some(d(2024, 3, 1)));
    assert_eq!(d(2023, 2, 28).next(), Some(d(2023, 3, 1)));
    assert_eq!(d(1900, 2, 28).next(), Some(d(1900, 3, 1)));
    assert_eq!(d(2000, 2, 28).next(), Some(d(2000, 2, 29)));
    assert_eq!(d(-4, 2, 28).next(), Some(d(-4, 2, 29)));
    assert_eq!(d(2024, 4, 30).next(), Some(d(2024, 5, 1)));
    assert_eq!(d(2024, 12, 31).next(), Some(d(2025, 1, 1)));
    assert_eq!(d(i32::MAX, 12, 31).next(), None);
}
