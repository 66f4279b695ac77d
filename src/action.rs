//! What a command asks for, and the computing behind each action: the
//! acknowledgement of a start or stop, the tasks of a day, and the report and
//! event list texts.

use crate::cli::Cli;
use crate::db::{EvtType, Id, RetrieveEvent};
use crate::text::{decimal, pad_left, push_decimal, push_padded, push_signed, signed_decimal};
use crate::time::{
    date_after, interval2duration, interval_secs, local_instant, now, Date, LocalTime, Timestamp,
    CLOCK_RANGE_SECS,
};
use vstd::prelude::*;

verus! {

/// A start or stop to be recorded.
#[derive(Debug)]
pub struct Event {
    pub timestamp: Timestamp,
    pub message: String,
}

/// What a command asks the tracker to do.
#[derive(Debug)]
pub enum Action {
    Start(Event),
    Stop(Event),
    Report(Date),
    PathDatabase,
    PathConfig,
    EventsList(Date),
    EventRm(Id),
}

/// The instant `secs` seconds before `t`.
pub open spec fn secs_before(t: Timestamp, secs: int) -> Timestamp {
    Timestamp { secs: (t.secs - secs) as i64, nanos: t.nanos }
}

/// An event at `t` carrying `message`.
pub open spec fn event_is(e: Event, t: Timestamp, message: Seq<char>) -> bool {
    e.timestamp == t && e.message@ == message
}

/// The action that `cli` asks for when the current local time is `now`.
pub open spec fn asks_for(cli: Cli, now: LocalTime, r: Action) -> bool {
    match cli {
        Cli::Start(b) => r matches Action::Start(e) && event_is(e, now.instant, b.message@),
        Cli::Stop(b) => r matches Action::Stop(e) && event_is(e, now.instant, b.message@),
        Cli::Started(x) => r matches Action::Start(e) && event_is(
            e,
            secs_before(now.instant, interval_secs(x.interval)),
            x.message@,
        ),
        Cli::Stopped(x) => r matches Action::Stop(e) && event_is(
            e,
            secs_before(now.instant, interval_secs(x.interval)),
            x.message@,
        ),
        Cli::StartedAt(x) => r matches Action::Start(e) && event_is(
            e,
            x.timestamp.instant,
            x.message@,
        ),
        Cli::StoppedAt(x) => r matches Action::Stop(e) && event_is(e, x.timestamp.instant, x.message@),
        Cli::Report(d) => r == Action::Report(d),
        Cli::PathDatabase => r == Action::PathDatabase,
        Cli::PathConfig => r == Action::PathConfig,
        Cli::EventsList(d) => r == Action::EventsList(d),
        Cli::EventRm(id) => r == Action::EventRm(id),
    }
}

impl Action {
    /// The action that `cli` asks for, with `now` as the current local time:
    /// an interval counts back from now, a bare start or stop is now.
    pub fn from_cli_at(cli: Cli, now: &LocalTime) -> (r: Action)
        requires
            now.wf(),
        ensures
            asks_for(cli, *now, r),
    {
        match cli {
            Cli::Start(b) => Action::Start(Event { timestamp: now.instant, message: b.message }),
            Cli::Stop(b) => Action::Stop(Event { timestamp: now.instant, message: b.message }),
            Cli::Started(x) => {
                let secs = now.instant.secs - interval2duration(x.interval);
                let timestamp = Timestamp { secs, nanos: now.instant.nanos };
                Action::Start(Event { timestamp, message: x.message })
            },
            Cli::Stopped(x) => {
                let secs = now.instant.secs - interval2duration(x.interval);
                let timestamp = Timestamp { secs, nanos: now.instant.nanos };
                Action::Stop(Event { timestamp, message: x.message })
            },
            Cli::StartedAt(x) => Action::Start(
                Event { timestamp: x.timestamp.instant, message: x.message },
            ),
            Cli::StoppedAt(x) => Action::Stop(
                Event { timestamp: x.timestamp.instant, message: x.message },
            ),
            Cli::Report(d) => Action::Report(d),
            Cli::PathDatabase => Action::PathDatabase,
            Cli::PathConfig => Action::PathConfig,
            Cli::EventsList(d) => Action::EventsList(d),
            Cli::EventRm(id) => Action::EventRm(id),
        }
    }

    /// The action that `cli` asks for, read against the current local time.
    pub fn from_cli(cli: Cli) -> (r: Action)
        ensures
            exists|now: LocalTime| now.wf() && #[trigger] asks_for(cli, now, r),
    {
        let now = now();
        Action::from_cli_at(cli, &now)
    }
}

/// Why an action could not be carried out.
#[derive(Debug, Clone, Copy, PartialEq, Eq)]
pub enum Error {
    /// The start of the requested day is not a single instant in the local zone.
    AmbiguousLocalMidnight,
}

/// `t` is the local clock reading midnight at the start of `date`.
pub open spec fn is_midnight_of(t: LocalTime, date: Date) -> bool {
    t.wf() && t.date == date && t.hour == 0 && t.minute == 0 && t.second == 0
}

/// The instant at which `date` starts on the local clock, with that reading,
/// if the local clock reads midnight of `date` exactly once.
pub fn midnight_of(date: Date) -> (r: Result<LocalTime, Error>)
    ensures
        r matches Ok(t) ==> is_midnight_of(t, date),
        r matches Err(e) ==> e == Error::AmbiguousLocalMidnight,
{
    match local_instant(date, 0, 0, 0) {
        Some(lt) => Ok(lt),
        None => Err(Error::AmbiguousLocalMidnight),
    }
}

/// The window of a day's events: from the local midnight that starts `date`,
/// included, to the local midnight that starts the next date, excluded.
pub fn day_window(date: Date) -> (r: Result<(LocalTime, LocalTime), Error>)
    ensures
        r matches Ok((a, b)) ==> is_midnight_of(a, date) && date_after(date) == Some(b.date)
            && is_midnight_of(b, b.date),
        r matches Err(e) ==> e == Error::AmbiguousLocalMidnight,
{
    let start = midnight_of(date)?;
    match date.next() {
        Some(next) => {
            let end = midnight_of(next)?;
            Ok((start, end))
        },
        None => Err(Error::AmbiguousLocalMidnight),
    }
}

/// A stretch of work: from a start event to whatever event came next, or
/// still going when no event came after it.
#[derive(Debug)]
pub struct Task {
    pub start: LocalTime,
    pub stop: Option<LocalTime>,
    pub id: Id,
    pub message: String,
}

pub open spec fn nanos_of(t: LocalTime) -> int {
    t.instant.total_nanos()
}

fn nanos_exec(t: &LocalTime) -> (r: i128)
    ensures
        r == nanos_of(*t),
{
    t.instant.secs as i128 * 1_000_000_000 + t.instant.nanos as i128
}

impl Task {
    /// How long the task ran, in nanoseconds; nothing while it is still going.
    pub open spec fn spec_duration(self) -> Option<int> {
        match self.stop {
            Some(s) => Some(nanos_of(s) - nanos_of(self.start)),
            None => None,
        }
    }

    /// Well-formed: readable times, and a stop no earlier than the start.
    pub open spec fn wf(self) -> bool {
        &&& self.start.wf()
        &&& self.stop matches Some(s) ==> s.wf() && nanos_of(self.start) <= nanos_of(s)
    }

    pub fn duration(&self) -> (r: Option<i128>)
        ensures
            r matches Some(d) ==> self.spec_duration() == Some(d as int),
            r is None ==> self.spec_duration() is None,
    {
        match &self.stop {
            Some(s) => Some(nanos_exec(s) - nanos_exec(&self.start)),
            None => None,
        }
    }
}

/// The kinds of a list of events, in order.
pub open spec fn kinds_of(events: Seq<RetrieveEvent>) -> Seq<EvtType> {
    events.map_values(|e: RetrieveEvent| e.evt_type)
}

/// Reading the first `i` kinds: the tasks closed so far, each as the
/// positions of its start event and of the event that closed it, and the
/// position of the start event of the task still open, if any. Each event
/// closes the open task; a start event then opens a new one.
pub open spec fn fold_tasks(kinds: Seq<EvtType>, i: int) -> (Seq<(int, Option<int>)>, Option<int>)
    decreases i,
{
    if i <= 0 {
        (Seq::empty(), None)
    } else {
        let (done, open) = fold_tasks(kinds, i - 1);
        let closed = match open {
            Some(st) => done.push((st, Some(i - 1))),
            None => done,
        };
        (closed, if kinds[i - 1] == EvtType::Start { Some(i - 1) } else { None })
    }
}

/// The tasks of a list of event kinds, as positions: the closed ones, then
/// the one left open at the end, if any.
pub open spec fn task_shapes(kinds: Seq<EvtType>) -> Seq<(int, Option<int>)> {
    let (done, open) = fold_tasks(kinds, kinds.len() as int);
    match open {
        Some(st) => done.push((st, None)),
        None => done,
    }
}

/// `t` is the task that starts at event `shape.0` and is closed by event
/// `shape.1`, if that is given.
pub open spec fn task_from(t: Task, events: Seq<RetrieveEvent>, shape: (int, Option<int>)) -> bool {
    let e = events[shape.0];
    &&& t.start == e.timestamp
    &&& t.id == e.id
    &&& t.message@ == e.message@
    &&& match shape.1 {
        Some(k) => t.stop == Some(events[k].timestamp),
        None => t.stop is None,
    }
}

/// `tasks` are the tasks of `events`.
pub open spec fn tasks_of(tasks: Seq<Task>, events: Seq<RetrieveEvent>) -> bool {
    let shapes = task_shapes(kinds_of(events));
    &&& tasks.len() == shapes.len()
    &&& forall|k: int| 0 <= k < tasks.len() ==> #[trigger] task_from(tasks[k], events, shapes[k])
}

/// Events in the order of their instants.
pub open spec fn events_in_order(events: Seq<RetrieveEvent>) -> bool {
    forall|i: int, j: int|
        0 <= i <= j < events.len() ==> nanos_of(#[trigger] events[i].timestamp) <= nanos_of(
            #[trigger] events[j].timestamp,
        )
}

pub open spec fn events_wf(events: Seq<RetrieveEvent>) -> bool {
    forall|i: int| 0 <= i < events.len() ==> (#[trigger] events[i]).timestamp.wf()
}

/// Whether the events are in the order of their instants, with readable times.
pub fn events_ordered(events: &Vec<RetrieveEvent>) -> (r: bool)
    ensures
        r == (events_in_order(events@) && events_wf(events@)),
{
    let mut k: usize = 0;
    while k < events.len()
        invariant
            k <= events.len(),
            forall|i: int| 0 <= i < k ==> (#[trigger] events@[i]).timestamp.wf(),
            forall|i: int, j: int|
                0 <= i <= j < k ==> nanos_of(#[trigger] events@[i].timestamp) <= nanos_of(
                    #[trigger] events@[j].timestamp,
                ),
        decreases events.len() - k,
    {
        let t = &events[k].timestamp;
        let wf = t.date.month >= 1 && t.date.month <= 12 && t.date.day >= 1 && t.date.day <= 31
            && t.hour < 24 && t.minute < 60 && t.second < 60 && t.instant.secs >= -CLOCK_RANGE_SECS
            && t.instant.secs <= CLOCK_RANGE_SECS && t.instant.nanos < 2_000_000_000;
        if !wf {
            assert(!events@[k as int].timestamp.wf());
            return false;
        }
        if k > 0 && nanos_exec(&events[k - 1].timestamp) > nanos_exec(t) {
            assert(!events_in_order(events@));
            return false;
        }
        assert forall|i: int, j: int|
            0 <= i <= j < k + 1 implies nanos_of(#[trigger] events@[i].timestamp) <= nanos_of(
            #[trigger] events@[j].timestamp,
        ) by {
            if j == k && i < k {
                assert(nanos_of(events@[i].timestamp) <= nanos_of(events@[k - 1].timestamp));
            }
        }
        k = k + 1;
    }
    true
}

/// One task at a time: each task is well-formed, every task but the last is
/// closed, and none starts before the one ahead of it stopped.
pub open spec fn tasks_in_order(tasks: Seq<Task>) -> bool {
    &&& forall|k: int| 0 <= k < tasks.len() ==> (#[trigger] tasks[k]).wf()
    &&& forall|k: int|
        0 <= k < tasks.len() - 1 ==> ((#[trigger] tasks[k]).stop matches Some(s) && nanos_of(s)
            <= nanos_of(tasks[k + 1].start))
}

pub open spec fn done_at(events: Seq<RetrieveEvent>, i: int) -> Seq<(int, Option<int>)> {
    fold_tasks(kinds_of(events), i).0
}

pub open spec fn open_at(events: Seq<RetrieveEvent>, i: int) -> Option<int> {
    fold_tasks(kinds_of(events), i).1
}

/// Turns a day's events into its tasks. Each event closes the task that is
/// open at it; a start event then opens a new one, and a stop event opens
/// nothing. A task still open after the last event stays open. Given events
/// in order, the tasks come one at a time.
pub fn reconstruct_tasks(events: &Vec<RetrieveEvent>) -> (r: Vec<Task>)
    ensures
        tasks_of(r@, events@),
        events_in_order(events@) && events_wf(events@) ==> tasks_in_order(r@),
{
    let ghost evs = events@;
    let mut tasks: Vec<Task> = Vec::new();
    let mut in_progress: Option<Task> = None;
    let mut i: usize = 0;
    while i < events.len()
        invariant
            i <= events.len(),
            evs == events@,
            tasks@.len() == done_at(evs, i as int).len(),
            forall|k: int|
                0 <= k < tasks@.len() ==> #[trigger] task_from(
                    tasks@[k],
                    evs,
                    done_at(evs, i as int)[k],
                ),
            match open_at(evs, i as int) {
                Some(st) => in_progress matches Some(t) && task_from(t, evs, (st, None)),
                None => in_progress is None,
            },
            events_in_order(evs) && events_wf(evs) ==> {
                &&& tasks_in_order(tasks@)
                &&& forall|k: int| 0 <= k < tasks@.len() ==> (#[trigger] tasks@[k]).stop is Some
                &&& tasks@.len() > 0 ==> i > 0 && nanos_of(tasks@.last().stop->0) <= nanos_of(
                    evs[i - 1].timestamp,
                )
                &&& in_progress matches Some(t) ==> {
                    &&& i > 0 && t.start.wf() && nanos_of(t.start) <= nanos_of(evs[i - 1].timestamp)
                    &&& tasks@.len() > 0 ==> nanos_of(tasks@.last().stop->0) <= nanos_of(t.start)
                }
            },
        decreases events.len() - i,
    {
        let event = &events[i];
        let ghost old_tasks = tasks@;
        let prev = in_progress;
        in_progress = None;
        match prev {
            Some(t) => {
                let closed = Task { start: t.start, stop: Some(event.timestamp), id: t.id, message: t.message };
                tasks.push(closed);
            },
            None => {},
        }
        proof {
            let (done, open) = fold_tasks(kinds_of(evs), i as int);
            assert(done_at(evs, i + 1) == match open {
                Some(st) => done.push((st, Some(i as int))),
                None => done,
            });
            assert forall|k: int| 0 <= k < tasks@.len() implies #[trigger] task_from(
                tasks@[k],
                evs,
                done_at(evs, i + 1)[k],
            ) by {
                if k < old_tasks.len() {
                    assert(tasks@[k] == old_tasks[k]);
                }
            }
        }
        if event.evt_type == EvtType::Start {
            in_progress = Some(
                Task { start: event.timestamp, stop: None, id: event.id, message: event.message.clone() },
            );
        }
        i = i + 1;
    }
    let ghost old_tasks = tasks@;
    match in_progress {
        Some(t) => tasks.push(t),
        None => {},
    }
    proof {
        assert forall|k: int| 0 <= k < tasks@.len() implies #[trigger] task_from(
            tasks@[k],
            evs,
            task_shapes(kinds_of(evs))[k],
        ) by {
            if k < old_tasks.len() {
                assert(tasks@[k] == old_tasks[k]);
            }
        }
    }
    tasks
}

/// A task's share of the day's total: its duration, or zero while open.
pub open spec fn task_nanos(t: Task) -> int {
    match t.spec_duration() {
        Some(d) => d,
        None => 0,
    }
}

pub open spec fn total_nanos(tasks: Seq<Task>) -> int
    decreases tasks.len(),
{
    if tasks.len() == 0 {
        0
    } else {
        total_nanos(tasks.drop_last()) + task_nanos(tasks.last())
    }
}

/// How far a task reaches: its stop, or its start while it is open.
pub open spec fn reach(t: Task) -> int {
    match t.stop {
        Some(s) => nanos_of(s),
        None => nanos_of(t.start),
    }
}

/// The summed duration of the tasks, in nanoseconds; an open task adds zero.
pub fn total_duration(tasks: &Vec<Task>) -> (r: i128)
    requires
        tasks_in_order(tasks@),
    ensures
        r == total_nanos(tasks@),
        r >= 0,
        tasks@.len() > 0 ==> r <= reach(tasks@.last()) - nanos_of(tasks@[0].start),
{
    let mut sum: i128 = 0;
    let mut k: usize = 0;
    while k < tasks.len()
        invariant
            k <= tasks.len(),
            tasks_in_order(tasks@),
            sum == total_nanos(tasks@.take(k as int)),
            sum >= 0,
            k > 0 ==> sum <= reach(tasks@[k - 1]) - nanos_of(tasks@[0].start),
        decreases tasks.len() - k,
    {
        let t = &tasks[k];
        assert(t.wf());
        assert(tasks@[0].wf());
        let d: i128 = match t.duration() {
            Some(d) => d,
            None => 0,
        };
        assert(tasks@.take(k + 1).drop_last() =~= tasks@.take(k as int));
        assert(tasks@.take(k + 1).last() == tasks@[k as int]);
        if k > 0 {
            assert(tasks@[k - 1].stop matches Some(s) && nanos_of(s) <= nanos_of(tasks@[k as int].start));
        }
        sum = sum + d;
        k = k + 1;
    }
    assert(tasks@.take(k as int) =~= tasks@);
    sum
}

/// Two digits, zero-padded.
pub open spec fn pad2(n: nat) -> Seq<char> {
    pad_left(decimal(n), 2, '0')
}

/// A year as `%Y` writes it: four digits at least, with a sign outside
/// the years 0 to 9999.
pub open spec fn year_text(y: int) -> Seq<char> {
    if 0 <= y <= 9999 {
        pad_left(decimal(y as nat), 4, '0')
    } else if y > 9999 {
        "+"@ + decimal(y as nat)
    } else {
        "-"@ + pad_left(decimal((-y) as nat), 4, '0')
    }
}

/// `YYYY-MM-DD`.
pub open spec fn date_text(d: Date) -> Seq<char> {
    year_text(d.year as int) + "-"@ + pad2(d.month as nat) + "-"@ + pad2(d.day as nat)
}

/// `HHMM` on the local clock.
pub open spec fn hhmm(t: LocalTime) -> Seq<char> {
    pad2(t.hour as nat) + pad2(t.minute as nat)
}

fn push_pad2(out: &mut String, n: u32)
    ensures
        final(out)@ == old(out)@ + pad2(n as nat),
{
    push_padded(out, n as u64, 2, '0');
}

fn push_date(out: &mut String, d: &Date)
    ensures
        final(out)@ == old(out)@ + date_text(*d),
{
    let ghost start = out@;
    let y = d.year;
    if 0 <= y && y <= 9999 {
        push_padded(out, y as u64, 4, '0');
    } else if y > 9999 {
        out.append("+");
        push_decimal(out, y as u64);
    } else {
        out.append("-");
        push_padded(out, (-(y as i64)) as u64, 4, '0');
    }
    assert(out@ =~= start + year_text(d.year as int));
    out.append("-");
    push_pad2(out, d.month);
    out.append("-");
    push_pad2(out, d.day);
    assert(out@ =~= start + date_text(*d));
}

fn push_hhmm(out: &mut String, t: &LocalTime)
    ensures
        final(out)@ == old(out)@ + hhmm(*t),
{
    let ghost start = out@;
    push_pad2(out, t.hour);
    push_pad2(out, t.minute);
    assert(out@ =~= start + hhmm(*t));
}

/// Whole minutes in a non-negative number of nanoseconds.
pub open spec fn minutes_of(nanos: int) -> nat {
    (nanos / 60_000_000_000) as nat
}

/// The stop column of a task line: its stop, or a placeholder while open.
pub open spec fn stop_column(t: Task) -> Seq<char> {
    match t.stop {
        Some(s) => hhmm(s),
        None => "…   "@,
    }
}

/// `[HHMM–HHMM] (H:MM) #id: message`
pub open spec fn task_line(t: Task) -> Seq<char> {
    let m = minutes_of(task_nanos(t));
    "["@ + hhmm(t.start) + "–"@ + stop_column(t) + "] ("@ + decimal(m / 60) + ":"@ + pad2(m % 60)
        + ") #"@ + signed_decimal(t.id as int) + ": "@ + t.message@
}

fn minutes_exec(nanos: i128) -> (r: u64)
    requires
        0 <= nanos <= 100_000_000_000_000_000_000_000,
    ensures
        r == minutes_of(nanos as int),
{
    ((nanos as u128) / 60_000_000_000u128) as u64
}

impl Task {
    /// The task as a line of the report.
    pub fn render(&self) -> (r: String)
        requires
            self.wf(),
        ensures
            r@ == task_line(*self),
    {
        let nanos: i128 = match self.duration() {
            Some(d) => d,
            None => 0,
        };
        let m = minutes_exec(nanos);
        let mut out = String::from_str("[");
        push_hhmm(&mut out, &self.start);
        out.append("–");
        let ghost before_stop = out@;
        match &self.stop {
            Some(s) => push_hhmm(&mut out, s),
            None => out.append("…   "),
        }
        assert(out@ == before_stop + stop_column(*self));
        out.append("] (");
        push_decimal(&mut out, m / 60);
        out.append(":");
        push_pad2(&mut out, (m % 60) as u32);
        out.append(") #");
        push_signed(&mut out, self.id);
        out.append(": ");
        out.append(self.message.as_str());
        out
    }
}

/// The lines of the report's tasks, each ended by a newline.
pub open spec fn task_lines(tasks: Seq<Task>) -> Seq<char>
    decreases tasks.len(),
{
    if tasks.len() == 0 {
        Seq::empty()
    } else {
        task_lines(tasks.drop_last()) + task_line(tasks.last()) + "\n"@
    }
}

/// The report of a day: its date, a rule, a line per task, a rule, and the
/// number of tasks with their total time, `H:MM`.
pub open spec fn report_text_of(date: Date, tasks: Seq<Task>) -> Seq<char> {
    let m = minutes_of(total_nanos(tasks));
    date_text(date) + ":\n"@ + "-----------\n"@ + task_lines(tasks) + "-----------\n"@ + " "@
        + pad_left(decimal(tasks.len()), 2, ' ') + " tasks   "@ + pad_left(decimal(m / 60), 2, ' ')
        + ":"@ + pad2(m % 60) + "\n"@
}

/// The report of the day `date`, given its tasks one at a time.
pub fn report_text(date: &Date, tasks: &Vec<Task>) -> (r: String)
    requires
        tasks_in_order(tasks@),
    ensures
        r@ == report_text_of(*date, tasks@),
{
    let mut out = String::new();
    push_date(&mut out, date);
    out.append(":\n");
    out.append("-----------\n");
    let ghost head = out@;
    assert(head =~= date_text(*date) + ":\n"@ + "-----------\n"@);
    let mut k: usize = 0;
    while k < tasks.len()
        invariant
            k <= tasks.len(),
            tasks_in_order(tasks@),
            out@ == head + task_lines(tasks@.take(k as int)),
        decreases tasks.len() - k,
    {
        assert(tasks@[k as int].wf());
        let line = tasks[k].render();
        out.append(line.as_str());
        out.append("\n");
        assert(tasks@.take(k + 1).drop_last() =~= tasks@.take(k as int));
        assert(out@ =~= head + task_lines(tasks@.take(k + 1)));
        k = k + 1;
    }
    assert(tasks@.take(k as int) =~= tasks@);
    let total = total_duration(tasks);
    proof {
        if tasks@.len() > 0 {
            let last = tasks@.last();
            assert(last.wf());
            assert(tasks@[0].wf());
        }
    }
    let m = minutes_exec(total);
    out.append("-----------\n");
    out.append(" ");
    push_padded(&mut out, tasks.len() as u64, 2, ' ');
    out.append(" tasks   ");
    push_padded(&mut out, m / 60, 2, ' ');
    out.append(":");
    push_pad2(&mut out, (m % 60) as u32);
    out.append("\n");
    assert(out@ =~= report_text_of(*date, tasks@));
    out
}

/// `HHMMSS` on the local clock.
pub open spec fn hhmmss(t: LocalTime) -> Seq<char> {
    hhmm(t) + pad2(t.second as nat)
}

/// `#id HHMMSS: KIND message`, then a newline.
pub open spec fn event_line(e: RetrieveEvent) -> Seq<char> {
    "#"@ + signed_decimal(e.id as int) + " "@ + hhmmss(e.timestamp) + ": "@ + e.evt_type.spec_name()
        + " "@ + e.message@ + "\n"@
}

pub open spec fn event_lines(events: Seq<RetrieveEvent>) -> Seq<char>
    decreases events.len(),
{
    if events.len() == 0 {
        Seq::empty()
    } else {
        event_lines(events.drop_last()) + event_line(events.last())
    }
}

/// The event list of a day: its date, a rule, a line per event, a rule.
pub open spec fn events_text_of(date: Date, events: Seq<RetrieveEvent>) -> Seq<char> {
    date_text(date) + ":\n"@ + "-----------\n"@ + event_lines(events) + "-----------\n"@
}

fn push_event_line(out: &mut String, e: &RetrieveEvent)
    ensures
        final(out)@ == old(out)@ + event_line(*e),
{
    let ghost start = out@;
    let mut line = String::from_str("#");
    push_signed(&mut line, e.id);
    line.append(" ");
    push_hhmm(&mut line, &e.timestamp);
    push_pad2(&mut line, e.timestamp.second);
    line.append(": ");
    line.append(e.evt_type.name());
    line.append(" ");
    line.append(e.message.as_str());
    line.append("\n");
    assert(line@ =~= event_line(*e));
    out.append(line.as_str());
}

/// The list of the events of the day `date`.
pub fn events_text(date: &Date, events: &Vec<RetrieveEvent>) -> (r: String)
    ensures
        r@ == events_text_of(*date, events@),
{
    let mut out = String::new();
    push_date(&mut out, date);
    out.append(":\n");
    out.append("-----------\n");
    let ghost head = out@;
    assert(head =~= date_text(*date) + ":\n"@ + "-----------\n"@);
    let mut k: usize = 0;
    while k < events.len()
        invariant
            k <= events.len(),
            out@ == head + event_lines(events@.take(k as int)),
        decreases events.len() - k,
    {
        push_event_line(&mut out, &events[k]);
        assert(events@.take(k + 1).drop_last() =~= events@.take(k as int));
        assert(out@ =~= head + event_lines(events@.take(k + 1)));
        k = k + 1;
    }
    assert(events@.take(k as int) =~= events@);
    out.append("-----------\n");
    assert(out@ =~= events_text_of(*date, events@));
    out
}

/// A message shortened for a one-line acknowledgement: past forty
/// characters, its first thirty-nine and an ellipsis.
pub open spec fn truncated(m: Seq<char>) -> Seq<char> {
    if m.len() > 40 {
        m.take(39) + "…"@
    } else {
        m
    }
}

pub fn truncate_message(message: &str) -> (r: String)
    ensures
        r@ == truncated(message@),
{
    if message.unicode_len() > 40 {
        let mut t = String::from_str(message.substring_char(0, 39));
        t.append("…");
        t
    } else {
        String::from_str(message)
    }
}

/// `[YYYY-MM-DD HHMM] #id: KIND message`, the message shortened.
pub open spec fn ack_text(kind: EvtType, at: LocalTime, id: Id, message: Seq<char>) -> Seq<char> {
    "["@ + date_text(at.date) + " "@ + hhmm(at) + "] #"@ + signed_decimal(id as int) + ": "@
        + kind.spec_name() + " "@ + truncated(message)
}

/// The line that acknowledges a recorded start or stop: when it happened on
/// the local clock, its id, its kind and its message.
pub fn ack_line(kind: EvtType, at: &LocalTime, id: Id, message: &str) -> (r: String)
    ensures
        r@ == ack_text(kind, *at, id, message@),
{
    let mut out = String::from_str("[");
    push_date(&mut out, &at.date);
    out.append(" ");
    push_hhmm(&mut out, at);
    out.append("] #");
    push_signed(&mut out, id);
    out.append(": ");
    out.append(kind.name());
    out.append(" ");
    let t = truncate_message(message);
    out.append(t.as_str());
    out
}

} // verus!
