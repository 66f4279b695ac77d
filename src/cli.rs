//! Command lines: from text to a typed command.
//!
//! A line is read in three steps. Its structure comes first
//! (`grammar::parse_syntax`); a mismatch there ends the parse. Then its time or
//! date argument is read (`resolve`), and a failure there ends the parse too.
//! Last, the command is built (`assemble`), which is where a missing message
//! of a start command is found.

use crate::db::Id;
use crate::grammar::{
    am_pm_marker, blank_end, civilian_body, civilian_clock, civilian_fragment, digit_value,
    id_is_digits, is_blank, is_digit, lemma_blank_end_bounds, lemma_blank_run, lemma_civilian_at,
    lemma_military_at, lemma_printable_rest, lit_at, military_clock, opt_message, parse_syntax,
    printable, syntax_of, syntax_within, time_at, ClockTime, Span, Syntax, When,
};
use crate::time::{
    interval_of, is_readable_phrase, local_instant, now, parse_date_phrase, parse_interval,
    phrase_error, readable_phrase, Date, Interval, LocalTime,
};
use vstd::prelude::*;

verus! {

/// The characters of `s` that a span covers.
pub open spec fn text(s: Seq<char>, sp: Span) -> Seq<char> {
    s.subrange(sp.start as int, sp.end as int)
}

/// The text of an optional message; empty when there is none.
pub open spec fn opt_text(s: Seq<char>, m: Option<Span>) -> Seq<char> {
    match m {
        Some(sp) => text(s, sp),
        None => Seq::empty(),
    }
}

/// Hours, minutes and seconds all within the bounds of a day's clock.
pub open spec fn clock_in_range(c: ClockTime) -> bool {
    c.hour <= 23 && c.minute <= 59 && c.second <= 59
}

/// The number that a run of decimal digits writes.
pub open spec fn digits_number(d: Seq<char>) -> nat
    decreases d.len(),
{
    if d.len() == 0 {
        0
    } else {
        digits_number(d.drop_last()) * 10 + digit_value(d.last()) as nat
    }
}

/// Why a command line could not be read.
#[derive(Debug)]
pub enum Error {
    /// The interval phrase (given) could not be read.
    ParseInterval(String, chrono_english::DateError),
    /// The date or time phrase (given) could not be read.
    ParseDatetime(String, chrono_english::DateError),
    /// A start command came without a message.
    NoStartMessage,
    /// The first word (given) names no command.
    UnknownCommand(String),
    /// The line stops matching any command at this character position.
    UnexpectedParseError(usize),
    /// The clock time does not exist, or is not unique, today.
    InvalidTime,
}

/// Errors compare by kind alone.
impl PartialEq for Error {
    fn eq(&self, other: &Self) -> (r: bool)
        ensures
            r == same_kind(*self, *other),
    {
        match (self, other) {
            (Error::ParseInterval(..), Error::ParseInterval(..)) => true,
            (Error::ParseDatetime(..), Error::ParseDatetime(..)) => true,
            (Error::NoStartMessage, Error::NoStartMessage) => true,
            (Error::UnknownCommand(..), Error::UnknownCommand(..)) => true,
            (Error::UnexpectedParseError(..), Error::UnexpectedParseError(..)) => true,
            (Error::InvalidTime, Error::InvalidTime) => true,
            _ => false,
        }
    }
}

impl vstd::std_specs::cmp::PartialEqSpecImpl for Error {
    open spec fn obeys_eq_spec() -> bool {
        false
    }

    open spec fn eq_spec(&self, other: &Error) -> bool {
        same_kind(*self, *other)
    }
}

pub open spec fn same_kind(a: Error, b: Error) -> bool {
    match (a, b) {
        (Error::ParseInterval(..), Error::ParseInterval(..)) => true,
        (Error::ParseDatetime(..), Error::ParseDatetime(..)) => true,
        (Error::NoStartMessage, Error::NoStartMessage) => true,
        (Error::UnknownCommand(..), Error::UnknownCommand(..)) => true,
        (Error::UnexpectedParseError(..), Error::UnexpectedParseError(..)) => true,
        (Error::InvalidTime, Error::InvalidTime) => true,
        _ => false,
    }
}

/// A command whose message is the rest of the line.
#[derive(Debug, PartialEq, Eq)]
pub struct BareMessage {
    pub message: String,
}

impl BareMessage {
    pub fn new(message: &str) -> (r: Self)
        ensures
            r.message@ == message@,
    {
        BareMessage { message: String::from_str(message) }
    }
}

/// A command that happened an interval ago.
#[derive(Debug, PartialEq, Eq)]
pub struct RelativeMessage {
    pub interval: Interval,
    pub message: String,
}

impl RelativeMessage {
    pub fn new(interval_secs: i32, message: &str) -> (r: Self)
        ensures
            r.interval == Interval::Seconds(interval_secs),
            r.message@ == message@,
    {
        RelativeMessage { interval: Interval::Seconds(interval_secs), message: String::from_str(message) }
    }
}

/// A command that happened at a given time.
#[derive(Debug, PartialEq, Eq)]
pub struct AbsoluteMessage {
    pub timestamp: LocalTime,
    pub message: String,
}

impl AbsoluteMessage {
    /// A message at the given hour and minute of `today`, if the local clock
    /// reads that time exactly once on that date.
    pub fn at(today: Date, h: u32, m: u32, message: &str) -> (r: Option<Self>)
        ensures
            r matches Some(a) ==> a.timestamp.wf() && a.timestamp.date == today
                && a.timestamp.hour == h && a.timestamp.minute == m && a.timestamp.second == 0
                && a.message@ == message@,
    {
        match local_instant(today, h, m, 0) {
            Some(timestamp) => Some(AbsoluteMessage { timestamp, message: String::from_str(message) }),
            None => None,
        }
    }

    /// A message at the given hour and minute of the current local date, if
    /// the local clock reads that time exactly once today.
    pub fn new(h: u32, m: u32, message: &str) -> (r: Option<Self>)
        ensures
            r matches Some(a) ==> exists|now: LocalTime|
                now.wf() && #[trigger] now.date == a.timestamp.date && a.timestamp.hour == h
                    && a.timestamp.minute == m && a.timestamp.second == 0 && a.message@ == message@,
    {
        let now = now();
        AbsoluteMessage::at(now.date, h, m, message)
    }
}

/// A command line, read.
#[derive(Debug, PartialEq, Eq)]
pub enum Cli {
    Start(BareMessage),
    Stop(BareMessage),
    Started(RelativeMessage),
    Stopped(RelativeMessage),
    StartedAt(AbsoluteMessage),
    StoppedAt(AbsoluteMessage),
    Report(Date),
    PathDatabase,
    PathConfig,
    EventsList(Date),
    EventRm(Id),
}

/// Whether a command that requires a message lacks one.
pub fn no_start_message(require_message: bool, msg: &Option<String>) -> (r: bool)
    ensures
        r == (require_message && (msg is None || msg->0@.len() == 0)),
{
    require_message && match msg {
        None => true,
        Some(m) => m.as_str().unicode_len() == 0,
    }
}

/// What the time or date argument of a command came to.
#[derive(Clone, Copy, Debug, PartialEq, Eq)]
pub enum Resolved {
    Nothing,
    Interval(Interval),
    Instant(LocalTime),
    Day(Date),
}

/// The resolved argument has the kind that the command takes.
pub open spec fn fits(syn: Syntax, res: Resolved) -> bool {
    match syn {
        Syntax::Started(..) | Syntax::Stopped(..) => res is Interval,
        Syntax::StartedAt(..) | Syntax::StoppedAt(..) => res is Instant,
        Syntax::Report(..) | Syntax::EventsList(..) => res is Day,
        _ => true,
    }
}

/// What reading the argument of `syn` in line `s` may give, with `now` the
/// current local time. A phrase with a number of more than five digits is
/// refused as unreadable. Outcomes that depend on the local zone or on the
/// phrase reader are stated by what holds of each of them.
pub open spec fn resolved(s: Seq<char>, syn: Syntax, now: LocalTime, r: Result<Resolved, Error>) -> bool {
    match syn {
        Syntax::Started(p, _) | Syntax::Stopped(p, _) => if readable_phrase(text(s, p))
            && interval_of(text(s, p)) is Some {
            r == Ok::<Resolved, Error>(Resolved::Interval(interval_of(text(s, p))->0))
        } else {
            r matches Err(Error::ParseInterval(t, _)) && t@ == text(s, p)
        },
        Syntax::StartedAt(w, _) | Syntax::StoppedAt(w, _) => match w {
            When::Clock(c) => if clock_in_range(c) {
                r == Err::<Resolved, Error>(Error::InvalidTime) || (r matches Ok(
                    Resolved::Instant(t),
                ) && t.wf() && t.date == now.date && t.hour == c.hour && t.minute == c.minute
                    && t.second == c.second)
            } else {
                r == Err::<Resolved, Error>(Error::InvalidTime)
            },
            When::Phrase(p) => (r matches Ok(Resolved::Instant(t)) && t.wf()) || (r matches Err(
                Error::ParseDatetime(t, _),
            ) && t@ == text(s, p)),
        },
        Syntax::Report(d) | Syntax::EventsList(d) => match d {
            None => r == Ok::<Resolved, Error>(Resolved::Day(now.date)),
            Some(p) => (r matches Ok(Resolved::Day(day)) && day.wf()) || (r matches Err(
                Error::ParseDatetime(t, _),
            ) && t@ == text(s, p)),
        },
        _ => r == Ok::<Resolved, Error>(Resolved::Nothing),
    }
}

fn span_string(input: &str, sp: Span) -> (r: String)
    requires
        sp.start <= sp.end <= input@.len(),
    ensures
        r@ == text(input@, sp),
{
    String::from_str(input.substring_char(sp.start, sp.end))
}

fn resolve_clock(c: ClockTime, now: &LocalTime) -> (r: Result<LocalTime, Error>)
    ensures
        !clock_in_range(c) ==> r == Err::<LocalTime, Error>(Error::InvalidTime),
        r matches Err(e) ==> e == Error::InvalidTime,
        r matches Ok(t) ==> t.wf() && t.date == now.date && t.hour == c.hour && t.minute
            == c.minute && t.second == c.second,
{
    if c.hour > 23 || c.minute > 59 || c.second > 59 {
        return Err(Error::InvalidTime);
    }
    match local_instant(now.date, c.hour, c.minute, c.second) {
        Some(t) => Ok(t),
        None => Err(Error::InvalidTime),
    }
}

fn resolve_phrase(input: &str, p: Span) -> (r: Result<LocalTime, Error>)
    requires
        p.start <= p.end <= input@.len(),
    ensures
        r matches Ok(t) ==> t.wf(),
        r matches Err(e) ==> e matches Error::ParseDatetime(t, _) && t@ == text(input@, p),
{
    let phrase = input.substring_char(p.start, p.end);
    if !is_readable_phrase(phrase) {
        return Err(Error::ParseDatetime(String::from_str(phrase), phrase_error("number too long")));
    }
    match parse_date_phrase(phrase) {
        Ok(t) => Ok(t),
        Err(e) => Err(Error::ParseDatetime(String::from_str(phrase), e)),
    }
}

/// Reads the time or date argument of a command, with `now` the current
/// local time: an interval phrase, a clock time of today, a date or time
/// phrase, or a day (today when none is given).
pub fn resolve(input: &str, syntax: &Syntax, now: &LocalTime) -> (r: Result<Resolved, Error>)
    requires
        syntax_within(*syntax, input@.len() as int),
        now.wf(),
    ensures
        resolved(input@, *syntax, *now, r),
        r matches Ok(v) ==> fits(*syntax, v),
{
    match syntax {
        Syntax::Started(p, _) | Syntax::Stopped(p, _) => {
            let phrase = input.substring_char(p.start, p.end);
            if !is_readable_phrase(phrase) {
                let e = phrase_error("number too long");
                return Err(Error::ParseInterval(String::from_str(phrase), e));
            }
            match parse_interval(phrase) {
                Ok(iv) => Ok(Resolved::Interval(iv)),
                Err(e) => Err(Error::ParseInterval(String::from_str(phrase), e)),
            }
        },
        Syntax::StartedAt(w, _) | Syntax::StoppedAt(w, _) => {
            let t = match w {
                When::Clock(c) => resolve_clock(*c, now),
                When::Phrase(p) => resolve_phrase(input, *p),
            };
            match t {
                Ok(t) => Ok(Resolved::Instant(t)),
                Err(e) => Err(e),
            }
        },
        Syntax::Report(d) | Syntax::EventsList(d) => match d {
            None => Ok(Resolved::Day(now.date)),
            Some(p) => match resolve_phrase(input, *p) {
                Ok(t) => Ok(Resolved::Day(t.date)),
                Err(e) => Err(e),
            },
        },
        _ => Ok(Resolved::Nothing),
    }
}

/// The command that `syn`, read from line `s`, comes to once its argument
/// has been read as `res`.
pub open spec fn assembled(s: Seq<char>, syn: Syntax, res: Resolved, r: Result<Cli, Error>) -> bool {
    match syn {
        Syntax::Start(m) => if text(s, m).len() == 0 {
            r == Err::<Cli, Error>(Error::NoStartMessage)
        } else {
            r matches Ok(Cli::Start(b)) && b.message@ == text(s, m)
        },
        Syntax::Stop(m) => r matches Ok(Cli::Stop(b)) && b.message@ == text(s, m),
        Syntax::Started(_, m) => if opt_text(s, m).len() == 0 {
            r == Err::<Cli, Error>(Error::NoStartMessage)
        } else {
            r matches Ok(Cli::Started(x)) && res == Resolved::Interval(x.interval) && x.message@
                == opt_text(s, m)
        },
        Syntax::Stopped(_, m) => r matches Ok(Cli::Stopped(x)) && res == Resolved::Interval(
            x.interval,
        ) && x.message@ == opt_text(s, m),
        Syntax::StartedAt(_, m) => if opt_text(s, m).len() == 0 {
            r == Err::<Cli, Error>(Error::NoStartMessage)
        } else {
            r matches Ok(Cli::StartedAt(x)) && res == Resolved::Instant(x.timestamp) && x.message@
                == opt_text(s, m)
        },
        Syntax::StoppedAt(_, m) => r matches Ok(Cli::StoppedAt(x)) && res == Resolved::Instant(
            x.timestamp,
        ) && x.message@ == opt_text(s, m),
        Syntax::PathDatabase => r == Ok::<Cli, Error>(Cli::PathDatabase),
        Syntax::PathConfig => r == Ok::<Cli, Error>(Cli::PathConfig),
        Syntax::Report(_) => res matches Resolved::Day(d) && r == Ok::<Cli, Error>(Cli::Report(d)),
        Syntax::EventsList(_) => res matches Resolved::Day(d) && r == Ok::<Cli, Error>(
            Cli::EventsList(d),
        ),
        Syntax::EventRm(d) => if digits_number(text(s, d)) <= i64::MAX {
            r == Ok::<Cli, Error>(Cli::EventRm(digits_number(text(s, d)) as i64))
        } else {
            r == Err::<Cli, Error>(Error::UnexpectedParseError(d.start))
        },
        Syntax::Unknown(w) => r matches Err(Error::UnknownCommand(name)) && name@ == text(s, w),
    }
}

proof fn lemma_digits_number_grows(d: Seq<char>, j: int)
    requires
        0 <= j <= d.len(),
        forall|k: int| 0 <= k < d.len() ==> #[trigger] is_digit(d[k]),
    ensures
        digits_number(d.subrange(0, j)) <= digits_number(d),
    decreases d.len(),
{
    if j < d.len() {
        assert(d.drop_last().subrange(0, j) =~= d.subrange(0, j));
        lemma_digits_number_grows(d.drop_last(), j);
    } else {
        assert(d.subrange(0, j) =~= d);
    }
}

/// The number that the digits of a span write, if it fits in an `i64`.
fn span_number(input: &str, sp: Span) -> (r: Option<i64>)
    requires
        sp.start <= sp.end <= input@.len(),
        forall|k: int| sp.start <= k < sp.end ==> #[trigger] is_digit(input@[k]),
    ensures
        r matches Some(v) ==> v == digits_number(text(input@, sp)),
        r is None ==> digits_number(text(input@, sp)) > i64::MAX,
{
    let ghost s = input@;
    let mut v: i64 = 0;
    let mut k: usize = sp.start;
    assert(s.subrange(sp.start as int, sp.start as int) =~= Seq::<char>::empty());
    while k < sp.end
        invariant
            sp.start <= k <= sp.end <= s.len(),
            s == input@,
            forall|j: int| sp.start <= j < sp.end ==> #[trigger] is_digit(s[j]),
            v == digits_number(s.subrange(sp.start as int, k as int)),
        decreases sp.end - k,
    {
        let c = input.get_char(k);
        assert(is_digit(s[k as int]));
        let d: i64 = (c as u32 - 48) as i64;
        let ghost next = s.subrange(sp.start as int, k + 1);
        assert(next.drop_last() =~= s.subrange(sp.start as int, k as int));
        assert(next.last() == c);
        if v > (i64::MAX - d) / 10 {
            proof {
                assert(v * 10 + d > i64::MAX) by (nonlinear_arith)
                    requires
                        v > (i64::MAX - d) / 10,
                        0 <= d <= 9,
                ;
                let whole = text(s, sp);
                assert(whole.subrange(0, k + 1 - sp.start) =~= next);
                lemma_digits_number_grows(whole, k + 1 - sp.start);
            }
            return None;
        }
        assert(v * 10 + d <= i64::MAX) by (nonlinear_arith)
            requires
                v <= (i64::MAX - d) / 10,
                0 <= d <= 9,
                v >= 0,
        ;
        v = v * 10 + d;
        k = k + 1;
    }
    Some(v)
}

fn opt_span_string(input: &str, m: Option<Span>) -> (r: Option<String>)
    requires
        m matches Some(sp) ==> sp.start <= sp.end <= input@.len(),
    ensures
        r is Some == m is Some,
        r matches Some(x) ==> x@ == opt_text(input@, m),
{
    match m {
        Some(sp) => Some(span_string(input, sp)),
        None => None,
    }
}

fn message_text(msg: Option<String>) -> (r: String)
    ensures
        r@ == match msg {
            Some(x) => x@,
            None => Seq::empty(),
        },
{
    match msg {
        Some(x) => x,
        None => String::new(),
    }
}

/// Builds the command from its structure and its resolved argument. A start
/// command without a message, an unknown word and an event id too large to
/// store are rejected here.
pub fn assemble(input: &str, syntax: Syntax, resolved: Resolved) -> (r: Result<Cli, Error>)
    requires
        syntax_within(syntax, input@.len() as int),
        id_is_digits(input@, syntax),
        fits(syntax, resolved),
    ensures
        assembled(input@, syntax, resolved, r),
{
    match syntax {
        Syntax::Start(m) | Syntax::Stop(m) => {
            let msg = Some(span_string(input, m));
            let start = matches!(syntax, Syntax::Start(_));
            if no_start_message(start, &msg) {
                return Err(Error::NoStartMessage);
            }
            let b = BareMessage { message: message_text(msg) };
            if start {
                Ok(Cli::Start(b))
            } else {
                Ok(Cli::Stop(b))
            }
        },
        Syntax::Started(_, m) | Syntax::Stopped(_, m) => {
            let msg = opt_span_string(input, m);
            let start = matches!(syntax, Syntax::Started(..));
            if no_start_message(start, &msg) {
                return Err(Error::NoStartMessage);
            }
            let interval = match resolved {
                Resolved::Interval(iv) => iv,
                // `fits` leaves no other argument for this command
                _ => Interval::Seconds(0),
            };
            let x = RelativeMessage { interval, message: message_text(msg) };
            if start {
                Ok(Cli::Started(x))
            } else {
                Ok(Cli::Stopped(x))
            }
        },
        Syntax::StartedAt(_, m) | Syntax::StoppedAt(_, m) => {
            let msg = opt_span_string(input, m);
            let start = matches!(syntax, Syntax::StartedAt(..));
            if no_start_message(start, &msg) {
                return Err(Error::NoStartMessage);
            }
            match resolved {
                Resolved::Instant(timestamp) => {
                    let x = AbsoluteMessage { timestamp, message: message_text(msg) };
                    if start {
                        Ok(Cli::StartedAt(x))
                    } else {
                        Ok(Cli::StoppedAt(x))
                    }
                },
                // `fits` leaves no other argument for this command
                _ => Err(Error::InvalidTime),
            }
        },
        Syntax::PathDatabase => Ok(Cli::PathDatabase),
        Syntax::PathConfig => Ok(Cli::PathConfig),
        Syntax::Report(_) | Syntax::EventsList(_) => match resolved {
            Resolved::Day(d) => if matches!(syntax, Syntax::Report(_)) {
                Ok(Cli::Report(d))
            } else {
                Ok(Cli::EventsList(d))
            },
            // `fits` leaves no other argument for this command
            _ => Err(Error::InvalidTime),
        },
        Syntax::EventRm(d) => match span_number(input, d) {
            Some(id) => Ok(Cli::EventRm(id)),
            None => Err(Error::UnexpectedParseError(d.start)),
        },
        Syntax::Unknown(w) => Err(Error::UnknownCommand(span_string(input, w))),
    }
}

impl Cli {
    /// Reads a command line. A line whose structure matches no command fails
    /// with the position where it stops matching; otherwise its argument is
    /// read against the current local time, and the command is built from
    /// both.
    pub fn parse(input: &str) -> (r: Result<Self, Error>)
        ensures
            match syntax_of(input@) {
                Err(e) => r == Err::<Cli, Error>(Error::UnexpectedParseError(e as usize)),
                Ok(syn) => exists|now: LocalTime, res: Result<Resolved, Error>|
                    #[trigger] resolved(input@, syn, now, res) && now.wf() && match res {
                        Ok(v) => assembled(input@, syn, v, r),
                        Err(e) => r == Err::<Cli, Error>(e),
                    },
            },
    {
        let syntax = match parse_syntax(input) {
            Ok(syn) => syn,
            Err(e) => return Err(Error::UnexpectedParseError(e)),
        };
        let now = now();
        let res = resolve(input, &syntax, &now);
        assert(resolved(input@, syntax, now, res));
        match res {
            Ok(v) => assemble(input, syntax, v),
            Err(e) => Err(e),
        }
    }
}

/// The line `started at <frag><tail>` or `stopped at <frag><tail>`.
pub open spec fn at_line(start: bool, frag: Seq<char>, tail: Seq<char>) -> Seq<char> {
    (if start { "started at"@ } else { "stopped at"@ }) + " "@ + frag + tail
}

/// What may follow the time: nothing, or a colon and printable characters.
pub open spec fn message_tail(tail: Seq<char>) -> bool {
    tail.len() == 0 || (tail[0] == ':' && forall|k: int|
        0 <= k < tail.len() ==> printable(#[trigger] tail[k]))
}

/// The message of an `at` line: what follows the colon after the time.
pub open spec fn at_line_message(start: bool, frag: Seq<char>, tail: Seq<char>) -> Option<Span> {
    opt_message(at_line(start, frag, tail), 11 + frag.len() as int).0
}

pub open spec fn at_syntax(start: bool, w: When, m: Option<Span>) -> Syntax {
    if start {
        Syntax::StartedAt(w, m)
    } else {
        Syntax::StoppedAt(w, m)
    }
}

/// A `started at` or `stopped at` line whose time fragment reads in full as
/// `w`, followed by nothing or by a colon and printable characters, is that
/// command with time `w`, and has a message exactly when the colon is there.
proof fn lemma_at_line(start: bool, frag: Seq<char>, tail: Seq<char>, w: When)
    requires
        frag.len() >= 1,
        !is_blank(frag[0]),
        message_tail(tail),
        time_at(at_line(start, frag, tail), 11) == (w, 11 + frag.len() as int),
    ensures
        syntax_of(at_line(start, frag, tail)) == Ok::<Syntax, int>(
            at_syntax(start, w, at_line_message(start, frag, tail)),
        ),
        (tail.len() == 0) == (at_line_message(start, frag, tail) is None),
{
    reveal_strlit("started at");
    reveal_strlit("stopped at");
    reveal_strlit(" ");
    reveal_strlit("started");
    reveal_strlit("start");
    let s = at_line(start, frag, tail);
    let kw = if start { "started at"@ } else { "stopped at"@ };
    let n = frag.len() as int;
    assert(s.len() == 11 + n + tail.len());
    assert(s[10] == ' ');
    assert(s.subrange(0, 10) =~= kw);
    assert(s[11] == frag[0]);
    lemma_blank_run(s, 10, 1);
    let e = 11 + n;
    if tail.len() > 0 {
        assert(s[e] == tail[0]);
        assert forall|k: int| e <= k < s.len() implies printable(#[trigger] s[k]) by {
            assert(s[k] == tail[k - e]);
        }
        lemma_blank_end_bounds(s, e + 1);
        lemma_printable_rest(s, blank_end(s, e + 1));
    }
    if !start {
        assert(s[2] == 'o');
        assert(!lit_at(s, 0, "started at"@)) by {
            assert(s.subrange(0, 10)[2] == s[2]);
        }
        assert(!lit_at(s, 0, "started"@)) by {
            assert(s.subrange(0, 7)[2] == s[2]);
        }
        assert(!lit_at(s, 0, "start"@)) by {
            assert(s.subrange(0, 5)[2] == s[2]);
        }
    }
}

/// What reading the time of an `at` command with clock time `c` may give:
/// `InvalidTime` when a part is out of range, and on success that clock time
/// on the current local date.
pub open spec fn clock_outcome(c: ClockTime, now: LocalTime, r: Result<Resolved, Error>) -> bool {
    &&& !clock_in_range(c) ==> r == Err::<Resolved, Error>(Error::InvalidTime)
    &&& r matches Ok(Resolved::Instant(t)) ==> t.date == now.date && t.hour == c.hour && t.minute
        == c.minute && t.second == c.second
}

/// A `started at` or `stopped at` line whose time is four or six digits
/// reads as that command with the digits' military clock time, and with a
/// message exactly when a colon follows the digits. Reading the time then
/// fails with `InvalidTime` when a part is out of range, and otherwise, if it
/// succeeds, gives that clock time on the current local date.
pub proof fn lemma_military_line(start: bool, f: Seq<char>, tail: Seq<char>)
    requires
        f.len() == 4 || f.len() == 6,
        forall|k: int| 0 <= k < f.len() ==> is_digit(#[trigger] f[k]),
        message_tail(tail),
    ensures
        syntax_of(at_line(start, f, tail)) == Ok::<Syntax, int>(
            at_syntax(start, When::Clock(military_clock(f)), at_line_message(start, f, tail)),
        ),
        (tail.len() == 0) == (at_line_message(start, f, tail) is None),
        forall|now: LocalTime, r: Result<Resolved, Error>|
            #[trigger] resolved(
                at_line(start, f, tail),
                at_syntax(start, When::Clock(military_clock(f)), at_line_message(start, f, tail)),
                now,
                r,
            ) ==> clock_outcome(military_clock(f), now, r),
{
    reveal_strlit("started at");
    reveal_strlit("stopped at");
    reveal_strlit(" ");
    let s = at_line(start, f, tail);
    let n = f.len() as int;
    assert(s.len() == 11 + n + tail.len());
    assert(s.subrange(11, 11 + n) =~= f);
    assert(is_digit(f[0]));
    if tail.len() > 0 {
        assert(s[11 + n] == tail[0]);
    }
    lemma_military_at(s, 11, f);
    lemma_at_line(start, f, tail, When::Clock(military_clock(f)));
}

/// A `started at` or `stopped at` line whose time is a civilian fragment
/// `H[H]:MM[:SS]` with optional blanks and an am/pm marker reads as that
/// command with the fragment's clock time: the hour as written, plus twelve
/// for a `p` or `P` marker. Reading the time then fails with `InvalidTime`
/// when the hour so made, the minutes or the seconds are out of range (so
/// `12:30 pm` fails), and otherwise, if it succeeds, gives that clock time on
/// the current local date. A body without seconds or marker must not be
/// followed by a colon and two digits, which would read as seconds.
pub proof fn lemma_civilian_line(
    start: bool,
    b: Seq<char>,
    gap: nat,
    marker: Seq<char>,
    tail: Seq<char>,
)
    requires
        civilian_body(b),
        marker.len() == 0 ==> gap == 0,
        marker.len() > 0 ==> am_pm_marker(marker),
        message_tail(tail),
        marker.len() == 0 && b.len() < 7 && tail.len() >= 3 ==> !(is_digit(tail[1]) && is_digit(
            tail[2],
        )),
    ensures
        syntax_of(at_line(start, civilian_fragment(b, gap, marker), tail)) == Ok::<Syntax, int>(
            at_syntax(
                start,
                When::Clock(civilian_clock(b, marker)),
                at_line_message(start, civilian_fragment(b, gap, marker), tail),
            ),
        ),
        (tail.len() == 0) == (at_line_message(start, civilian_fragment(b, gap, marker), tail) is None),
        forall|now: LocalTime, r: Result<Resolved, Error>|
            #[trigger] resolved(
                at_line(start, civilian_fragment(b, gap, marker), tail),
                at_syntax(
                    start,
                    When::Clock(civilian_clock(b, marker)),
                    at_line_message(start, civilian_fragment(b, gap, marker), tail),
                ),
                now,
                r,
            ) ==> clock_outcome(civilian_clock(b, marker), now, r),
{
    reveal_strlit("started at");
    reveal_strlit("stopped at");
    reveal_strlit(" ");
    let f = civilian_fragment(b, gap, marker);
    let s = at_line(start, f, tail);
    let n = f.len() as int;
    assert(s.len() == 11 + n + tail.len());
    assert(s.subrange(11, 11 + n) =~= f);
    assert(f[0] == b[0]);
    assert(is_digit(b[0]));
    if tail.len() > 0 {
        assert(s[11 + n] == tail[0]);
    }
    if marker.len() == 0 && b.len() < 7 {
        assert(n == b.len());
        if tail.len() >= 3 {
            assert(s[11 + n + 1] == tail[1] && s[11 + n + 2] == tail[2]);
        }
    }
    lemma_civilian_at(s, 11, b, gap, marker);
    lemma_at_line(start, f, tail, When::Clock(civilian_clock(b, marker)));
}

} // verus!
