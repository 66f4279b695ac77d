//! The structure of a command line.
//!
//! The command language is an ordered list of alternatives, each a keyword
//! phrase followed by its arguments. The first alternative whose structure
//! matches the start of the line is taken; the line must then have been read
//! to its end. This module finds that structure and records where its parts
//! lie in the line; reading times and dates out of those parts comes later.

use vstd::prelude::*;

verus! {

/// A range of character positions in the command line, `start` included.
#[derive(Clone, Copy, Debug, PartialEq, Eq)]
pub struct Span {
    pub start: usize,
    pub end: usize,
}

/// A wall-clock time as written: hour (after any pm marker), minute, second.
/// The numbers are as written and may be out of range.
#[derive(Clone, Copy, Debug, PartialEq, Eq)]
pub struct ClockTime {
    pub hour: u32,
    pub minute: u32,
    pub second: u32,
}

/// An absolute time as written: a clock time of today, or a free phrase.
#[derive(Clone, Copy, Debug, PartialEq, Eq)]
pub enum When {
    Clock(ClockTime),
    Phrase(Span),
}

/// Which command a line is, and where its arguments lie.
/// Message spans are already trimmed of surrounding spaces.
#[derive(Clone, Copy, Debug, PartialEq, Eq)]
pub enum Syntax {
    /// `start <message>`
    Start(Span),
    /// `stop <message>`
    Stop(Span),
    /// `started <interval> [ago][: message]`
    Started(Span, Option<Span>),
    /// `stopped <interval> [ago][: message]`
    Stopped(Span, Option<Span>),
    /// `started at <time>[: message]`
    StartedAt(When, Option<Span>),
    /// `stopped at <time>[: message]`
    StoppedAt(When, Option<Span>),
    /// `path(s) database|db`
    PathDatabase,
    /// `path(s) conf(ig)`
    PathConfig,
    /// `report [[for] <date>]`
    Report(Option<Span>),
    /// `events [list] [[for] <date>]`
    EventsList(Option<Span>),
    /// `event(s) rm|remove|del(ete) <digits>`
    EventRm(Span),
    /// any other word, followed by anything printable
    Unknown(Span),
}

pub open spec fn span(a: int, b: int) -> Span {
    Span { start: a as usize, end: b as usize }
}

/// The span lies in a line of `n` characters.
pub open spec fn within(sp: Span, n: int) -> bool {
    sp.start <= sp.end <= n
}

pub open spec fn opt_within(sp: Option<Span>, n: int) -> bool {
    sp matches Some(x) ==> within(x, n)
}

pub open spec fn when_within(w: When, n: int) -> bool {
    w matches When::Phrase(p) ==> within(p, n)
}

/// Every span of `syn` lies in a line of `n` characters.
pub open spec fn syntax_within(syn: Syntax, n: int) -> bool {
    match syn {
        Syntax::Start(m) | Syntax::Stop(m) | Syntax::EventRm(m) | Syntax::Unknown(m) => within(m, n),
        Syntax::Started(p, m) | Syntax::Stopped(p, m) => within(p, n) && opt_within(m, n),
        Syntax::StartedAt(w, m) | Syntax::StoppedAt(w, m) => when_within(w, n) && opt_within(m, n),
        Syntax::Report(d) | Syntax::EventsList(d) => opt_within(d, n),
        Syntax::PathDatabase | Syntax::PathConfig => true,
    }
}

/// The span of an event id holds only digits.
pub open spec fn id_is_digits(s: Seq<char>, syn: Syntax) -> bool {
    syn matches Syntax::EventRm(sp) ==> forall|k: int|
        sp.start <= k < sp.end ==> #[trigger] is_digit(s[k])
}

/// Printable ASCII, space to tilde.
pub open spec fn printable(c: char) -> bool {
    32 <= (c as u32) && (c as u32) <= 126
}

pub open spec fn is_blank(c: char) -> bool {
    c == ' ' || c == '\t'
}

pub open spec fn is_digit(c: char) -> bool {
    48 <= (c as u32) && (c as u32) <= 57
}

pub open spec fn digit_value(c: char) -> int {
    (c as u32) as int - 48
}

/// The literal `lit` stands in `s` at position `i`.
pub open spec fn lit_at(s: Seq<char>, i: int, lit: Seq<char>) -> bool {
    0 <= i && i + lit.len() <= s.len() && s.subrange(i, i + lit.len()) == lit
}

pub open spec fn char_at(s: Seq<char>, i: int, c: char) -> bool {
    0 <= i < s.len() && s[i] == c
}

/// The end of the run of printable characters that starts at `i`.
pub open spec fn printable_end(s: Seq<char>, i: int) -> int
    decreases s.len() - i,
{
    if 0 <= i < s.len() && printable(s[i]) {
        printable_end(s, i + 1)
    } else {
        i
    }
}

/// The end of the run of blanks (spaces and tabs) that starts at `i`.
pub open spec fn blank_end(s: Seq<char>, i: int) -> int
    decreases s.len() - i,
{
    if 0 <= i < s.len() && is_blank(s[i]) {
        blank_end(s, i + 1)
    } else {
        i
    }
}

/// The end of the run of printable non-blank characters that starts at `i`.
pub open spec fn word_end(s: Seq<char>, i: int) -> int
    decreases s.len() - i,
{
    if 0 <= i < s.len() && printable(s[i]) && !is_blank(s[i]) {
        word_end(s, i + 1)
    } else {
        i
    }
}

/// The end of the run of digits that starts at `i`.
pub open spec fn digits_end(s: Seq<char>, i: int) -> int
    decreases s.len() - i,
{
    if 0 <= i < s.len() && is_digit(s[i]) {
        digits_end(s, i + 1)
    } else {
        i
    }
}

/// The end of a time phrase that starts at `i`: printable characters up to
/// the first colon or the first `ago`.
pub open spec fn phrase_end(s: Seq<char>, i: int) -> int
    decreases s.len() - i,
{
    if 0 <= i < s.len() && printable(s[i]) && s[i] != ':' && !lit_at(s, i, "ago"@) {
        phrase_end(s, i + 1)
    } else {
        i
    }
}

/// The first position in `[i, e)` that holds no space, or `e`.
pub open spec fn skip_spaces(s: Seq<char>, i: int, e: int) -> int
    decreases e - i,
{
    if i < e && s[i] == ' ' {
        skip_spaces(s, i + 1, e)
    } else {
        i
    }
}

/// The end of `[b, e)` once trailing spaces are dropped.
pub open spec fn drop_spaces(s: Seq<char>, b: int, e: int) -> int
    decreases e - b,
{
    if b < e && s[e - 1] == ' ' {
        drop_spaces(s, b, e - 1)
    } else {
        e
    }
}

/// `[i, e)` without its leading and trailing spaces.
pub open spec fn trimmed(s: Seq<char>, i: int, e: int) -> Span {
    let a = skip_spaces(s, i, e);
    span(a, drop_spaces(s, a, e))
}

/// A message: the printable rest from `i`, trimmed.
pub open spec fn message(s: Seq<char>, i: int) -> (Span, int) {
    let e = printable_end(s, i);
    (trimmed(s, i, e), e)
}

/// A colon, optional blanks, and a message.
pub open spec fn colon_message(s: Seq<char>, i: int) -> Option<(Span, int)> {
    if char_at(s, i, ':') {
        Some(message(s, blank_end(s, i + 1)))
    } else {
        None
    }
}

/// A time phrase, trimmed.
pub open spec fn phrase(s: Seq<char>, i: int) -> (Span, int) {
    let e = phrase_end(s, i);
    (trimmed(s, i, e), e)
}

/// A time phrase for an interval, and an optional `ago` after it.
pub open spec fn interval(s: Seq<char>, i: int) -> (Span, int) {
    let (p, e) = phrase(s, i);
    if lit_at(s, e, "ago"@) {
        (p, e + "ago"@.len())
    } else {
        (p, e)
    }
}

/// Exactly two digits.
pub open spec fn two_digits(s: Seq<char>, i: int) -> Option<(u32, int)> {
    if 0 <= i && i + 1 < s.len() && is_digit(s[i]) && is_digit(s[i + 1]) {
        Some(((10 * digit_value(s[i]) + digit_value(s[i + 1])) as u32, i + 2))
    } else {
        None
    }
}

/// One or two digits, as many as there are.
pub open spec fn one_or_two_digits(s: Seq<char>, i: int) -> Option<(u32, int)> {
    if 0 <= i < s.len() && is_digit(s[i]) {
        if i + 1 < s.len() && is_digit(s[i + 1]) {
            two_digits(s, i)
        } else {
            Some((digit_value(s[i]) as u32, i + 1))
        }
    } else {
        None
    }
}

/// Military time: `HHMM` or `HHMMSS`.
pub open spec fn military(s: Seq<char>, i: int) -> Option<(ClockTime, int)> {
    match two_digits(s, i) {
        None => None,
        Some((h, j)) => match two_digits(s, j) {
            None => None,
            Some((m, k)) => match two_digits(s, k) {
                Some((sec, l)) => Some((ClockTime { hour: h, minute: m, second: sec }, l)),
                None => Some((ClockTime { hour: h, minute: m, second: 0 }, k)),
            },
        },
    }
}

/// Optional blanks, then `a`, `p`, `A` or `P`, then an optional `m` or `M`:
/// the hours the marker adds, and where it ends.
pub open spec fn am_pm(s: Seq<char>, i: int) -> Option<(u32, int)> {
    let b = blank_end(s, i);
    if 0 <= b < s.len() && (s[b] == 'a' || s[b] == 'p' || s[b] == 'A' || s[b] == 'P') {
        let offset: u32 = if s[b] == 'p' || s[b] == 'P' { 12 } else { 0 };
        if char_at(s, b + 1, 'm') || char_at(s, b + 1, 'M') {
            Some((offset, b + 2))
        } else {
            Some((offset, b + 1))
        }
    } else {
        None
    }
}

/// Civilian time: `H[H]:MM[:SS]` and an optional am/pm marker.
pub open spec fn civilian(s: Seq<char>, i: int) -> Option<(ClockTime, int)> {
    match one_or_two_digits(s, i) {
        None => None,
        Some((h, j)) => if !char_at(s, j, ':') {
            None
        } else {
            match two_digits(s, j + 1) {
                None => None,
                Some((m, k)) => {
                    let (sec, l) = if char_at(s, k, ':') && two_digits(s, k + 1) is Some {
                        two_digits(s, k + 1)->0
                    } else {
                        (0u32, k)
                    };
                    match am_pm(s, l) {
                        Some((offset, e)) => Some(
                            (ClockTime { hour: (h + offset) as u32, minute: m, second: sec }, e),
                        ),
                        None => Some((ClockTime { hour: h, minute: m, second: sec }, l)),
                    }
                },
            }
        },
    }
}

/// An absolute time: military, else civilian, else a free phrase.
pub open spec fn time_at(s: Seq<char>, i: int) -> (When, int) {
    match military(s, i) {
        Some((c, e)) => (When::Clock(c), e),
        None => match civilian(s, i) {
            Some((c, e)) => (When::Clock(c), e),
            None => {
                let (p, e) = phrase(s, i);
                (When::Phrase(p), e)
            },
        },
    }
}

/// An optional colon message after position `i`.
pub open spec fn opt_message(s: Seq<char>, i: int) -> (Option<Span>, int) {
    match colon_message(s, i) {
        Some((m, e)) => (Some(m), e),
        None => (None, i),
    }
}

/// The date of a report or a list: an optional `for`, then a time phrase.
pub open spec fn for_when(s: Seq<char>, i: int) -> (Span, int) {
    if lit_at(s, i, "for"@) {
        phrase(s, i + "for"@.len())
    } else {
        phrase(s, i)
    }
}

/// Blanks, at least one, then an optional date.
pub open spec fn opt_date(s: Seq<char>, i: int) -> (Option<Span>, int) {
    let b = blank_end(s, i);
    if b > i {
        let (d, e) = for_when(s, b);
        (Some(d), e)
    } else {
        (None, i)
    }
}

/// `started at` / `stopped at`: keyword, blanks, a time, an optional message.
pub open spec fn at_command(s: Seq<char>, kw: Seq<char>, start: bool) -> Option<(Syntax, int)> {
    let j = kw.len() as int;
    let b = blank_end(s, j);
    if lit_at(s, 0, kw) && b > j {
        let (w, e) = time_at(s, b);
        let (m, f) = opt_message(s, e);
        Some((if start { Syntax::StartedAt(w, m) } else { Syntax::StoppedAt(w, m) }, f))
    } else {
        None
    }
}

/// `started` / `stopped`: keyword, blanks, an interval, an optional message.
pub open spec fn ago_command(s: Seq<char>, kw: Seq<char>, start: bool) -> Option<(Syntax, int)> {
    let j = kw.len() as int;
    let b = blank_end(s, j);
    if lit_at(s, 0, kw) && b > j {
        let (p, e) = interval(s, b);
        let (m, f) = opt_message(s, e);
        Some((if start { Syntax::Started(p, m) } else { Syntax::Stopped(p, m) }, f))
    } else {
        None
    }
}

/// `start` / `stop`: keyword and the rest of the line as the message.
pub open spec fn bare_command(s: Seq<char>, kw: Seq<char>, start: bool) -> Option<(Syntax, int)> {
    if lit_at(s, 0, kw) {
        let (m, e) = message(s, kw.len() as int);
        Some((if start { Syntax::Start(m) } else { Syntax::Stop(m) }, e))
    } else {
        None
    }
}

/// `path` or `paths`, then blanks: where what follows begins.
pub open spec fn path_prefix(s: Seq<char>) -> Option<int> {
    let j = if char_at(s, 4, 's') { 5int } else { 4int };
    let b = blank_end(s, j);
    if lit_at(s, 0, "path"@) && b > j {
        Some(b)
    } else {
        None
    }
}

pub open spec fn path_database(s: Seq<char>) -> Option<(Syntax, int)> {
    match path_prefix(s) {
        None => None,
        Some(b) => if lit_at(s, b, "database"@) {
            Some((Syntax::PathDatabase, b + "database"@.len()))
        } else if lit_at(s, b, "db"@) {
            Some((Syntax::PathDatabase, b + "db"@.len()))
        } else {
            None
        },
    }
}

pub open spec fn path_config(s: Seq<char>) -> Option<(Syntax, int)> {
    match path_prefix(s) {
        None => None,
        Some(b) => if lit_at(s, b, "conf"@) {
            let c = b + "conf"@.len();
            if lit_at(s, c, "ig"@) {
                Some((Syntax::PathConfig, c + "ig"@.len()))
            } else {
                Some((Syntax::PathConfig, c))
            }
        } else {
            None
        },
    }
}

pub open spec fn report(s: Seq<char>) -> Option<(Syntax, int)> {
    if lit_at(s, 0, "report"@) {
        let (d, e) = opt_date(s, "report"@.len() as int);
        Some((Syntax::Report(d), e))
    } else {
        None
    }
}

/// The verb of `event rm`: where it ends, if one stands at `b`.
pub open spec fn rm_verb(s: Seq<char>, b: int) -> Option<int> {
    if lit_at(s, b, "rm"@) {
        Some(b + "rm"@.len())
    } else if lit_at(s, b, "remove"@) {
        Some(b + "remove"@.len())
    } else if lit_at(s, b, "del"@) {
        let c = b + "del"@.len();
        if lit_at(s, c, "ete"@) {
            Some(c + "ete"@.len())
        } else {
            Some(c)
        }
    } else {
        None
    }
}

pub open spec fn event_rm(s: Seq<char>) -> Option<(Syntax, int)> {
    let j = if char_at(s, 5, 's') { 6int } else { 5int };
    let b = blank_end(s, j);
    if lit_at(s, 0, "event"@) && b > j {
        match rm_verb(s, b) {
            None => None,
            Some(v) => {
                let c = blank_end(s, v);
                let d = digits_end(s, c);
                if c > v && d > c {
                    Some((Syntax::EventRm(span(c, d)), d))
                } else {
                    None
                }
            },
        }
    } else {
        None
    }
}

pub open spec fn events_list(s: Seq<char>) -> Option<(Syntax, int)> {
    if lit_at(s, 0, "events"@) {
        let j = "events"@.len() as int;
        let b = blank_end(s, j);
        let k = if b > j && lit_at(s, b, "list"@) { b + "list"@.len() } else { j };
        let (d, e) = opt_date(s, k);
        Some((Syntax::EventsList(d), e))
    } else {
        None
    }
}

/// Any word, then anything printable.
pub open spec fn unknown(s: Seq<char>) -> Option<(Syntax, int)> {
    let c = word_end(s, 0);
    if c > 0 {
        Some((Syntax::Unknown(span(0, c)), printable_end(s, c)))
    } else {
        None
    }
}

/// The first alternative whose structure matches the start of `s`.
pub open spec fn first_match(s: Seq<char>) -> Option<(Syntax, int)> {
    if at_command(s, "started at"@, true) is Some {
        at_command(s, "started at"@, true)
    } else if ago_command(s, "started"@, true) is Some {
        ago_command(s, "started"@, true)
    } else if bare_command(s, "start"@, true) is Some {
        bare_command(s, "start"@, true)
    } else if at_command(s, "stopped at"@, false) is Some {
        at_command(s, "stopped at"@, false)
    } else if ago_command(s, "stopped"@, false) is Some {
        ago_command(s, "stopped"@, false)
    } else if bare_command(s, "stop"@, false) is Some {
        bare_command(s, "stop"@, false)
    } else if path_database(s) is Some {
        path_database(s)
    } else if path_config(s) is Some {
        path_config(s)
    } else if report(s) is Some {
        report(s)
    } else if event_rm(s) is Some {
        event_rm(s)
    } else if events_list(s) is Some {
        events_list(s)
    } else {
        unknown(s)
    }
}

/// The structure of the line `s`, or the position where it stops matching:
/// the end of the alternative taken, or 0 when none matches.
pub open spec fn syntax_of(s: Seq<char>) -> Result<Syntax, int> {
    match first_match(s) {
        Some((syn, e)) => if e == s.len() {
            Ok(syn)
        } else {
            Err(e)
        },
        None => Err(0),
    }
}

/// An optional result with its end position seen as an integer.
pub open spec fn at_int<T>(r: Option<(T, usize)>) -> Option<(T, int)> {
    match r {
        Some((v, e)) => Some((v, e as int)),
        None => None,
    }
}

fn printable_char(c: char) -> (r: bool)
    ensures
        r == printable(c),
{
    let v = c as u32;
    32 <= v && v <= 126
}

fn blank_char(c: char) -> (r: bool)
    ensures
        r == is_blank(c),
{
    c == ' ' || c == '\t'
}

fn digit_char(c: char) -> (r: bool)
    ensures
        r == is_digit(c),
{
    let v = c as u32;
    48 <= v && v <= 57
}

/// Whether the literal `lit` stands in `s` at position `i`.
pub fn lit_at_exec(s: &str, n: usize, i: usize, lit: &str) -> (r: bool)
    requires
        n == s@.len(),
        i <= n,
    ensures
        r == lit_at(s@, i as int, lit@),
{
    let m = lit.unicode_len();
    if m > n - i {
        return false;
    }
    let mut k: usize = 0;
    while k < m
        invariant
            m == lit@.len(),
            k <= m,
            i + m <= n,
            n == s@.len(),
            forall|j: int| 0 <= j < k ==> s@[i + j] == lit@[j],
        decreases m - k,
    {
        if s.get_char(i + k) != lit.get_char(k) {
            assert(s@.subrange(i as int, i + m)[k as int] != lit@[k as int]);
            return false;
        }
        k = k + 1;
    }
    assert(s@.subrange(i as int, i + m) =~= lit@);
    true
}

fn char_at_exec(s: &str, n: usize, i: usize, c: char) -> (r: bool)
    requires
        n == s@.len(),
    ensures
        r == char_at(s@, i as int, c),
{
    i < n && s.get_char(i) == c
}

fn printable_end_exec(s: &str, n: usize, i: usize) -> (r: usize)
    requires
        n == s@.len(),
        i <= n,
    ensures
        r == printable_end(s@, i as int),
        i <= r <= n,
{
    let mut k = i;
    while k < n && printable_char(s.get_char(k))
        invariant
            i <= k <= n,
            n == s@.len(),
            printable_end(s@, k as int) == printable_end(s@, i as int),
        decreases n - k,
    {
        k = k + 1;
    }
    k
}

fn blank_end_exec(s: &str, n: usize, i: usize) -> (r: usize)
    requires
        n == s@.len(),
        i <= n,
    ensures
        r == blank_end(s@, i as int),
        i <= r <= n,
{
    let mut k = i;
    while k < n && blank_char(s.get_char(k))
        invariant
            i <= k <= n,
            n == s@.len(),
            blank_end(s@, k as int) == blank_end(s@, i as int),
        decreases n - k,
    {
        k = k + 1;
    }
    k
}

fn word_end_exec(s: &str, n: usize, i: usize) -> (r: usize)
    requires
        n == s@.len(),
        i <= n,
    ensures
        r == word_end(s@, i as int),
        i <= r <= n,
{
    let mut k = i;
    while k < n && printable_char(s.get_char(k)) && !blank_char(s.get_char(k))
        invariant
            i <= k <= n,
            n == s@.len(),
            word_end(s@, k as int) == word_end(s@, i as int),
        decreases n - k,
    {
        k = k + 1;
    }
    k
}

fn digits_end_exec(s: &str, n: usize, i: usize) -> (r: usize)
    requires
        n == s@.len(),
        i <= n,
    ensures
        r == digits_end(s@, i as int),
        i <= r <= n,
        forall|k: int| i <= k < r ==> is_digit(s@[k]),
{
    let mut k = i;
    while k < n && digit_char(s.get_char(k))
        invariant
            i <= k <= n,
            n == s@.len(),
            digits_end(s@, k as int) == digits_end(s@, i as int),
            forall|j: int| i <= j < k ==> is_digit(s@[j]),
        decreases n - k,
    {
        k = k + 1;
    }
    k
}

fn phrase_end_exec(s: &str, n: usize, i: usize) -> (r: usize)
    requires
        n == s@.len(),
        i <= n,
    ensures
        r == phrase_end(s@, i as int),
        i <= r <= n,
{
    let mut k = i;
    while k < n && printable_char(s.get_char(k)) && s.get_char(k) != ':' && !lit_at_exec(
        s,
        n,
        k,
        "ago",
    )
        invariant
            i <= k <= n,
            n == s@.len(),
            phrase_end(s@, k as int) == phrase_end(s@, i as int),
        decreases n - k,
    {
        k = k + 1;
    }
    k
}

fn trimmed_exec(s: &str, n: usize, i: usize, e: usize) -> (r: Span)
    requires
        n == s@.len(),
        i <= e <= n,
    ensures
        r == trimmed(s@, i as int, e as int),
        i <= r.start <= r.end <= e,
{
    let mut a = i;
    while a < e && s.get_char(a) == ' '
        invariant
            i <= a <= e <= n,
            n == s@.len(),
            skip_spaces(s@, a as int, e as int) == skip_spaces(s@, i as int, e as int),
        decreases e - a,
    {
        a = a + 1;
    }
    let mut b = e;
    while a < b && s.get_char(b - 1) == ' '
        invariant
            a <= b <= e <= n,
            n == s@.len(),
            a == skip_spaces(s@, i as int, e as int),
            drop_spaces(s@, a as int, b as int) == drop_spaces(s@, a as int, e as int),
        decreases b - a,
    {
        b = b - 1;
    }
    Span { start: a, end: b }
}

fn message_exec(s: &str, n: usize, i: usize) -> (r: (Span, usize))
    requires
        n == s@.len(),
        i <= n,
    ensures
        (r.0, r.1 as int) == message(s@, i as int),
        i <= r.1 <= n,
        within(r.0, n as int),
{
    let e = printable_end_exec(s, n, i);
    (trimmed_exec(s, n, i, e), e)
}

fn colon_message_exec(s: &str, n: usize, i: usize) -> (r: Option<(Span, usize)>)
    requires
        n == s@.len(),
        i <= n,
    ensures
        at_int(r) == colon_message(s@, i as int),
        r matches Some((_, e)) ==> i <= e <= n,
        r matches Some((m, _)) ==> within(m, n as int),
{
    if char_at_exec(s, n, i, ':') {
        let b = blank_end_exec(s, n, i + 1);
        Some(message_exec(s, n, b))
    } else {
        None
    }
}

fn phrase_exec(s: &str, n: usize, i: usize) -> (r: (Span, usize))
    requires
        n == s@.len(),
        i <= n,
    ensures
        (r.0, r.1 as int) == phrase(s@, i as int),
        i <= r.1 <= n,
        within(r.0, n as int),
{
    let e = phrase_end_exec(s, n, i);
    (trimmed_exec(s, n, i, e), e)
}

fn interval_exec(s: &str, n: usize, i: usize) -> (r: (Span, usize))
    requires
        n == s@.len(),
        i <= n,
    ensures
        (r.0, r.1 as int) == interval(s@, i as int),
        i <= r.1 <= n,
        within(r.0, n as int),
{
    let (p, e) = phrase_exec(s, n, i);
    if lit_at_exec(s, n, e, "ago") {
        (p, e + "ago".unicode_len())
    } else {
        (p, e)
    }
}

fn two_digits_exec(s: &str, n: usize, i: usize) -> (r: Option<(u32, usize)>)
    requires
        n == s@.len(),
        i <= n,
    ensures
        at_int(r) == two_digits(s@, i as int),
        r matches Some((v, e)) ==> v <= 99 && i <= e <= n,
{
    if i < n && i + 1 < n {
        let c0 = s.get_char(i);
        let c1 = s.get_char(i + 1);
        if digit_char(c0) && digit_char(c1) {
            let v = 10 * (c0 as u32 - 48) + (c1 as u32 - 48);
            return Some((v, i + 2));
        }
    }
    None
}

fn one_or_two_digits_exec(s: &str, n: usize, i: usize) -> (r: Option<(u32, usize)>)
    requires
        n == s@.len(),
        i <= n,
    ensures
        at_int(r) == one_or_two_digits(s@, i as int),
        r matches Some((v, e)) ==> v <= 99 && i <= e <= n,
{
    if i < n && digit_char(s.get_char(i)) {
        if i + 1 < n && digit_char(s.get_char(i + 1)) {
            two_digits_exec(s, n, i)
        } else {
            Some((s.get_char(i) as u32 - 48, i + 1))
        }
    } else {
        None
    }
}

fn military_exec(s: &str, n: usize, i: usize) -> (r: Option<(ClockTime, usize)>)
    requires
        n == s@.len(),
        i <= n,
    ensures
        at_int(r) == military(s@, i as int),
        r matches Some((_, e)) ==> i <= e <= n,
{
    match two_digits_exec(s, n, i) {
        None => None,
        Some((h, j)) => match two_digits_exec(s, n, j) {
            None => None,
            Some((m, k)) => match two_digits_exec(s, n, k) {
                Some((sec, l)) => Some((ClockTime { hour: h, minute: m, second: sec }, l)),
                None => Some((ClockTime { hour: h, minute: m, second: 0 }, k)),
            },
        },
    }
}

fn am_pm_exec(s: &str, n: usize, i: usize) -> (r: Option<(u32, usize)>)
    requires
        n == s@.len(),
        i <= n,
    ensures
        at_int(r) == am_pm(s@, i as int),
        r matches Some((v, e)) ==> v <= 12 && i <= e <= n,
{
    let b = blank_end_exec(s, n, i);
    if b < n {
        let c = s.get_char(b);
        if c == 'a' || c == 'p' || c == 'A' || c == 'P' {
            let offset: u32 = if c == 'p' || c == 'P' {
                12
            } else {
                0
            };
            if char_at_exec(s, n, b + 1, 'm') || char_at_exec(s, n, b + 1, 'M') {
                return Some((offset, b + 2));
            } else {
                return Some((offset, b + 1));
            }
        }
    }
    None
}

fn civilian_exec(s: &str, n: usize, i: usize) -> (r: Option<(ClockTime, usize)>)
    requires
        n == s@.len(),
        i <= n,
    ensures
        at_int(r) == civilian(s@, i as int),
        r matches Some((_, e)) ==> i <= e <= n,
{
    match one_or_two_digits_exec(s, n, i) {
        None => None,
        Some((h, j)) => {
            if !char_at_exec(s, n, j, ':') {
                return None;
            }
            match two_digits_exec(s, n, j + 1) {
                None => None,
                Some((m, k)) => {
                    let mut sec: u32 = 0;
                    let mut l: usize = k;
                    if char_at_exec(s, n, k, ':') {
                        match two_digits_exec(s, n, k + 1) {
                            Some((v, e)) => {
                                sec = v;
                                l = e;
                            },
                            None => {},
                        }
                    }
                    match am_pm_exec(s, n, l) {
                        Some((offset, e)) => Some(
                            (ClockTime { hour: h + offset, minute: m, second: sec }, e),
                        ),
                        None => Some((ClockTime { hour: h, minute: m, second: sec }, l)),
                    }
                },
            }
        },
    }
}

fn when_exec(s: &str, n: usize, i: usize) -> (r: (When, usize))
    requires
        n == s@.len(),
        i <= n,
    ensures
        (r.0, r.1 as int) == time_at(s@, i as int),
        i <= r.1 <= n,
        when_within(r.0, n as int),
{
    match military_exec(s, n, i) {
        Some((c, e)) => (When::Clock(c), e),
        None => match civilian_exec(s, n, i) {
            Some((c, e)) => (When::Clock(c), e),
            None => {
                let (p, e) = phrase_exec(s, n, i);
                (When::Phrase(p), e)
            },
        },
    }
}

fn opt_message_exec(s: &str, n: usize, i: usize) -> (r: (Option<Span>, usize))
    requires
        n == s@.len(),
        i <= n,
    ensures
        (r.0, r.1 as int) == opt_message(s@, i as int),
        i <= r.1 <= n,
        opt_within(r.0, n as int),
{
    match colon_message_exec(s, n, i) {
        Some((m, e)) => (Some(m), e),
        None => (None, i),
    }
}

fn for_when_exec(s: &str, n: usize, i: usize) -> (r: (Span, usize))
    requires
        n == s@.len(),
        i <= n,
    ensures
        (r.0, r.1 as int) == for_when(s@, i as int),
        i <= r.1 <= n,
        within(r.0, n as int),
{
    if lit_at_exec(s, n, i, "for") {
        phrase_exec(s, n, i + "for".unicode_len())
    } else {
        phrase_exec(s, n, i)
    }
}

fn opt_date_exec(s: &str, n: usize, i: usize) -> (r: (Option<Span>, usize))
    requires
        n == s@.len(),
        i <= n,
    ensures
        (r.0, r.1 as int) == opt_date(s@, i as int),
        i <= r.1 <= n,
        opt_within(r.0, n as int),
{
    let b = blank_end_exec(s, n, i);
    if b > i {
        let (d, e) = for_when_exec(s, n, b);
        (Some(d), e)
    } else {
        (None, i)
    }
}

fn at_command_exec(s: &str, n: usize, kw: &str, start: bool) -> (r: Option<(Syntax, usize)>)
    requires
        n == s@.len(),
    ensures
        at_int(r) == at_command(s@, kw@, start),
        r matches Some((_, e)) ==> e <= n,
        r matches Some((syn, _)) ==> syntax_within(syn, n as int),
{
    if !lit_at_exec(s, n, 0, kw) {
        return None;
    }
    let j = kw.unicode_len();
    let b = blank_end_exec(s, n, j);
    if b > j {
        let (w, e) = when_exec(s, n, b);
        let (m, f) = opt_message_exec(s, n, e);
        let syn = if start {
            Syntax::StartedAt(w, m)
        } else {
            Syntax::StoppedAt(w, m)
        };
        Some((syn, f))
    } else {
        None
    }
}

fn ago_command_exec(s: &str, n: usize, kw: &str, start: bool) -> (r: Option<(Syntax, usize)>)
    requires
        n == s@.len(),
    ensures
        at_int(r) == ago_command(s@, kw@, start),
        r matches Some((_, e)) ==> e <= n,
        r matches Some((syn, _)) ==> syntax_within(syn, n as int),
{
    if !lit_at_exec(s, n, 0, kw) {
        return None;
    }
    let j = kw.unicode_len();
    let b = blank_end_exec(s, n, j);
    if b > j {
        let (p, e) = interval_exec(s, n, b);
        let (m, f) = opt_message_exec(s, n, e);
        let syn = if start {
            Syntax::Started(p, m)
        } else {
            Syntax::Stopped(p, m)
        };
        Some((syn, f))
    } else {
        None
    }
}

fn bare_command_exec(s: &str, n: usize, kw: &str, start: bool) -> (r: Option<(Syntax, usize)>)
    requires
        n == s@.len(),
    ensures
        at_int(r) == bare_command(s@, kw@, start),
        r matches Some((_, e)) ==> e <= n,
        r matches Some((syn, _)) ==> syntax_within(syn, n as int),
{
    if !lit_at_exec(s, n, 0, kw) {
        return None;
    }
    let (m, e) = message_exec(s, n, kw.unicode_len());
    let syn = if start {
        Syntax::Start(m)
    } else {
        Syntax::Stop(m)
    };
    Some((syn, e))
}

fn path_prefix_exec(s: &str, n: usize) -> (r: Option<usize>)
    requires
        n == s@.len(),
    ensures
        r matches Some(b) ==> b <= n && path_prefix(s@) == Some(b as int),
        r is None ==> path_prefix(s@) is None,
{
    if !lit_at_exec(s, n, 0, "path") {
        return None;
    }
    proof {
        reveal_strlit("path");
    }
    let j: usize = if char_at_exec(s, n, 4, 's') {
        5
    } else {
        4
    };
    let b = blank_end_exec(s, n, j);
    if b > j {
        Some(b)
    } else {
        None
    }
}

fn path_database_exec(s: &str, n: usize) -> (r: Option<(Syntax, usize)>)
    requires
        n == s@.len(),
    ensures
        at_int(r) == path_database(s@),
        r matches Some((_, e)) ==> e <= n,
        r matches Some((syn, _)) ==> syntax_within(syn, n as int),
{
    match path_prefix_exec(s, n) {
        None => None,
        Some(b) => if lit_at_exec(s, n, b, "database") {
            Some((Syntax::PathDatabase, b + "database".unicode_len()))
        } else if lit_at_exec(s, n, b, "db") {
            Some((Syntax::PathDatabase, b + "db".unicode_len()))
        } else {
            None
        },
    }
}

fn path_config_exec(s: &str, n: usize) -> (r: Option<(Syntax, usize)>)
    requires
        n == s@.len(),
    ensures
        at_int(r) == path_config(s@),
        r matches Some((_, e)) ==> e <= n,
        r matches Some((syn, _)) ==> syntax_within(syn, n as int),
{
    match path_prefix_exec(s, n) {
        None => None,
        Some(b) => if lit_at_exec(s, n, b, "conf") {
            let c = b + "conf".unicode_len();
            if lit_at_exec(s, n, c, "ig") {
                Some((Syntax::PathConfig, c + "ig".unicode_len()))
            } else {
                Some((Syntax::PathConfig, c))
            }
        } else {
            None
        },
    }
}

fn report_exec(s: &str, n: usize) -> (r: Option<(Syntax, usize)>)
    requires
        n == s@.len(),
    ensures
        at_int(r) == report(s@),
        r matches Some((_, e)) ==> e <= n,
        r matches Some((syn, _)) ==> syntax_within(syn, n as int),
{
    if lit_at_exec(s, n, 0, "report") {
        let (d, e) = opt_date_exec(s, n, "report".unicode_len());
        Some((Syntax::Report(d), e))
    } else {
        None
    }
}

fn rm_verb_exec(s: &str, n: usize, b: usize) -> (r: Option<usize>)
    requires
        n == s@.len(),
        b <= n,
    ensures
        r matches Some(v) ==> b <= v <= n && rm_verb(s@, b as int) == Some(v as int),
        r is None ==> rm_verb(s@, b as int) is None,
{
    if lit_at_exec(s, n, b, "rm") {
        Some(b + "rm".unicode_len())
    } else if lit_at_exec(s, n, b, "remove") {
        Some(b + "remove".unicode_len())
    } else if lit_at_exec(s, n, b, "del") {
        let c = b + "del".unicode_len();
        if lit_at_exec(s, n, c, "ete") {
            Some(c + "ete".unicode_len())
        } else {
            Some(c)
        }
    } else {
        None
    }
}

fn event_rm_exec(s: &str, n: usize) -> (r: Option<(Syntax, usize)>)
    requires
        n == s@.len(),
    ensures
        at_int(r) == event_rm(s@),
        r matches Some((_, e)) ==> e <= n,
        r matches Some((syn, _)) ==> syntax_within(syn, n as int),
        r matches Some((syn, _)) ==> id_is_digits(s@, syn),
{
    if !lit_at_exec(s, n, 0, "event") {
        return None;
    }
    proof {
        reveal_strlit("event");
    }
    let j: usize = if char_at_exec(s, n, 5, 's') {
        6
    } else {
        5
    };
    let b = blank_end_exec(s, n, j);
    if b <= j {
        return None;
    }
    match rm_verb_exec(s, n, b) {
        None => None,
        Some(v) => {
            let c = blank_end_exec(s, n, v);
            let d = digits_end_exec(s, n, c);
            if c > v && d > c {
                Some((Syntax::EventRm(Span { start: c, end: d }), d))
            } else {
                None
            }
        },
    }
}

fn events_list_exec(s: &str, n: usize) -> (r: Option<(Syntax, usize)>)
    requires
        n == s@.len(),
    ensures
        at_int(r) == events_list(s@),
        r matches Some((_, e)) ==> e <= n,
        r matches Some((syn, _)) ==> syntax_within(syn, n as int),
{
    if !lit_at_exec(s, n, 0, "events") {
        return None;
    }
    let j = "events".unicode_len();
    let b = blank_end_exec(s, n, j);
    let k = if b > j && lit_at_exec(s, n, b, "list") {
        b + "list".unicode_len()
    } else {
        j
    };
    let (d, e) = opt_date_exec(s, n, k);
    Some((Syntax::EventsList(d), e))
}

fn unknown_exec(s: &str, n: usize) -> (r: Option<(Syntax, usize)>)
    requires
        n == s@.len(),
    ensures
        at_int(r) == unknown(s@),
        r matches Some((_, e)) ==> e <= n,
        r matches Some((syn, _)) ==> syntax_within(syn, n as int),
{
    let c = word_end_exec(s, n, 0);
    if c > 0 {
        Some((Syntax::Unknown(Span { start: 0, end: c }), printable_end_exec(s, n, c)))
    } else {
        None
    }
}

fn first_match_exec(s: &str, n: usize) -> (r: Option<(Syntax, usize)>)
    requires
        n == s@.len(),
    ensures
        at_int(r) == first_match(s@),
        r matches Some((_, e)) ==> e <= n,
        r matches Some((syn, _)) ==> syntax_within(syn, n as int),
        r matches Some((syn, _)) ==> id_is_digits(s@, syn),
{
    let r = at_command_exec(s, n, "started at", true);
    if r.is_some() {
        return r;
    }
    let r = ago_command_exec(s, n, "started", true);
    if r.is_some() {
        return r;
    }
    let r = bare_command_exec(s, n, "start", true);
    if r.is_some() {
        return r;
    }
    let r = at_command_exec(s, n, "stopped at", false);
    if r.is_some() {
        return r;
    }
    let r = ago_command_exec(s, n, "stopped", false);
    if r.is_some() {
        return r;
    }
    let r = bare_command_exec(s, n, "stop", false);
    if r.is_some() {
        return r;
    }
    let r = path_database_exec(s, n);
    if r.is_some() {
        return r;
    }
    let r = path_config_exec(s, n);
    if r.is_some() {
        return r;
    }
    let r = report_exec(s, n);
    if r.is_some() {
        return r;
    }
    let r = event_rm_exec(s, n);
    if r.is_some() {
        return r;
    }
    let r = events_list_exec(s, n);
    if r.is_some() {
        return r;
    }
    unknown_exec(s, n)
}

/// Finds the structure of a command line: the first alternative whose
/// structure matches its start, provided that it reads the line to the end.
/// Otherwise, the position where the line stops matching.
pub fn parse_syntax(input: &str) -> (r: Result<Syntax, usize>)
    ensures
        match r {
            Ok(syn) => syntax_of(input@) == Ok::<Syntax, int>(syn),
            Err(e) => syntax_of(input@) == Err::<Syntax, int>(e as int),
        },
        r matches Ok(syn) ==> syntax_within(syn, input@.len() as int),
        r matches Ok(syn) ==> id_is_digits(input@, syn),
{
    let n = input.unicode_len();
    match first_match_exec(input, n) {
        Some((syn, e)) => if e == n {
            Ok(syn)
        } else {
            Err(e)
        },
        None => Err(0),
    }
}

/// The number that the two digits at `i` write.
pub open spec fn pair_value(s: Seq<char>, i: int) -> u32 {
    (10 * digit_value(s[i]) + digit_value(s[i + 1])) as u32
}

/// The clock time that a military fragment of four or six digits writes.
pub open spec fn military_clock(f: Seq<char>) -> ClockTime {
    ClockTime {
        hour: pair_value(f, 0),
        minute: pair_value(f, 2),
        second: if f.len() == 6 { pair_value(f, 4) } else { 0 },
    }
}

/// Four or six digits standing at `i` in `s`, not followed by a further digit
/// pair when there are four, read as military time up to their end.
pub proof fn lemma_military_at(s: Seq<char>, i: int, f: Seq<char>)
    requires
        f.len() == 4 || f.len() == 6,
        forall|k: int| 0 <= k < f.len() ==> is_digit(#[trigger] f[k]),
        0 <= i,
        i + f.len() <= s.len(),
        s.subrange(i, i + f.len()) == f,
        f.len() == 4 && i + 4 < s.len() ==> !is_digit(s[i + 4]),
    ensures
        time_at(s, i) == (When::Clock(military_clock(f)), i + f.len()),
{
    assert(forall|k: int| 0 <= k < f.len() ==> s[i + k] == #[trigger] f[k]) by {
        assert forall|k: int| 0 <= k < f.len() implies s[i + k] == #[trigger] f[k] by {
            assert(s.subrange(i, i + f.len())[k] == s[i + k]);
        }
    }
    assert(is_digit(f[0]) && is_digit(f[1]) && is_digit(f[2]) && is_digit(f[3]));
    assert(two_digits(s, i) == Some((pair_value(f, 0), i + 2)));
    assert(two_digits(s, i + 2) == Some((pair_value(f, 2), i + 4)));
    if f.len() == 6 {
        assert(is_digit(f[4]) && is_digit(f[5]));
        assert(two_digits(s, i + 4) == Some((pair_value(f, 4), i + 6)));
    } else {
        assert(two_digits(s, i + 4) is None);
    }
}

/// From `i` on every character is printable: a message runs to the end.
pub proof fn lemma_printable_rest(s: Seq<char>, i: int)
    requires
        0 <= i <= s.len(),
        forall|k: int| i <= k < s.len() ==> printable(#[trigger] s[k]),
    ensures
        printable_end(s, i) == s.len(),
    decreases s.len() - i,
{
    if i < s.len() {
        lemma_printable_rest(s, i + 1);
    }
}

pub proof fn lemma_blank_end_bounds(s: Seq<char>, i: int)
    requires
        0 <= i <= s.len(),
    ensures
        i <= blank_end(s, i) <= s.len(),
    decreases s.len() - i,
{
    if i < s.len() {
        lemma_blank_end_bounds(s, i + 1);
    }
}

/// A fragment of four or six digits reads, in full, as military time: hours,
/// minutes and seconds, two digits each, the seconds zero when not given.
/// Reading the time then gives today at that clock time, or `InvalidTime`
/// when a part is out of range (see `cli::resolve`).
pub proof fn lemma_military_fragment(f: Seq<char>)
    requires
        f.len() == 4 || f.len() == 6,
        forall|k: int| 0 <= k < f.len() ==> is_digit(#[trigger] f[k]),
    ensures
        time_at(f, 0) == (When::Clock(military_clock(f)), f.len() as int),
{
    assert(f.subrange(0, f.len() as int) =~= f);
    lemma_military_at(f, 0, f);
}

/// Where the minutes of a civilian body `H:MM[:SS]` or `HH:MM[:SS]` begin,
/// after the hour digits and the colon.
pub open spec fn hour_len(b: Seq<char>) -> int {
    if b.len() == 4 || b.len() == 7 { 1 } else { 2 }
}

/// `b` is `H:MM`, `HH:MM`, `H:MM:SS` or `HH:MM:SS`.
pub open spec fn civilian_body(b: Seq<char>) -> bool {
    let h = hour_len(b);
    &&& b.len() == 4 || b.len() == 5 || b.len() == 7 || b.len() == 8
    &&& forall|k: int| 0 <= k < h ==> is_digit(#[trigger] b[k])
    &&& b[h] == ':' && is_digit(b[h + 1]) && is_digit(b[h + 2])
    &&& b.len() >= 7 ==> b[h + 3] == ':' && is_digit(b[h + 4]) && is_digit(b[h + 5])
}

/// An am/pm marker: `a`, `p`, `A` or `P`, and an optional `m` or `M`.
pub open spec fn am_pm_marker(m: Seq<char>) -> bool {
    &&& m.len() == 1 || m.len() == 2
    &&& m[0] == 'a' || m[0] == 'p' || m[0] == 'A' || m[0] == 'P'
    &&& m.len() == 2 ==> m[1] == 'm' || m[1] == 'M'
}

/// The hours a marker adds: twelve for `p` or `P`, none otherwise.
pub open spec fn marker_offset(m: Seq<char>) -> u32 {
    if m.len() > 0 && (m[0] == 'p' || m[0] == 'P') { 12 } else { 0 }
}

/// The clock time that a civilian fragment writes: the hour as written
/// plus what the marker adds, the minutes, and the seconds or zero.
pub open spec fn civilian_clock(b: Seq<char>, marker: Seq<char>) -> ClockTime {
    let h = hour_len(b);
    let hour: int = if h == 1 { digit_value(b[0]) } else { pair_value(b, 0) as int };
    ClockTime {
        hour: (hour + marker_offset(marker)) as u32,
        minute: pair_value(b, h + 1),
        second: if b.len() >= 7 { pair_value(b, h + 4) } else { 0 },
    }
}

/// A civilian fragment with `gap` blanks before its marker.
pub open spec fn civilian_fragment(b: Seq<char>, gap: nat, marker: Seq<char>) -> Seq<char> {
    b + Seq::new(gap, |_i: int| ' ') + marker
}

pub proof fn lemma_blank_run(s: Seq<char>, i: int, k: int)
    requires
        0 <= i,
        0 <= k,
        i + k <= s.len(),
        forall|j: int| i <= j < i + k ==> s[j] == ' ',
        i + k == s.len() || !is_blank(s[i + k]),
    ensures
        blank_end(s, i) == i + k,
    decreases k,
{
    if k > 0 {
        lemma_blank_run(s, i + 1, k - 1);
    }
}

/// A civilian fragment standing at `i` in `s`, followed by the end of the
/// line or a colon, reads as one clock time up to its end: a `p` or `P`
/// marker adds twelve hours, an `a` or `A` marker or none adds nothing. When
/// a body without seconds and without a marker is followed by a colon, two
/// digits after that colon would be read as seconds; they must not be there.
pub proof fn lemma_civilian_at(s: Seq<char>, i: int, b: Seq<char>, gap: nat, marker: Seq<char>)
    requires
        civilian_body(b),
        marker.len() == 0 ==> gap == 0,
        marker.len() > 0 ==> am_pm_marker(marker),
        0 <= i,
        i + civilian_fragment(b, gap, marker).len() <= s.len(),
        s.subrange(i, i + civilian_fragment(b, gap, marker).len()) == civilian_fragment(b, gap, marker),
        i + civilian_fragment(b, gap, marker).len() == s.len() || s[i + civilian_fragment(
            b,
            gap,
            marker,
        ).len()] == ':',
        marker.len() == 0 && b.len() < 7 ==> two_digits(s, i + b.len() + 1) is None,
    ensures
        time_at(s, i) == (
        When::Clock(civilian_clock(b, marker)),
        i + civilian_fragment(b, gap, marker).len(),
        ),
{
    let frag = civilian_fragment(b, gap, marker);
    let h = hour_len(b);
    let l = b.len() as int;
    let e = i + frag.len();
    assert forall|k: int| 0 <= k < frag.len() implies s[i + k] == #[trigger] frag[k] by {
        assert(s.subrange(i, e)[k] == s[i + k]);
    }
    assert(forall|j: int| 0 <= j < l ==> s[i + j] == frag[j] && frag[j] == b[j]);
    assert(forall|j: int| l <= j < l + gap ==> s[i + j] == frag[j] && frag[j] == ' ');
    assert(forall|j: int|
        0 <= j < marker.len() ==> s[i + l + gap + j] == frag[l + gap + j] && frag[l + gap + j]
            == marker[j]);
    assert(is_digit(b[0]));
    assert(is_digit(s[i]));
    assert(s[i + h] == ':');
    assert(military(s, i) is None);
    if h == 2 {
        assert(is_digit(b[1]));
        assert(is_digit(s[i + 1]));
    }
    assert(s[i + h + 1] == b[h + 1] && s[i + h + 2] == b[h + 2]);
    assert(two_digits(s, i + h + 1) == Some((pair_value(b, h + 1), i + h + 3)));
    if b.len() >= 7 {
        assert(s[i + h + 3] == b[h + 3] && s[i + h + 4] == b[h + 4] && s[i + h + 5] == b[h + 5]);
        assert(two_digits(s, i + h + 4) == Some((pair_value(b, h + 4), i + h + 6)));
    } else if gap > 0 {
        assert(s[i + l] == frag[l]);
        assert(!char_at(s, i + h + 3, ':'));
    } else if marker.len() > 0 {
        assert(s[i + l + gap + 0] == marker[0]);
        assert(!char_at(s, i + h + 3, ':'));
    }
    if marker.len() > 0 {
        assert(s[i + l + gap + 0] == marker[0]);
        assert(!is_blank(s[i + l + gap]));
    }
    assert forall|k: int| i + l <= k < i + l + gap implies s[k] == ' ' by {
        assert(s[i + (k - i)] == frag[k - i]);
    }
    lemma_blank_run(s, i + l, gap as int);
    if marker.len() > 1 {
        assert(char_at(s, i + l + gap + 1, 'm') || char_at(s, i + l + gap + 1, 'M'));
    } else if marker.len() == 1 && e < s.len() {
        assert(s[i + l + gap + 1] == ':');
    }
}

/// A civilian fragment `H[H]:MM[:SS]`, then optional blanks and an am/pm
/// marker, reads in full as one clock time: a `p` or `P` marker adds twelve
/// hours, an `a` or `A` marker or none adds nothing, and how many blanks
/// stand before the marker, or whether an `m` follows it, changes nothing.
pub proof fn lemma_civilian_fragment(b: Seq<char>, gap: nat, marker: Seq<char>)
    requires
        civilian_body(b),
        marker.len() == 0 ==> gap == 0,
        marker.len() > 0 ==> am_pm_marker(marker),
    ensures
        time_at(civilian_fragment(b, gap, marker), 0) == (
        When::Clock(civilian_clock(b, marker)),
        civilian_fragment(b, gap, marker).len() as int,
        ),
{
    let s = civilian_fragment(b, gap, marker);
    assert(s.subrange(0, s.len() as int) =~= s);
    lemma_civilian_at(s, 0, b, gap, marker);
}

/// Two civilian fragments with the same body and markers of the same kind
/// read as the same clock time, whatever blanks stand before the markers and
/// whether an `m` follows them: `1:23p`, `1:23 p` and `1:23 PM` alike.
pub proof fn lemma_markers_agree(b: Seq<char>, g1: nat, m1: Seq<char>, g2: nat, m2: Seq<char>)
    requires
        civilian_body(b),
        am_pm_marker(m1),
        am_pm_marker(m2),
        marker_offset(m1) == marker_offset(m2),
    ensures
        time_at(civilian_fragment(b, g1, m1), 0).0 == time_at(civilian_fragment(b, g2, m2), 0).0,
{
    lemma_civilian_fragment(b, g1, m1);
    lemma_civilian_fragment(b, g2, m2);
}

} // verus!
