//! The command that shows the history of an overlay.

use crate::commit;
use crate::desired::entry::{DesiredEntry, MaterializationIntent, Provenance};
use crate::path;
use crate::path::{component_count, starts_with_path};
use crate::text;
use crate::text::{concat2, concat3, decimal_text};
use vstd::prelude::*;

verus! {

/// The arguments of the command.
#[derive(Debug, PartialEq, Eq)]
pub struct Params {
    pub name: Option<String>,
    pub root: Option<String>,
    /// How many commits are shown at most.
    pub limit: usize,
}

/// Whether a year has a day more than others.
pub open spec fn is_leap(y: int) -> bool {
    y % 4 == 0 && (y % 100 != 0 || y % 400 == 0)
}

/// How many days a month has.
pub open spec fn month_days(y: int, m: int) -> int {
    if m == 2 {
        if is_leap(y) {
            29
        } else {
            28
        }
    } else if m == 4 || m == 6 || m == 9 || m == 11 {
        30
    } else {
        31
    }
}

/// How many days of a year lie before a month.
pub open spec fn days_before_month(y: int, m: int) -> int
    decreases m,
{
    if m <= 1 {
        0
    } else {
        days_before_month(y, m - 1) + month_days(y, m - 1)
    }
}

/// How many days lie between the year 0 and a year.
pub open spec fn days_before_year(y: int) -> int {
    365 * y + (y - 1) / 4 - (y - 1) / 100 + (y - 1) / 400
}

/// A day of the Gregorian calendar, which is also continued into the past.
pub struct Date {
    pub year: int,
    pub month: int,
    pub day: int,
}

impl Date {
    /// Whether there is such a day.
    pub open spec fn valid(self) -> bool {
        1 <= self.month <= 12 && 1 <= self.day <= month_days(self.year, self.month)
    }

    /// The number of a day: the first of January 1970 has the number 0, and every
    /// other day one more than the day before it.
    pub open spec fn number(self) -> int {
        days_before_year(self.year) - days_before_year(1970) + days_before_month(
            self.year,
            self.month,
        ) + self.day - 1
    }

    /// The day after this one.
    pub open spec fn next(self) -> Date {
        if self.day < month_days(self.year, self.month) {
            Date { day: self.day + 1, ..self }
        } else if self.month < 12 {
            Date { month: self.month + 1, day: 1, ..self }
        } else {
            Date { year: self.year + 1, month: 1, day: 1 }
        }
    }
}

proof fn lemma_months(y: int)
    ensures
        days_before_month(y, 1) == 0,
        days_before_month(y, 2) == 31,
        days_before_month(y, 3) == 59 + (if is_leap(y) {
            1int
        } else {
            0
        }),
        days_before_month(y, 4) == days_before_month(y, 3) + 31,
        days_before_month(y, 5) == days_before_month(y, 3) + 61,
        days_before_month(y, 6) == days_before_month(y, 3) + 92,
        days_before_month(y, 7) == days_before_month(y, 3) + 122,
        days_before_month(y, 8) == days_before_month(y, 3) + 153,
        days_before_month(y, 9) == days_before_month(y, 3) + 184,
        days_before_month(y, 10) == days_before_month(y, 3) + 214,
        days_before_month(y, 11) == days_before_month(y, 3) + 245,
        days_before_month(y, 12) == days_before_month(y, 3) + 275,
{
    reveal_with_fuel(days_before_month, 13);
}

proof fn lemma_year(y: int)
    ensures
        days_before_year(y + 1) == days_before_year(y) + (if is_leap(y) {
            366int
        } else {
            365
        }),
{
    let q = y / 400;
    let r = y % 400;
    assert(y == 400 * q + r);
    assert((y - 1) / 400 == if r == 0 {
        q - 1
    } else {
        q
    });
    assert((y - 1) / 100 == 4 * q + (r - 1) / 100);
    assert((y - 1) / 4 == 100 * q + (r - 1) / 4);
    assert(y / 100 == 4 * q + r / 100);
    assert(y / 4 == 100 * q + r / 4);
    assert(y % 4 == r % 4);
    assert(y % 100 == r % 100);
}

/// The first of January 1970 has the number 0, and each day has the number after
/// that of the day before it.
pub proof fn days_are_numbered_in_turn(date: Date)
    requires
        date.valid(),
    ensures
        date.next().valid(),
        date.next().number() == date.number() + 1,
        (Date { year: 1970, month: 1, day: 1 }).number() == 0,
{
    lemma_months(date.year);
    lemma_months(date.year + 1);
    lemma_months(1970);
    lemma_year(date.year);
}

proof fn lemma_years_apart(a: int, b: int)
    requires
        a < b,
    ensures
        days_before_year(a + 1) <= days_before_year(b),
    decreases b - a,
{
    if a + 1 < b {
        lemma_years_apart(a, b - 1);
        lemma_year(b - 1);
    }
}

proof fn lemma_day_of_year(date: Date)
    requires
        date.valid(),
    ensures
        0 <= days_before_month(date.year, date.month) + date.day - 1 < (if is_leap(date.year) {
            366int
        } else {
            365
        }),
{
    lemma_months(date.year);
}

/// No two days have the same number.
pub proof fn days_are_numbered_once(a: Date, b: Date)
    requires
        a.valid(),
        b.valid(),
        a.number() == b.number(),
    ensures
        a == b,
{
    lemma_day_of_year(a);
    lemma_day_of_year(b);
    lemma_year(a.year);
    lemma_year(b.year);
    if a.year < b.year {
        lemma_years_apart(a.year, b.year);
    } else if b.year < a.year {
        lemma_years_apart(b.year, a.year);
    }
    lemma_months(a.year);
}

/// Days before a year that begins in March, counted within 400 years.
spec fn days_before(y: int) -> int {
    365 * y + y / 4 - y / 100
}

proof fn lemma_year_of_era(doe: int, yoe: int)
    requires
        0 <= doe < 146097,
        yoe == (doe - doe / 1460 + doe / 36524 - doe / 146096) / 365,
    ensures
        0 <= yoe < 400,
        days_before(yoe) <= doe,
        yoe < 399 ==> doe < days_before(yoe + 1),
        doe - days_before(yoe) <= 365,
{
    let c = doe / 36524;
    let q = yoe / 100;
    assert(0 <= c <= 4);
    assert(doe / 146096 == if doe == 146096 {
        1int
    } else {
        0
    });
    assert(c == 4 <==> doe == 146096);
    assert(0 <= doe / 1460 <= 100);
}

/// Days between the first of March and the month `mp` months later.
spec fn days_before_march_month(mp: int) -> int {
    if mp == 0 {
        0
    } else if mp == 1 {
        31
    } else if mp == 2 {
        61
    } else if mp == 3 {
        92
    } else if mp == 4 {
        122
    } else if mp == 5 {
        153
    } else if mp == 6 {
        184
    } else if mp == 7 {
        214
    } else if mp == 8 {
        245
    } else if mp == 9 {
        275
    } else if mp == 10 {
        306
    } else {
        337
    }
}

proof fn lemma_month_of_year(doy: int, mp: int)
    requires
        0 <= doy <= 365,
        mp == (5 * doy + 2) / 153,
    ensures
        0 <= mp <= 11,
        (153 * mp + 2) / 5 == days_before_march_month(mp),
        days_before_march_month(mp) <= doy,
        mp < 11 ==> doy < days_before_march_month(mp + 1),
{
}

/// The year that holds the day `mp` months and some days after the first of March
/// of the year `y`.
spec fn year_of(y: int, mp: int) -> int {
    if mp < 10 {
        y
    } else {
        y + 1
    }
}

spec fn month_of(mp: int) -> int {
    if mp < 10 {
        mp + 3
    } else {
        mp - 9
    }
}

proof fn lemma_shift(era: int, k: int)
    ensures
        (400 * era + k) / 4 == 100 * era + k / 4,
        (400 * era + k) / 100 == 4 * era + k / 100,
        (400 * era + k) / 400 == era + k / 400,
        (400 * era + k) % 4 == k % 4,
        (400 * era + k) % 100 == k % 100,
        (400 * era + k) % 400 == k % 400,
{
}

proof fn lemma_march_first(era: int, yoe: int)
    requires
        0 <= yoe < 400,
    ensures
        ({
            let y = yoe + 400 * era;
            // the first of March
            days_before_year(y) - days_before_year(1970) + days_before_month(y, 3) == 146097 * era
                + days_before(yoe) - 719468
        }),
{
    let y = yoe + 400 * era;
    lemma_months(y);
    lemma_shift(era, yoe - 1);
    lemma_shift(era, yoe);
    assert(days_before_year(y) == 365 * y + 100 * era + (yoe - 1) / 4 - (4 * era + (yoe - 1) / 100)
        + era + (yoe - 1) / 400);
    assert(is_leap(y) == (yoe % 4 == 0 && (yoe % 100 != 0 || yoe == 0)));
    assert(days_before_year(1970) == 365 * 1970 + 492 - 19 + 4);
}

proof fn lemma_march_years(era: int, yoe: int)
    requires
        0 <= yoe < 400,
    ensures
        is_leap(yoe + 400 * era + 1) == (yoe == 399 || ((yoe + 1) % 4 == 0 && (yoe + 1) % 100
            != 0)),
        yoe < 399 ==> days_before(yoe + 1) - days_before(yoe) == (if is_leap(
            yoe + 400 * era + 1,
        ) {
            366int
        } else {
            365
        }),
{
    lemma_shift(era, yoe + 1);
}

proof fn lemma_date(era: int, yoe: int, doy: int, mp: int)
    requires
        0 <= yoe < 400,
        0 <= doy <= 365,
        yoe < 399 ==> days_before(yoe) + doy < days_before(yoe + 1),
        mp == (5 * doy + 2) / 153,
    ensures
        ({
            let y = yoe + 400 * era;
            let date = Date {
                year: year_of(y, mp),
                month: month_of(mp),
                day: doy - (153 * mp + 2) / 5 + 1,
            };
            &&& date.valid()
            &&& date.number() == 146097 * era + days_before(yoe) + doy - 719468
        }),
{
    let y = yoe + 400 * era;
    lemma_month_of_year(doy, mp);
    lemma_march_first(era, yoe);
    lemma_march_years(era, yoe);
    lemma_months(y);
    lemma_months(y + 1);
    lemma_year(y);
}

/// The date of a day by its number.
pub fn civil_from_days(days: i64) -> (r: (i64, u32, u32))
    requires
        i64::MIN + 146096 <= days + 719468 <= i64::MAX,
    ensures
        ({
            let date = Date { year: r.0 as int, month: r.1 as int, day: r.2 as int };
            date.valid() && date.number() == days
        }),
{
    let z: i64 = days + 719468;
    let era: i64 = match z.checked_div_euclid(146097) {
        Some(era) => era,
        None => 0,
    };
    assert(era == (z as int) / 146097);
    let doe: u64 = (z - era * 146097) as u64;
    let yoe: u64 = (doe - doe / 1460 + doe / 36524 - doe / 146096) / 365;
    proof {
        lemma_year_of_era(doe as int, yoe as int);
    }
    let y: i64 = yoe as i64 + era * 400;
    let doy: u64 = doe - (365 * yoe + yoe / 4 - yoe / 100);
    let mp: u64 = (5 * doy + 2) / 153;
    proof {
        lemma_month_of_year(doy as int, mp as int);
        lemma_date(era as int, yoe as int, doy as int, mp as int);
    }
    let d: u32 = (doy - (153 * mp + 2) / 5 + 1) as u32;
    let m: u32 = (if mp < 10 {
        mp + 3
    } else {
        mp - 9
    }) as u32;
    let year: i64 = if m <= 2 {
        y + 1
    } else {
        y
    };
    (year, m, d)
}

/// `s` with zeros before it, `width` characters long where it is shorter.
pub open spec fn zeros_before(s: Seq<char>, width: int) -> Seq<char>
    decreases width - s.len(),
{
    if s.len() >= width {
        s
    } else {
        zeros_before(seq!['0'] + s, width)
    }
}

/// A number in at least `width` characters, filled up with zeros behind its sign.
pub open spec fn zero_padded(n: int, width: int) -> Seq<char> {
    if n < 0 {
        "-"@ + zeros_before(text::decimal((-n) as nat), width - 1)
    } else {
        zeros_before(text::decimal(n as nat), width)
    }
}

fn fill_zeros(n: u64, width: usize) -> (r: String)
    ensures
        r@ == zeros_before(text::decimal(n as nat), width as int),
{
    let mut r = decimal_text(n);
    while r.as_str().unicode_len() < width
        invariant
            zeros_before(text::decimal(n as nat), width as int) == zeros_before(r@, width as int),
        decreases width - r@.len(),
    {
        let longer = concat2("0", r.as_str());
        proof {
            reveal_strlit("0");
            assert(longer@ =~= seq!['0'] + r@);
        }
        r = longer;
    }
    r
}

fn padded_text(n: i64, width: usize) -> (r: String)
    requires
        width > 0,
        n > i64::MIN,
    ensures
        r@ == zero_padded(n as int, width as int),
{
    if n < 0 {
        concat2("-", fill_zeros((-n) as u64, width - 1).as_str())
    } else {
        fill_zeros(n as u64, width)
    }
}

/// A time of the day on a date, to the minute.
pub open spec fn time_text(date: Date, minute: int) -> Seq<char> {
    zero_padded(date.year, 4) + "-"@ + zero_padded(date.month, 2) + "-"@ + zero_padded(date.day, 2)
        + " "@ + zero_padded(minute / 60, 2) + ":"@ + zero_padded(minute % 60, 2)
}

/// The day that has this number.
pub open spec fn date_of(n: int) -> Date {
    choose|date: Date| date.valid() && #[trigger] date.number() == n
}

/// A point in time, in seconds since 1970, as a clock shows it that is set this
/// many minutes before Greenwich.
pub fn format_git_time(seconds: i64, offset_minutes: i32) -> (r: String)
    requires
        i64::MIN <= seconds + offset_minutes * 60 <= i64::MAX,
    ensures
        ({
            let local = seconds + offset_minutes * 60;
            r@ == time_text(date_of(local / 86400), local % 86400 / 60)
        }),
{
    let total: i64 = seconds + offset_minutes as i64 * 60;
    let days: i64 = match total.checked_div_euclid(86400) {
        Some(d) => d,
        None => 0,
    };
    let second: i64 = match total.checked_rem_euclid(86400) {
        Some(s) => s,
        None => 0,
    };
    assert(days == total as int / 86400 && second == total as int % 86400);
    let (year, month, day) = civil_from_days(days);
    let ghost date = Date { year: year as int, month: month as int, day: day as int };
    proof {
        lemma_day_of_year(date);
        lemma_months(date.year);
        if date.year == i64::MIN {
            assert(date.number() < -1_000_000_000_000_000_000);
        }
    }
    let minute: i64 = second / 60;
    let mut r = padded_text(year, 4);
    r.append("-");
    r.append(padded_text(month as i64, 2).as_str());
    r.append("-");
    r.append(padded_text(day as i64, 2).as_str());
    r.append(" ");
    r.append(padded_text(minute / 60, 2).as_str());
    r.append(":");
    r.append(padded_text(minute % 60, 2).as_str());
    assert(date.valid() && date.number() == days);
    proof {
        days_are_numbered_once(date, date_of(days as int));
    }
    r
}

/// A commit as it is listed.
#[derive(Debug, PartialEq, Eq)]
pub struct LogEntry {
    pub short_oid: String,
    pub summary: String,
    pub author: String,
    pub when: String,
}

impl LogEntry {
    /// A commit as it is listed: by its short name or else its whole name, with
    /// what stands in for a missing message or author.
    pub fn from_commit(
        short_id: Option<String>,
        id: String,
        summary: Option<String>,
        author: Option<String>,
        when: String,
    ) -> (r: Self)
        ensures
            r.short_oid == match short_id {
                Some(s) => s,
                None => id,
            },
            r.summary@ == match summary {
                Some(s) => s@,
                None => "<no message>"@,
            },
            r.author@ == match author {
                Some(a) => a@,
                None => "unknown"@,
            },
            r.when == when,
    {
        LogEntry {
            short_oid: match short_id {
                Some(s) => s,
                None => id,
            },
            summary: match summary {
                Some(s) => s,
                None => "<no message>".to_owned(),
            },
            author: match author {
                Some(a) => a,
                None => "unknown".to_owned(),
            },
            when,
        }
    }

    /// The line that shows it.
    pub fn line(&self) -> (r: String)
        ensures
            r@ == self.short_oid@ + " "@ + self.summary@ + " \u{2014} ("@ + self.author@ + ", "@
                + self.when@ + ")"@,
    {
        let mut r = concat3(self.short_oid.as_str(), " ", self.summary.as_str());
        r.append(" \u{2014} (");
        r.append(self.author.as_str());
        r.append(", ");
        r.append(self.when.as_str());
        r.append(")");
        r
    }
}

/// The commits that are listed, the latest first.
#[derive(Debug, PartialEq, Eq)]
pub struct LogList {
    /// The path that the commits must touch, or nothing for all of them.
    pub managed_path: String,
    pub limit: usize,
    pub entries: Vec<LogEntry>,
}

/// A list of at most `limit` commits after one more is met, which belongs to it or
/// not.
pub open spec fn extended(
    entries: Seq<LogEntry>,
    limit: int,
    entry: LogEntry,
    belongs: bool,
) -> Seq<LogEntry> {
    if belongs && entries.len() < limit {
        entries.push(entry)
    } else {
        entries
    }
}

impl LogList {
    /// Whether no more commits are listed than there may be.
    pub open spec fn well_formed(self) -> bool {
        self.entries@.len() <= self.limit
    }

    /// Whether a commit belongs to the list, by whether it touches the path.
    pub open spec fn wants(self, touches: bool) -> bool {
        touches || self.managed_path@.len() == 0
    }

    /// An empty list.
    pub fn new(managed_path: String, limit: usize) -> (r: Self)
        ensures
            r.managed_path == managed_path,
            r.limit == limit,
            r.entries@ == Seq::<LogEntry>::empty(),
            r.well_formed(),
    {
        LogList { managed_path, limit, entries: Vec::new() }
    }

    /// Whether nothing more is listed.
    pub fn is_full(&self) -> (r: bool)
        ensures
            r == (self.entries@.len() >= self.limit),
    {
        self.entries.len() >= self.limit
    }

    /// Lists a commit, where it touches the path or any will do and the list is
    /// not full, and tells whether the list is full then.
    pub fn offer(&mut self, entry: LogEntry, touches: bool) -> (full: bool)
        ensures
            final(self).managed_path == old(self).managed_path,
            final(self).limit == old(self).limit,
            final(self).entries@ == extended(
                old(self).entries@,
                old(self).limit as int,
                entry,
                old(self).wants(touches),
            ),
            full == (final(self).entries@.len() >= final(self).limit),
            old(self).well_formed() ==> final(self).well_formed(),
    {
        let any = self.managed_path.as_str().unicode_len() == 0;
        if (touches || any) && self.entries.len() < self.limit {
            self.entries.push(entry);
        }
        self.is_full()
    }
}

/// The commits that belong to a list among the first `n`, in their order; `commits`
/// tells of each whether it belongs.
pub open spec fn belonging(commits: Seq<(LogEntry, bool)>, n: nat) -> Seq<LogEntry>
    decreases n,
{
    if n == 0 {
        Seq::empty()
    } else {
        let before = belonging(commits, (n - 1) as nat);
        if commits[n - 1].1 {
            before.push(commits[n - 1].0)
        } else {
            before
        }
    }
}

/// A list of at most `limit` commits after the first `n` are met.
pub open spec fn listed(commits: Seq<(LogEntry, bool)>, limit: int, n: nat) -> Seq<LogEntry>
    decreases n,
{
    if n == 0 {
        Seq::empty()
    } else {
        extended(
            listed(commits, limit, (n - 1) as nat),
            limit,
            commits[n - 1].0,
            commits[n - 1].1,
        )
    }
}

/// A list holds the first commits that belong to it, as many as it may hold, in
/// their order and with none left out before it is full.
pub proof fn the_first_commits_are_listed(commits: Seq<(LogEntry, bool)>, limit: nat, n: nat)
    requires
        n <= commits.len(),
    ensures
        listed(commits, limit as int, n) == belonging(commits, n).take(
            if belonging(commits, n).len() < limit {
                belonging(commits, n).len() as int
            } else {
                limit as int
            },
        ),
        listed(commits, limit as int, n).len() <= limit,
    decreases n,
{
    if n > 0 {
        the_first_commits_are_listed(commits, limit, (n - 1) as nat);
    }
    assert(listed(commits, limit as int, n) =~= belonging(commits, n).take(
        if belonging(commits, n).len() < limit {
            belonging(commits, n).len() as int
        } else {
            limit as int
        },
    ));
}

/// Whether the directory `cwd` lies in a target that is known.
pub open spec fn contains_directory(target: Option<String>, cwd: Seq<char>) -> bool {
    target is Some && path::path_starts_with(cwd, target->0@)
}

/// How many components a target has.
pub open spec fn depth(target: Option<String>) -> int {
    match target {
        Some(t) => path::components(t@).len() as int,
        None => 0,
    }
}

/// The first of the first `n` targets that holds `cwd` and has the most
/// components.
pub open spec fn closest(targets: Seq<Option<String>>, cwd: Seq<char>, n: nat) -> Option<int>
    decreases n,
{
    if n == 0 {
        None
    } else {
        let before = closest(targets, cwd, (n - 1) as nat);
        if contains_directory(targets[n - 1], cwd) && (before is None || depth(targets[n - 1])
            > depth(targets[before->0])) {
            Some(n - 1)
        } else {
            before
        }
    }
}

/// The overlay that the directory `cwd` belongs to, by the targets of the
/// overlays: the one with the deepest target around it, the first of equals.
pub fn guess_overlay(targets: &Vec<Option<String>>, cwd: &str) -> (r: Option<usize>)
    ensures
        match r {
            Some(i) => closest(targets@, cwd@, targets@.len()) == Some(i as int) && i
                < targets@.len(),
            None => closest(targets@, cwd@, targets@.len()) is None,
        },
{
    let mut best: Option<usize> = None;
    let mut deepest: usize = 0;
    let mut i: usize = 0;
    while i < targets.len()
        invariant
            i <= targets@.len(),
            match best {
                Some(b) => closest(targets@, cwd@, i as nat) == Some(b as int) && b < i && deepest
                    == depth(targets@[b as int]),
                None => closest(targets@, cwd@, i as nat) is None,
            },
        decreases targets@.len() - i,
    {
        if let Some(target) = &targets[i] {
            if starts_with_path(cwd, target.as_str()) {
                let n: usize = component_count(target.as_str());
                if best.is_none() || n > deepest {
                    best = Some(i);
                    deepest = n;
                }
            }
        }
        i = i + 1;
    }
    best
}

/// The overlay that a directory belongs to holds it, and none that holds it is
/// deeper, or as deep and earlier.
pub proof fn guessed_overlay_is_closest(
    targets: Seq<Option<String>>,
    cwd: Seq<char>,
    n: nat,
    other: int,
)
    requires
        n <= targets.len(),
        0 <= other < n,
        contains_directory(targets[other], cwd),
    ensures
        ({
            let c = closest(targets, cwd, n);
            &&& c is Some
            &&& 0 <= c->0 < n
            &&& contains_directory(targets[c->0], cwd)
            &&& depth(targets[other]) < depth(targets[c->0]) || (depth(targets[other]) == depth(
                targets[c->0],
            ) && c->0 <= other)
        }),
    decreases n,
{
    lemma_closest(targets, cwd, (n - 1) as nat);
    if other < n - 1 {
        guessed_overlay_is_closest(targets, cwd, (n - 1) as nat, other);
    }
}

proof fn lemma_closest(targets: Seq<Option<String>>, cwd: Seq<char>, n: nat)
    requires
        n <= targets.len(),
    ensures
        closest(targets, cwd, n) is Some ==> 0 <= closest(targets, cwd, n)->0 < n
            && contains_directory(targets[closest(targets, cwd, n)->0], cwd),
    decreases n,
{
    if n > 0 {
        lemma_closest(targets, cwd, (n - 1) as nat);
    }
}

/// The first place at or after `from` that holds a virtual checkout.
pub open spec fn first_checkout(entries: Seq<DesiredEntry>, from: int) -> Option<int>
    decreases entries.len() - from,
{
    if from >= entries.len() {
        None
    } else if entries[from].intent is VirtualCheckout {
        Some(from)
    } else {
        first_checkout(entries, from + 1)
    }
}

/// The directory whose history belongs to an overlay, by its own entries: the
/// source of its first virtual checkout.
pub fn checkout_scope(entries: &Vec<DesiredEntry>) -> (r: Result<String, String>)
    requires
        forall|i: int|
            0 <= i < entries@.len() && (#[trigger] entries@[i]).intent is VirtualCheckout
                ==> entries@[i].provenance is Overlay,
    ensures
        match (first_checkout(entries@, 0), r) {
            (Some(i), Ok(source)) => commit::overlay_source(entries@[i].provenance) == Some(source@),
            (None, Err(e)) => e@
                == "no `checkout` materialization rule applies to this overlay"@,
            _ => false,
        },
{
    let mut i: usize = 0;
    while i < entries.len()
        invariant
            i <= entries@.len(),
            forall|i: int|
                0 <= i < entries@.len() && (#[trigger] entries@[i]).intent is VirtualCheckout
                    ==> entries@[i].provenance is Overlay,
            first_checkout(entries@, 0) == first_checkout(entries@, i as int),
        decreases entries@.len() - i,
    {
        if let MaterializationIntent::VirtualCheckout = &entries[i].intent {
            assert(entries@[i as int].intent is VirtualCheckout);
            if let Provenance::Overlay { overlay, source } = &entries[i].provenance {
                return Ok(source.clone());
            }
        }
        i = i + 1;
    }
    Err("no `checkout` materialization rule applies to this overlay".to_owned())
}

/// The error for a named overlay without a virtual checkout.
pub fn not_checked_out(name: &str) -> (r: String)
    ensures
        r@ == "overlay '"@ + name@ + "' is not checkout-materialized"@,
{
    concat3("overlay '", name, "' is not checkout-materialized")
}

/// The history that is shown.
#[derive(Debug, PartialEq, Eq)]
pub enum Scope {
    /// That of the overlay at this place.
    Overlay(usize),
    /// That of the whole repository.
    Whole,
    /// None, for this reason.
    Refused(String),
}

/// Whether `scope` is the history to show: that of the overlay that is named, which
/// must be checked out, or else that of the closest overlay around `cwd` where it
/// is checked out, or else that of the whole repository.
pub open spec fn is_scope(
    scope: Scope,
    named: Option<usize>,
    names: Seq<String>,
    targets: Seq<Option<String>>,
    checked_out: Seq<bool>,
    cwd: Seq<char>,
) -> bool {
    match named {
        Some(i) => if checked_out[i as int] {
            scope == Scope::Overlay(i)
        } else {
            scope is Refused && scope->Refused_0@ == "overlay '"@ + names[i as int]@
                + "' is not checkout-materialized"@
        },
        None => match closest(targets, cwd, targets.len()) {
            Some(i) if checked_out[i] => scope is Overlay && scope->Overlay_0 == i,
            _ => scope is Whole,
        },
    }
}

/// Decides whose history is shown. `named` is the overlay that is asked for;
/// `checked_out` tells of each overlay whether its history can be found.
pub fn resolve_scope(
    named: Option<usize>,
    names: &Vec<String>,
    targets: &Vec<Option<String>>,
    checked_out: &Vec<bool>,
    cwd: &str,
) -> (r: Scope)
    requires
        names@.len() == checked_out@.len(),
        targets@.len() == checked_out@.len(),
        named matches Some(i) ==> i < checked_out@.len(),
    ensures
        is_scope(r, named, names@, targets@, checked_out@, cwd@),
{
    if let Some(i) = named {
        if checked_out[i] {
            return Scope::Overlay(i);
        }
        return Scope::Refused(not_checked_out(names[i].as_str()));
    }
    match guess_overlay(targets, cwd) {
        Some(i) => if checked_out[i] {
            Scope::Overlay(i)
        } else {
            Scope::Whole
        },
        None => Scope::Whole,
    }
}

/// A number is filled up with zeros in front to its width, and not cut where it is
/// longer; a minus sign takes one place of the width.
pub proof fn numbers_are_filled_with_zeros(s: Seq<char>, width: int, n: nat)
    ensures
        s.is_suffix_of(zeros_before(s, width)),
        zeros_before(s, width).len() == if s.len() >= width {
            s.len() as int
        } else {
            width
        },
        forall|k: int|
            0 <= k < zeros_before(s, width).len() - s.len() ==> #[trigger] zeros_before(
                s,
                width,
            )[k] == '0',
        zero_padded(n as int, width) == zeros_before(text::decimal(n), width),
        n > 0 ==> zero_padded(-n, width) == "-"@ + zero_padded(n as int, width - 1),
    decreases width - s.len(),
{
    if s.len() < width {
        let t = seq!['0'] + s;
        let r = zeros_before(s, width);
        numbers_are_filled_with_zeros(t, width, n);
        assert(r == zeros_before(t, width));
        assert(t.subrange(1, t.len() as int) =~= s);
        assert forall|k: int| 0 <= k < r.len() - s.len() implies #[trigger] r[k] == '0' by {
            if k == r.len() - t.len() {
                assert(r.subrange(r.len() - t.len(), r.len() as int)[0] == t[0]);
            }
        }
        assert forall|k: int| 0 <= k < s.len() implies s[k] == r[r.len() - s.len() + k] by {
            assert(r.subrange(r.len() - t.len(), r.len() as int)[k + 1] == t[k + 1]);
        }
        assert(r.subrange(r.len() - s.len(), r.len() as int) =~= s);
    } else {
        assert(s.subrange(0, s.len() as int) =~= s);
    }
}

/// A time is written as year, month and day, then hour and minute.
pub proof fn times_are_written_in_order(date: Date, hour: int, minute: int)
    requires
        0 <= minute < 60,
    ensures
        time_text(date, 60 * hour + minute) == zero_padded(date.year, 4) + "-"@ + zero_padded(
            date.month,
            2,
        ) + "-"@ + zero_padded(date.day, 2) + " "@ + zero_padded(hour, 2) + ":"@ + zero_padded(
            minute,
            2,
        ),
{
    assert((60 * hour + minute) / 60 == hour && (60 * hour + minute) % 60 == minute);
}

/// Every fourth year is a leap year, but every hundredth is not, but every four
/// hundredth is; four hundred years have the same number of days always.
pub proof fn calendars_repeat(y: int)
    ensures
        days_before_year(y + 400) == days_before_year(y) + 146097,
        is_leap(400 * y),
        !is_leap(400 * y + 100) && !is_leap(400 * y + 200) && !is_leap(400 * y + 300),
        y % 100 != 0 ==> (is_leap(y) <==> y % 4 == 0),
        days_before_year(y + 1) - days_before_year(y) == days_before_month(y, 13),
{
    lemma_year(y);
    lemma_months(y);
    reveal_with_fuel(days_before_month, 2);
    assert((y + 399) / 4 == (y - 1) / 4 + 100);
    assert((y + 399) / 100 == (y - 1) / 100 + 4);
    assert((y + 399) / 400 == (y - 1) / 400 + 1);
}

/// The commits that belong are those marked so, in the order of the history.
pub proof fn marked_commits_belong(commits: Seq<(LogEntry, bool)>)
    ensures
        belonging(commits, commits.len()) == commits.filter(
            |c: (LogEntry, bool)| c.1,
        ).map_values(|c: (LogEntry, bool)| c.0),
{
    lemma_belonging(commits, commits.len());
    assert(commits.take(commits.len() as int) =~= commits);
}

proof fn lemma_belonging(commits: Seq<(LogEntry, bool)>, n: nat)
    requires
        n <= commits.len(),
    ensures
        belonging(commits, n) == commits.take(n as int).filter(
            |c: (LogEntry, bool)| c.1,
        ).map_values(|c: (LogEntry, bool)| c.0),
    decreases n,
{
    reveal(Seq::filter);
    if n > 0 {
        lemma_belonging(commits, (n - 1) as nat);
        assert(commits.take(n as int).drop_last() =~= commits.take(n - 1));
        assert(commits.take(n as int).last() == commits[n - 1]);
    }
    assert(belonging(commits, n) =~= commits.take(n as int).filter(
        |c: (LogEntry, bool)| c.1,
    ).map_values(|c: (LogEntry, bool)| c.0));
}

/// A list of the whole repository wants every commit, and one of a part of it those
/// that touch the part; what it wants it takes while there is room.
pub proof fn lists_take_what_they_want(list: LogList, entry: LogEntry, touches: bool)
    ensures
        list.managed_path@ == Seq::<char>::empty() ==> list.wants(touches),
        list.managed_path@.len() > 0 ==> list.wants(touches) == touches,
        list.wants(touches) && list.entries@.len() < list.limit ==> extended(
            list.entries@,
            list.limit as int,
            entry,
            list.wants(touches),
        ) == list.entries@.push(entry),
        !list.wants(touches) || list.entries@.len() >= list.limit ==> extended(
            list.entries@,
            list.limit as int,
            entry,
            list.wants(touches),
        ) == list.entries@,
{
}

/// The overlay that is guessed is one whose target holds the directory, and of those
/// the deepest, and of equally deep ones the first; none is guessed where none does.
pub proof fn the_guess_holds_the_directory(targets: Seq<Option<String>>, cwd: Seq<char>, other: int)
    requires
        0 <= other < targets.len(),
        targets[other] is Some,
        path::components(targets[other]->0@).is_prefix_of(path::components(cwd)),
    ensures
        ({
            let c = closest(targets, cwd, targets.len());
            &&& c is Some && 0 <= c->0 < targets.len()
            &&& targets[c->0] is Some
            &&& path::components(targets[c->0]->0@).is_prefix_of(path::components(cwd))
            &&& path::components(targets[other]->0@).len() <= path::components(
                targets[c->0]->0@,
            ).len()
            &&& path::components(targets[other]->0@).len() == path::components(
                targets[c->0]->0@,
            ).len() ==> c->0 <= other
        }),
{
    guessed_overlay_is_closest(targets, cwd, targets.len(), other);
}

/// No overlay is guessed where no target holds the directory.
pub proof fn nothing_is_guessed_elsewhere(targets: Seq<Option<String>>, cwd: Seq<char>)
    requires
        forall|i: int|
            0 <= i < targets.len() && (#[trigger] targets[i]) is Some ==> !path::components(
                targets[i]->0@,
            ).is_prefix_of(path::components(cwd)),
    ensures
        closest(targets, cwd, targets.len()) is None,
{
    lemma_closest(targets, cwd, targets.len());
}

/// The history of an overlay is that of its first checkout, where it has one.
pub proof fn the_first_checkout_is_logged(entries: Seq<DesiredEntry>, from: int, k: int)
    requires
        0 <= from <= k <= entries.len(),
        k < entries.len() ==> entries[k].intent is VirtualCheckout,
        forall|i: int| from <= i < k ==> !((#[trigger] entries[i]).intent is VirtualCheckout),
    ensures
        first_checkout(entries, from) == if k < entries.len() {
            Some(k)
        } else {
            None
        },
    decreases k - from,
{
    if from < k {
        the_first_checkout_is_logged(entries, from + 1, k);
    }
}

/// A named overlay is shown where it is checked out and refused where it is not;
/// without a name the guessed one is, and the whole repository where none is guessed
/// or it is not checked out.
pub proof fn names_decide_the_scope(
    scope: Scope,
    named: Option<usize>,
    names: Seq<String>,
    targets: Seq<Option<String>>,
    checked_out: Seq<bool>,
    cwd: Seq<char>,
    guess: int,
)
    requires
        is_scope(scope, named, names, targets, checked_out, cwd),
        targets.len() == checked_out.len(),
    ensures
        named is Some && checked_out[named->0 as int] ==> scope == Scope::Overlay(named->0),
        named is Some && !checked_out[named->0 as int] ==> scope is Refused && scope->Refused_0@
            == "overlay '"@ + names[named->0 as int]@ + "' is not checkout-materialized"@,
        named is None ==> !(scope is Refused),
        named is None && closest(targets, cwd, targets.len()) == Some(guess) ==> (
        scope is Overlay <==> checked_out[guess]),
        named is None && scope is Overlay ==> closest(targets, cwd, targets.len()) == Some(
            scope->Overlay_0 as int,
        ),
{
}

} // verus!
