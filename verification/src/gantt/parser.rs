//! Gantt chart parser.
use vstd::prelude::*;

use super::renderer::{
    date_text, day_number, day_number_exec, days_before_month, lemma_date_round_trip,
    lemma_days_before_month_mono, lemma_days_before_year_mono, lemma_days_before_year_step,
    lemma_first_renderable_day, lemma_last_renderable_day, lemma_months_make_year, month_len,
    year_len, FIRST_RENDERABLE_DAY, LAST_RENDERABLE_DAY,
};
use super::database::{ends_fit, is_range_of, GanttDatabase, GanttSection, GanttTask, TaskStatus};
use crate::diagram::DiagramError;
use crate::text::{
    alphanumeric, all_digits, chars_of, is_ws, fmt_zero_pad, is_digit, lead_ws, lemma_split_append,
    lemma_split_single, lemma_zero_pad_parses, lemma_zero_pad_reads_back, trail_ws, contains, contains_exec, ends_with_char, eq_chars, find_char,
    first_index_of, is_alphanumeric, lower, parse_i32, parse_i32_exec, parse_i64, parse_i64_exec,
    parse_u32, parse_u32_exec, split, split_char, starts_with, starts_with_exec, string_of, subvec,
    to_lower, trim, trim_chars, views,
};

verus! {

/// Simple date: year, month, day.
#[derive(Debug, Clone, Copy)]
pub struct Date {
    pub year: i32,
    pub month: u32,
    pub day: u32,
}

// ───────────────────────────── the model ─────────────────────────────

/// `YYYY-MM-DD`: three `-`-separated numbers after trimming, with month 1 to
/// 12 and day 1 to 31.
pub open spec fn ymd(s: Seq<char>) -> Option<Date> {
    let parts = split(trim(s), '-');
    if parts.len() != 3 {
        None
    } else {
        match (parse_i32(parts[0]), parse_u32(parts[1]), parse_u32(parts[2])) {
            (Some(y), Some(m), Some(d)) => if 1 <= m <= 12 && 1 <= d <= 31 {
                Some(Date { year: y as i32, month: m as u32, day: d as u32 })
            } else {
                None
            },
            _ => None,
        }
    }
}

/// Calendar days from `r` to `d`.
pub open spec fn days_between(d: Date, r: Date) -> int {
    day_number(d.year as int, d.month as int, d.day as int) - day_number(r.year as int, r.month as int, r.day as int)
}

/// The day offsets of the chart count from 2020-01-01.
pub open spec fn ref_date() -> Date {
    Date { year: 2020, month: 1, day: 1 }
}

/// A duration like `30d`, `2w`, `1M` or `7`, in days (before any range check
/// of the multiplication).
pub open spec fn dur_value(s: Seq<char>) -> Option<int> {
    let t = trim(s);
    if ends_with_char(t, 'd') || ends_with_char(t, 'D') {
        parse_i64(t.drop_last())
    } else if ends_with_char(t, 'w') || ends_with_char(t, 'W') {
        match parse_i64(t.drop_last()) {
            Some(v) => Some(v * 7),
            None => None,
        }
    } else if ends_with_char(t, 'M') {
        match parse_i64(t.drop_last()) {
            Some(v) => Some(v * 30),
            None => None,
        }
    } else {
        parse_i64(t)
    }
}

pub open spec fn in_i64(v: int) -> bool {
    i64::MIN <= v <= i64::MAX
}

/// The status named by `s`, whatever its case; `Normal` for anything else.
pub open spec fn status_of(s: Seq<char>) -> TaskStatus {
    let w = lower(trim(s));
    if w == "done"@ {
        TaskStatus::Done
    } else if w == "active"@ {
        TaskStatus::Active
    } else if w == "crit"@ {
        TaskStatus::Crit
    } else if w == "milestone"@ {
        TaskStatus::Milestone
    } else {
        TaskStatus::Normal
    }
}

pub open spec fn is_status_word(w: Seq<char>) -> bool {
    w == "done"@ || w == "active"@ || w == "crit"@ || w == "milestone"@
}

/// A task id: no `-`, not `after ...`, only alphanumerics and `_`.
pub open spec fn is_id_like(p: Seq<char>) -> bool {
    &&& !contains(p, "-"@)
    &&& !starts_with(p, "after "@)
    &&& forall|i: int| 0 <= i < p.len() ==> alphanumeric(#[trigger] p[i]) || p[i] == '_'
}

/// End day of the first task named `id`, or 0 when there is none.
pub open spec fn end_of(after: Seq<(Seq<char>, int)>, id: Seq<char>) -> int
    decreases after.len(),
{
    if after.len() == 0 {
        0
    } else if after[0].0 == id {
        after[0].1
    } else {
        end_of(after.drop_first(), id)
    }
}

/// `after <id>` starts at the end of the first task named `id`, and at day
/// 0 when no task has that name.
pub proof fn lemma_end_of_first(after: Seq<(Seq<char>, int)>, id: Seq<char>, i: int)
    requires
        0 <= i <= after.len(),
        forall|j: int| 0 <= j < i ==> (#[trigger] after[j]).0 != id,
        i == after.len() || after[i].0 == id,
    ensures
        end_of(after, id) == if i < after.len() {
            after[i].1
        } else {
            0
        },
    decreases i,
{
    if i > 0 {
        assert(after[0].0 != id);
        let rest = after.drop_first();
        assert forall|j: int| 0 <= j < i - 1 implies (#[trigger] rest[j]).0 != id by {
            assert(rest[j] == after[j + 1]);
        }
        if i < after.len() {
            assert(rest[i - 1] == after[i]);
        }
        lemma_end_of_first(rest, id, i - 1);
    }
}

/// A task as the parser reads it.
pub struct Draft {
    pub label: Seq<char>,
    pub id: Seq<char>,
    pub status: TaskStatus,
    pub start: int,
    pub duration: int,
}

/// What the third field of a task line gives.
pub enum StartRead {
    Start(int),
    Duration(int),
    Neither,
}

/// The start field: `after <id>`, a date, or else a duration.
pub open spec fn read_start(p: Seq<char>, after: Seq<(Seq<char>, int)>) -> StartRead {
    if starts_with(lower(p), "after "@) {
        StartRead::Start(end_of(after, trim(p.subrange(6, p.len() as int))))
    } else if ymd(p) is Some {
        StartRead::Start(days_between(ymd(p).unwrap(), ref_date()))
    } else if dur_value(p) is Some {
        StartRead::Duration(dur_value(p).unwrap())
    } else {
        StartRead::Neither
    }
}

/// The fields of a task line after its colon, trimmed.
pub open spec fn task_fields(line: Seq<char>, colon: int) -> Seq<Seq<char>> {
    split(trim(line.subrange(colon + 1, line.len() as int)), ',').map_values(
        |p: Seq<char>| trim(p),
    )
}

/// Index of the first `:` of the line.
pub open spec fn colon_of(line: Seq<char>) -> Option<int> {
    if exists|i: int| first_index_of(line, ':', i) {
        Some(choose|i: int| first_index_of(line, ':', i))
    } else {
        None
    }
}

/// Position of the id field and the status.
pub open spec fn status_field(parts: Seq<Seq<char>>) -> (TaskStatus, int) {
    if is_status_word(lower(parts[0])) {
        (status_of(parts[0]), 1)
    } else {
        (TaskStatus::Normal, 0)
    }
}

/// The id and the position of the start field.
pub open spec fn id_field(parts: Seq<Seq<char>>, p1: int) -> (Seq<char>, int) {
    if p1 < parts.len() && is_id_like(parts[p1]) {
        (parts[p1], p1 + 1)
    } else {
        (Seq::empty(), p1)
    }
}

/// The start (if read) and duration (if read) from the start field on, and
/// whether every number on the way fits in an `i64`.
pub open spec fn start_and_duration(
    parts: Seq<Seq<char>>,
    p2: int,
    after: Seq<(Seq<char>, int)>,
) -> (Option<int>, Option<int>, bool) {
    let sr = if p2 < parts.len() {
        read_start(parts[p2], after)
    } else {
        StartRead::Neither
    };
    let (start, dur0, ok0, p3) = match sr {
        StartRead::Start(v) => (Some(v), None::<int>, true, p2 + 1),
        StartRead::Duration(v) => (None::<int>, Some(v), in_i64(v), p2),
        StartRead::Neither => (None::<int>, None::<int>, true, p2),
    };
    if dur0 is None && p3 < parts.len() {
        let p = parts[p3];
        if ymd(p) is Some {
            let v = days_between(ymd(p).unwrap(), ref_date()) - match start {
                Some(s) => s,
                None => 0,
            };
            (start, Some(v), ok0 && in_i64(v))
        } else if dur_value(p) is Some {
            (start, dur_value(p), ok0 && in_i64(dur_value(p).unwrap()))
        } else {
            (start, None, ok0)
        }
    } else {
        (start, dur0, ok0)
    }
}

/// When the start field is a date or `after <id>` and the next field is a
/// duration, the task lasts that duration; when the start field is itself a
/// duration, the task starts at day 0 and lasts that duration.
pub proof fn lemma_duration_field(parts: Seq<Seq<char>>, p2: int, after: Seq<(Seq<char>, int)>)
    requires
        0 <= p2 < parts.len(),
    ensures
        (ymd(parts[p2]) is Some || starts_with(lower(parts[p2]), "after "@)) && p2 + 1 < parts.len()
            && ymd(parts[p2 + 1]) is None && dur_value(parts[p2 + 1]) is Some ==> start_and_duration(
            parts,
            p2,
            after,
        ).1 == dur_value(parts[p2 + 1]),
        !starts_with(lower(parts[p2]), "after "@) && ymd(parts[p2]) is None && dur_value(parts[p2]) is Some
            ==> start_and_duration(parts, p2, after).0 is None && start_and_duration(parts, p2, after).1
            == dur_value(parts[p2]),
{
}

/// A number of days, weeks (`w`) or months (`M`) reads as that many days,
/// seven times as many, or thirty times as many; a bare number is days.
pub proof fn lemma_duration_units(n: Seq<char>)
    requires
        parse_i64(n) is Some,
    ensures
        dur_value(n) == parse_i64(n),
        dur_value(n.push('d')) == parse_i64(n),
        dur_value(n.push('D')) == parse_i64(n),
        dur_value(n.push('w')) == Some(parse_i64(n).unwrap() * 7),
        dur_value(n.push('W')) == Some(parse_i64(n).unwrap() * 7),
        dur_value(n.push('M')) == Some(parse_i64(n).unwrap() * 30),
{
    let body = if n[0] == '+' || n[0] == '-' { n.drop_first() } else { n };
    assert(all_digits(body) && body.len() > 0);
    assert(is_digit(body[body.len() - 1]));
    assert(n.last() == body.last());
    assert(!is_ws(n[0])) by {
        if !(n[0] == '+' || n[0] == '-') {
            assert(is_digit(body[0]));
        }
    }
    assert(lead_ws(n) == 0);
    assert(trail_ws(n) == 0);
    assert(trim(n) =~= n);
    assert forall|c: char| c == 'd' || c == 'D' || c == 'w' || c == 'W' || c == 'M' implies trim(
        #[trigger] n.push(c),
    ) == n.push(c) && n.push(c).drop_last() == n by {
        let m = n.push(c);
        assert(m[0] == n[0]);
        assert(lead_ws(m) == 0);
        assert(trail_ws(m) == 0);
        assert(trim(m) =~= m);
        assert(m.drop_last() =~= n);
    }
    assert(trim(n.push('d')) == n.push('d'));
    assert(trim(n.push('D')) == n.push('D'));
    assert(trim(n.push('w')) == n.push('w'));
    assert(trim(n.push('W')) == n.push('W'));
    assert(trim(n.push('M')) == n.push('M'));
}

/// When the start field is a date S or `after <id>` and the next field is
/// a date E, the task starts on S (on the end of that task) and lasts until
/// E: its start plus its duration is E's day count.
pub proof fn lemma_end_date_duration(parts: Seq<Seq<char>>, p2: int, after: Seq<(Seq<char>, int)>)
    requires
        0 <= p2,
        p2 + 1 < parts.len(),
        ymd(parts[p2]) is Some || starts_with(lower(parts[p2]), "after "@),
        ymd(parts[p2 + 1]) is Some,
    ensures
        ({
            let (start, dur, _) = start_and_duration(parts, p2, after);
            let e = days_between(ymd(parts[p2 + 1]).unwrap(), ref_date());
            &&& start is Some
            &&& dur == Some(e - start.unwrap())
            &&& !starts_with(lower(parts[p2]), "after "@) ==> start == Some(
                days_between(ymd(parts[p2]).unwrap(), ref_date()),
            )
        }),
{
}

/// A task line `label :status, id, start, duration`, where status and id
/// are optional, start is `after <id>` or a date, and duration is a
/// duration or an end date; `None` without a colon. The boolean tells
/// whether every number on the way fits in an `i64`.
pub open spec fn task_line(line: Seq<char>, after: Seq<(Seq<char>, int)>) -> Option<(Draft, bool)> {
    match colon_of(line) {
        None => None,
        Some(c) => {
            let parts = task_fields(line, c);
            let (status, p1) = status_field(parts);
            let (id, p2) = id_field(parts, p1);
            let (start, dur, ok) = start_and_duration(parts, p2, after);
            let d = match dur {
                Some(v) => v,
                None => 7,
            };
            Some(
                (
                    Draft {
                        label: trim(line.subrange(0, c)),
                        id,
                        status,
                        start: match start {
                            Some(s) => s,
                            None => 0,
                        },
                        duration: if d >= 1 {
                            d
                        } else {
                            1
                        },
                    },
                    ok,
                ),
            )
        },
    }
}

// ───────────────────────────── fields ─────────────────────────────

pub open spec fn after_view(after: Seq<(Vec<char>, i64)>) -> Seq<(Seq<char>, int)> {
    after.map_values(|p: (Vec<char>, i64)| (p.0@, p.1 as int))
}

pub open spec fn draft_of(t: GanttTask) -> Draft {
    Draft {
        label: t.label@,
        id: t.id@,
        status: t.status,
        start: t.start_day as int,
        duration: t.duration_days as int,
    }
}

proof fn lemma_end_of_skip(s: Seq<(Seq<char>, int)>, id: Seq<char>, i: int)
    requires
        0 <= i <= s.len(),
        forall|k: int| 0 <= k < i ==> s[k].0 != id,
    ensures
        end_of(s, id) == end_of(s.subrange(i, s.len() as int), id),
    decreases i,
{
    if i > 0 {
        assert(s.drop_first().subrange(i - 1, s.drop_first().len() as int) =~= s.subrange(
            i,
            s.len() as int,
        ));
        lemma_end_of_skip(s.drop_first(), id, i - 1);
    } else {
        assert(s.subrange(0, s.len() as int) =~= s);
    }
}

/// End day of the first task named `id`, or 0.
fn end_of_exec(after: &Vec<(Vec<char>, i64)>, id: &Vec<char>) -> (r: i64)
    ensures
        r as int == end_of(after_view(after@), id@),
{
    let ghost av = after_view(after@);
    let mut i: usize = 0;
    while i < after.len()
        invariant
            av == after_view(after@),
            i <= after.len(),
            forall|k: int| 0 <= k < i ==> av[k].0 != id@,
        decreases after.len() - i,
    {
        if eq_chars(&after[i].0, id) {
            proof {
                lemma_end_of_skip(av, id@, i as int);
                assert(av.subrange(i as int, av.len() as int)[0] == av[i as int]);
            }
            return after[i].1;
        }
        i = i + 1;
    }
    proof {
        lemma_end_of_skip(av, id@, i as int);
    }
    0
}

fn date_of_chars(s: &Vec<char>) -> (r: Option<Date>)
    ensures
        r == ymd(s@),
{
    let t = trim_chars(s);
    let parts = split_char(&t, '-');
    assert(parts@.len() == views(parts@).len());
    if parts.len() != 3 {
        return None;
    }
    assert(views(parts@)[0] == parts@[0]@);
    assert(views(parts@)[1] == parts@[1]@);
    assert(views(parts@)[2] == parts@[2]@);
    let y = match parse_i32_exec(&parts[0]) {
        Some(y) => y,
        None => return None,
    };
    let m = match parse_u32_exec(&parts[1]) {
        Some(m) => m,
        None => return None,
    };
    let d = match parse_u32_exec(&parts[2]) {
        Some(d) => d,
        None => return None,
    };
    if m < 1 || m > 12 || d < 1 || d > 31 {
        return None;
    }
    Some(Date { year: y, month: m, day: d })
}

/// A calendar date's day count from the reference date is one that
/// `day_to_str` can write, and writing it gives the date back.
pub proof fn lemma_days_since_round_trip(d: Date)
    requires
        1 <= d.month <= 12,
        1 <= d.day <= month_len(d.year as int, d.month as int),
    ensures
        FIRST_RENDERABLE_DAY <= days_between(d, ref_date()) <= LAST_RENDERABLE_DAY,
        date_text(days_between(d, ref_date())) == fmt_zero_pad(d.year as int, 4) + seq!['-'] + fmt_zero_pad(
            d.month as int,
            2,
        ) + seq!['-'] + fmt_zero_pad(d.day as int, 2),
{
    let y = d.year as int;
    let k = days_before_month(y, d.month as int) + d.day - 1;
    assert(day_number(2020, 1, 1) == 0);
    lemma_date_round_trip(y, d.month as int, d.day as int);
    lemma_first_renderable_day();
    lemma_last_renderable_day();
    lemma_days_before_year_mono(i32::MIN as int, y);
    lemma_days_before_year_mono(y + 1, i32::MAX as int + 1);
    lemma_days_before_year_step(y);
    lemma_days_before_month_mono(y, 1, d.month as int);
    lemma_days_before_month_mono(y, d.month as int + 1, 13);
    lemma_months_make_year(y);
    assert(0 <= k < year_len(y));
}

/// `YYYY-MM-DD` with the year zero-padded to four digits and the month and
/// day to two, as `day_to_str` writes a date.
pub open spec fn ymd_text(y: int, m: int, d: int) -> Seq<char> {
    fmt_zero_pad(y, 4) + seq!['-'] + fmt_zero_pad(m, 2) + seq!['-'] + fmt_zero_pad(d, 2)
}

/// A calendar date written as `day_to_str` writes it, from year 0 on, reads
/// back as that date, and writing its day count from the reference date
/// gives the same text.
pub proof fn lemma_date_string_round_trip(y: int, m: int, d: int)
    requires
        0 <= y <= i32::MAX,
        1 <= m <= 12,
        1 <= d <= month_len(y, m),
    ensures
        ymd(ymd_text(y, m, d)) == Some(Date { year: y as i32, month: m as u32, day: d as u32 }),
        FIRST_RENDERABLE_DAY <= days_between(ymd(ymd_text(y, m, d)).unwrap(), ref_date())
            <= LAST_RENDERABLE_DAY,
        date_text(days_between(ymd(ymd_text(y, m, d)).unwrap(), ref_date())) == ymd_text(y, m, d),
{
    let a = fmt_zero_pad(y, 4);
    let b = fmt_zero_pad(m, 2);
    let c = fmt_zero_pad(d, 2);
    let s = ymd_text(y, m, d);
    lemma_zero_pad_reads_back(y as nat, 4);
    lemma_zero_pad_reads_back(m as nat, 2);
    lemma_zero_pad_reads_back(d as nat, 2);
    lemma_zero_pad_parses(y as nat, 4);
    lemma_zero_pad_parses(m as nat, 2);
    lemma_zero_pad_parses(d as nat, 2);
    assert(s[0] == a[0]);
    assert(s.last() == c.last());
    assert(is_digit(a[0]) && is_digit(c.last()));
    assert(lead_ws(s) == 0);
    assert(trail_ws(s) == 0);
    assert(trim(s) =~= s);
    assert forall|i: int| 0 <= i < a.len() implies #[trigger] a[i] != '-' by {
        assert(is_digit(a[i]));
    }
    assert forall|i: int| 0 <= i < b.len() implies #[trigger] b[i] != '-' by {
        assert(is_digit(b[i]));
    }
    assert forall|i: int| 0 <= i < c.len() implies #[trigger] c[i] != '-' by {
        assert(is_digit(c[i]));
    }
    lemma_split_single(a, '-');
    lemma_split_append(a, b, '-');
    lemma_split_append(a + seq!['-'] + b, c, '-');
    assert(split(s, '-') =~= seq![a, b, c]);
    let date = Date { year: y as i32, month: m as u32, day: d as u32 };
    assert(ymd(s) == Some(date));
    lemma_days_since_round_trip(date);
}

impl Date {
    /// Parses `YYYY-MM-DD` (surrounding whitespace allowed); month 1 to 12,
    /// day 1 to 31.
    pub fn parse_ymd(s: &str) -> (r: Option<Date>)
        ensures
            r == ymd(s@),
    {
        date_of_chars(&chars_of(s))
    }

    /// Calendar days from `ref_date` to `self`.
    pub fn days_since(&self, ref_date: Date) -> (r: i64)
        ensures
            r as int == days_between(*self, ref_date),
    {
        day_number_exec(self.year, self.month, self.day) - day_number_exec(ref_date.year, ref_date.month, ref_date.day)
    }
}

/// The date day offsets count from.
pub fn ref_date_exec() -> (r: Date)
    ensures
        r == ref_date(),
{
    Date { year: 2020, month: 1, day: 1 }
}

/// A duration in days; `Err` when the multiplication leaves the `i64` range.
fn duration_of_chars(s: &Vec<char>) -> (r: Result<Option<i64>, DiagramError>)
    ensures
        match r {
            Ok(Some(v)) => dur_value(s@) == Some(v as int),
            Ok(None) => dur_value(s@) is None,
            Err(e) => e == DiagramError::Overflow && dur_value(s@) is Some && !in_i64(
                dur_value(s@).unwrap(),
            ),
        },
{
    let t = trim_chars(s);
    let n = t.len();
    if n > 0 && (t[n - 1] == 'd' || t[n - 1] == 'D') {
        let body = subvec(&t, 0, n - 1);
        assert(body@ =~= t@.drop_last());
        Ok(parse_i64_exec(&body))
    } else if n > 0 && (t[n - 1] == 'w' || t[n - 1] == 'W') {
        let body = subvec(&t, 0, n - 1);
        assert(body@ =~= t@.drop_last());
        match parse_i64_exec(&body) {
            Some(v) => {
                if v > i64::MAX / 7 || v < i64::MIN / 7 {
                    Err(DiagramError::Overflow)
                } else {
                    Ok(Some(v * 7))
                }
            },
            None => Ok(None),
        }
    } else if n > 0 && t[n - 1] == 'M' {
        let body = subvec(&t, 0, n - 1);
        assert(body@ =~= t@.drop_last());
        match parse_i64_exec(&body) {
            Some(v) => {
                if v > i64::MAX / 30 || v < i64::MIN / 30 {
                    Err(DiagramError::Overflow)
                } else {
                    Ok(Some(v * 30))
                }
            },
            None => Ok(None),
        }
    } else {
        Ok(parse_i64_exec(&t))
    }
}

/// Parses a duration like `30d`, `2w` (weeks), `1M` (30-day months) or a
/// plain number of days.
pub fn parse_duration(s: &str) -> (r: Option<i64>)
    requires
        dur_value(s@) matches Some(v) ==> in_i64(v),
    ensures
        match r {
            Some(v) => dur_value(s@) == Some(v as int),
            None => dur_value(s@) is None,
        },
{
    match duration_of_chars(&chars_of(s)) {
        Ok(r) => r,
        Err(_) => None,
    }
}

fn status_of_chars(s: &Vec<char>) -> (r: TaskStatus)
    ensures
        r == status_of(s@),
{
    let w = to_lower(&trim_chars(s));
    if eq_chars(&w, &chars_of("done")) {
        TaskStatus::Done
    } else if eq_chars(&w, &chars_of("active")) {
        TaskStatus::Active
    } else if eq_chars(&w, &chars_of("crit")) {
        TaskStatus::Crit
    } else if eq_chars(&w, &chars_of("milestone")) {
        TaskStatus::Milestone
    } else {
        TaskStatus::Normal
    }
}

/// The status named by `s` (case-insensitive); `Normal` for anything else.
pub fn parse_status(s: &str) -> (r: TaskStatus)
    ensures
        r == status_of(s@),
{
    status_of_chars(&chars_of(s))
}

fn is_status_word_exec(w: &Vec<char>) -> (r: bool)
    ensures
        r == is_status_word(w@),
{
    eq_chars(w, &chars_of("done")) || eq_chars(w, &chars_of("active")) || eq_chars(
        w,
        &chars_of("crit"),
    ) || eq_chars(w, &chars_of("milestone"))
}

fn is_id_like_exec(p: &Vec<char>) -> (r: bool)
    ensures
        r == is_id_like(p@),
{
    if contains_exec(p, &chars_of("-")) || starts_with_exec(p, &chars_of("after ")) {
        return false;
    }
    let mut i: usize = 0;
    while i < p.len()
        invariant
            i <= p.len(),
            forall|k: int| 0 <= k < i ==> alphanumeric(#[trigger] p@[k]) || p@[k] == '_',
        decreases p.len() - i,
    {
        if !(is_alphanumeric(p[i]) || p[i] == '_') {
            return false;
        }
        i = i + 1;
    }
    true
}

/// What the third field gives, as `read_start` describes it.
fn read_start_exec(p: &Vec<char>, after: &Vec<(Vec<char>, i64)>) -> (r: Result<(Option<i64>, Option<i64>), DiagramError>)
    ensures
        match read_start(p@, after_view(after@)) {
            StartRead::Start(v) => r == Ok::<(Option<i64>, Option<i64>), DiagramError>((Some(v as i64), None)) && in_i64(v),
            StartRead::Duration(v) => if in_i64(v) {
                r == Ok::<(Option<i64>, Option<i64>), DiagramError>((None, Some(v as i64)))
            } else {
                r == Err::<(Option<i64>, Option<i64>), DiagramError>(DiagramError::Overflow)
            },
            StartRead::Neither => r == Ok::<(Option<i64>, Option<i64>), DiagramError>((None, None)),
        },
{
    let low = to_lower(p);
    if starts_with_exec(&low, &chars_of("after ")) {
        proof {
            reveal_strlit("after ");
        }
        assert(p@.len() >= 6);
        let id = trim_chars(&subvec(p, 6, p.len()));
        let e = end_of_exec(after, &id);
        return Ok((Some(e), None));
    }
    match date_of_chars(p) {
        Some(d) => {
            let v = d.days_since(ref_date_exec());
            return Ok((Some(v), None));
        },
        None => {},
    }
    match duration_of_chars(p) {
        Ok(Some(v)) => Ok((None, Some(v))),
        Ok(None) => Ok((None, None)),
        Err(e) => Err(e),
    }
}

/// Reads the start and duration fields from position `p2` on.
fn start_and_duration_exec(
    parts: &Vec<Vec<char>>,
    p2: usize,
    after: &Vec<(Vec<char>, i64)>,
) -> (r: Result<(i64, Option<i64>), DiagramError>)
    requires
        p2 <= parts.len(),
    ensures
        ({
            let (start, dur, ok) = start_and_duration(views(parts@), p2 as int, after_view(after@));
            match r {
                Ok((s, d)) => ok && s as int == (match start {
                    Some(x) => x,
                    None => 0,
                }) && match d {
                    Some(x) => dur == Some(x as int),
                    None => dur is None,
                },
                Err(e) => !ok && e == DiagramError::Overflow,
            }
        }),
{
    let ghost pv = views(parts@);
    assert(pv.len() == parts@.len());
    let (start, dur0, p3) = if p2 < parts.len() {
        assert(pv[p2 as int] == parts@[p2 as int]@);
        match read_start_exec(&parts[p2], after) {
            Ok((Some(s), None)) => (Some(s), None, p2 + 1),
            Ok((None, d)) => (None, d, p2),
            Ok((Some(s), Some(d))) => (Some(s), Some(d), p2 + 1),
            Err(e) => return Err(e),
        }
    } else {
        (None, None, p2)
    };
    let s0: i64 = match start {
        Some(s) => s,
        None => 0,
    };
    if dur0.is_none() && p3 < parts.len() {
        assert(pv[p3 as int] == parts@[p3 as int]@);
        let p = &parts[p3];
        match date_of_chars(p) {
            Some(e) => {
                let end = e.days_since(ref_date_exec());
                let v: i128 = end as i128 - s0 as i128;
                if v < i64::MIN as i128 || v > i64::MAX as i128 {
                    return Err(DiagramError::Overflow);
                }
                return Ok((s0, Some(v as i64)));
            },
            None => {},
        }
        match duration_of_chars(p) {
            Ok(d) => Ok((s0, d)),
            Err(e) => Err(e),
        }
    } else {
        Ok((s0, dur0))
    }
}

proof fn lemma_first_colon_unique(line: Seq<char>, c: int)
    requires
        first_index_of(line, ':', c),
    ensures
        colon_of(line) == Some(c),
{
    let k = choose|i: int| first_index_of(line, ':', i);
    assert(first_index_of(line, ':', k));
    if k < c {
        assert(line[k] != ':');
    } else if c < k {
        assert(line[c] != ':');
    }
}

/// Parses a task line like `Task name :done, id1, 2024-01-15, 30d`;
/// `Ok(None)` for a line without a colon, `Err` when a number overflows.
fn parse_task(line: &Vec<char>, after_map: &Vec<(Vec<char>, i64)>) -> (r: Result<Option<GanttTask>, DiagramError>)
    ensures
        match task_line(line@, after_view(after_map@)) {
            None => r is Ok && r->Ok_0 is None,
            Some((d, ok)) => if ok {
                r is Ok && r->Ok_0 is Some && draft_of(r->Ok_0->Some_0) == d
            } else {
                r == Err::<Option<GanttTask>, DiagramError>(DiagramError::Overflow)
            },
        },
{
    let c = match find_char(line, ':') {
        Some(c) => c,
        None => {
            assert(!exists|i: int| first_index_of(line@, ':', i));
            return Ok(None);
        },
    };
    proof {
        lemma_first_colon_unique(line@, c as int);
    }
    let label = trim_chars(&subvec(line, 0, c));
    let rest = trim_chars(&subvec(line, c + 1, line.len()));
    let raw = split_char(&rest, ',');
    proof {
        crate::text::lemma_split_len(rest@, ',');
    }
    let mut parts: Vec<Vec<char>> = Vec::new();
    let mut i: usize = 0;
    while i < raw.len()
        invariant
            i <= raw.len(),
            parts@.len() == i,
            forall|k: int| 0 <= k < i ==> (#[trigger] parts@[k])@ == trim(raw@[k]@),
        decreases raw.len() - i,
    {
        let tp = trim_chars(&raw[i]);
        parts.push(tp);
        i = i + 1;
    }
    proof {
        assert forall|k: int| 0 <= k < raw@.len() implies views(raw@)[k] == raw@[k]@ by {}
        assert(views(parts@) =~= task_fields(line@, c as int));
    }
    let ghost pv = views(parts@);
    assert(pv == task_fields(line@, c as int));
    assert(pv.len() == parts@.len());
    assert(parts.len() >= 1);
    assert(pv[0] == parts@[0]@);
    let low0 = to_lower(&parts[0]);
    let (status, p1): (TaskStatus, usize) = if is_status_word_exec(&low0) {
        (status_of_chars(&parts[0]), 1)
    } else {
        (TaskStatus::Normal, 0)
    };
    let (id, p2): (Vec<char>, usize) = if p1 < parts.len() && {
        assert(pv[p1 as int] == parts@[p1 as int]@);
        is_id_like_exec(&parts[p1])
    } {
        (subvec(&parts[p1], 0, parts[p1].len()), p1 + 1)
    } else {
        (Vec::new(), p1)
    };
    proof {
        if p1 < parts.len() {
            assert(parts@[p1 as int]@.subrange(0, parts@[p1 as int]@.len() as int) =~= parts@[p1 as int]@);
        }
    }
    let (start, dur) = match start_and_duration_exec(&parts, p2, after_map) {
        Ok(p) => p,
        Err(e) => return Err(e),
    };
    let d = match dur {
        Some(v) => v,
        None => 7,
    };
    let duration_days = if d >= 1 { d } else { 1 };
    Ok(
        Some(
            GanttTask {
                label: string_of(&label),
                id: string_of(&id),
                status,
                start_day: start,
                duration_days,
            },
        ),
    )
}

// ───────────────────────────── documents ─────────────────────────────

pub struct SectionDraft {
    pub name: Seq<char>,
    pub tasks: Seq<Draft>,
}

/// What the parser has read so far.
pub struct ParseState {
    pub title: Option<Seq<char>>,
    pub date_format: Seq<char>,
    /// Sections already closed.
    pub done: Seq<SectionDraft>,
    /// The section tasks go into.
    pub current: Option<SectionDraft>,
    /// Id and end day of every task read, in order.
    pub after: Seq<(Seq<char>, int)>,
    /// Every number so far fits in an `i64`.
    pub ok: bool,
}

/// One line of a Gantt chart after its header: a title, a date format, a
/// section header, a task (which opens an unnamed section when none is
/// open), or anything else, which is skipped.
pub open spec fn line_step(st: ParseState, line: Seq<char>) -> ParseState {
    let t = trim(line);
    let low = lower(t);
    if t.len() == 0 {
        st
    } else if starts_with(low, "title "@) {
        ParseState {
            title: Some(trim(t.subrange(6, t.len() as int))),
            date_format: st.date_format,
            done: st.done,
            current: st.current,
            after: st.after,
            ok: st.ok,
        }
    } else if starts_with(low, "dateformat "@) {
        ParseState {
            title: st.title,
            date_format: trim(t.subrange(11, t.len() as int)),
            done: st.done,
            current: st.current,
            after: st.after,
            ok: st.ok,
        }
    } else if starts_with(low, "section "@) {
        ParseState {
            title: st.title,
            date_format: st.date_format,
            done: match st.current {
                Some(c) => st.done.push(c),
                None => st.done,
            },
            current: Some(SectionDraft { name: trim(t.subrange(8, t.len() as int)), tasks: seq![] }),
            after: st.after,
            ok: st.ok,
        }
    } else {
        match task_line(t, st.after) {
            None => st,
            Some((d, ok)) => ParseState {
                title: st.title,
                date_format: st.date_format,
                done: st.done,
                current: Some(
                    match st.current {
                        Some(c) => SectionDraft { name: c.name, tasks: c.tasks.push(d) },
                        None => SectionDraft { name: seq![], tasks: seq![d] },
                    },
                ),
                after: st.after.push((d.id, d.start + d.duration)),
                ok: st.ok && ok && in_i64(d.start + d.duration),
            },
        }
    }
}

/// The state after the lines `1..k` (line 0 is the header).
pub open spec fn read_lines(lines: Seq<Seq<char>>, st0: ParseState, k: int) -> ParseState
    decreases k,
{
    if k <= 1 {
        st0
    } else {
        line_step(read_lines(lines, st0, k - 1), lines[k - 1])
    }
}

pub open spec fn opt_view(o: Option<String>) -> Option<Seq<char>> {
    match o {
        Some(s) => Some(s@),
        None => None,
    }
}

pub open spec fn section_view(s: GanttSection) -> SectionDraft {
    SectionDraft { name: s.name@, tasks: s.tasks@.map_values(|t: GanttTask| draft_of(t)) }
}

pub open spec fn sections_view(secs: Seq<GanttSection>) -> Seq<SectionDraft> {
    secs.map_values(|s: GanttSection| section_view(s))
}

/// The whole input read from a database holding `title`, `date_format`.
pub open spec fn read_chart(input: Seq<char>, title: Option<Seq<char>>, date_format: Seq<char>) -> ParseState {
    let lines = split(input, '\n');
    read_lines(
        lines,
        ParseState {
            title,
            date_format,
            done: seq![],
            current: None,
            after: seq![],
            ok: true,
        },
        lines.len() as int,
    )
}

/// The first line, trimmed and lower-cased, starts with `gantt`.
pub open spec fn chart_header(input: Seq<char>) -> bool {
    starts_with(lower(trim(split(input, '\n')[0])), "gantt"@)
}

/// The sections a parse adds: the closed ones, then the open one.
pub open spec fn new_sections(st: ParseState) -> Seq<SectionDraft> {
    match st.current {
        Some(c) => st.done.push(c),
        None => st.done,
    }
}

fn all_ends_fit(secs: &Vec<GanttSection>) -> (r: bool)
    ensures
        r == ends_fit(secs@),
{
    let mut i: usize = 0;
    while i < secs.len()
        invariant
            i <= secs.len(),
            forall|a: int, b: int|
                0 <= a < i && super::database::is_task(secs@, a, b) ==> in_i64(
                    #[trigger] super::database::task_end(super::database::task_at(secs@, a, b)),
                ),
        decreases secs.len() - i,
    {
        let ts = &secs[i].tasks;
        let mut j: usize = 0;
        while j < ts.len()
            invariant
                i < secs.len(),
                ts@ == secs@[i as int].tasks@,
                j <= ts.len(),
                forall|a: int, b: int|
                    (0 <= a < i || (a == i && 0 <= b < j)) && super::database::is_task(secs@, a, b)
                        ==> in_i64(
                        #[trigger] super::database::task_end(super::database::task_at(secs@, a, b)),
                    ),
            decreases ts.len() - j,
        {
            let v: i128 = ts[j].start_day as i128 + ts[j].duration_days as i128;
            if v < i64::MIN as i128 || v > i64::MAX as i128 {
                assert(super::database::task_at(secs@, i as int, j as int) == ts@[j as int]);
                assert(!in_i64(super::database::task_end(super::database::task_at(secs@, i as int, j as int))));
                return false;
            }
            j = j + 1;
        }
        i = i + 1;
    }
    true
}

/// What the parser has read, as executable values.
struct Reader {
    title: Option<String>,
    date_format: String,
    done: Vec<GanttSection>,
    current: Option<GanttSection>,
    after: Vec<(Vec<char>, i64)>,
}

impl Reader {
    spec fn state(&self) -> ParseState {
        ParseState {
            title: opt_view(self.title),
            date_format: self.date_format@,
            done: sections_view(self.done@),
            current: match self.current {
                Some(c) => Some(section_view(c)),
                None => None,
            },
            after: after_view(self.after@),
            ok: true,
        }
    }

    /// Reads one line after the header.
    fn read_line(&mut self, line: &Vec<char>) -> (r: Result<(), DiagramError>)
        ensures
            match r {
                Ok(()) => line_step(old(self).state(), line@).ok && final(self).state() == line_step(
                    old(self).state(),
                    line@,
                ),
                Err(e) => !line_step(old(self).state(), line@).ok && e == DiagramError::Overflow,
            },
    {
        let t = trim_chars(line);
        let low = to_lower(&t);
        proof {
            reveal_strlit("title ");
            reveal_strlit("dateformat ");
            reveal_strlit("section ");
        }
        if t.len() == 0 {
            return Ok(());
        }
        if starts_with_exec(&low, &chars_of("title ")) {
            self.title = Some(string_of(&trim_chars(&subvec(&t, 6, t.len()))));
            return Ok(());
        }
        if starts_with_exec(&low, &chars_of("dateformat ")) {
            self.date_format = string_of(&trim_chars(&subvec(&t, 11, t.len())));
            return Ok(());
        }
        if starts_with_exec(&low, &chars_of("section ")) {
            let ghost d0 = self.done@;
            let cur = self.current.take();
            match cur {
                Some(c) => {
                    self.done.push(c);
                    assert(sections_view(self.done@) =~= sections_view(d0).push(section_view(c)));
                },
                None => {},
            }
            let name = string_of(&trim_chars(&subvec(&t, 8, t.len())));
            self.current = Some(GanttSection { name, tasks: Vec::new() });
            assert(section_view(self.current->Some_0).tasks =~= seq![]);
            return Ok(());
        }
        let task = match parse_task(&t, &self.after) {
            Err(e) => return Err(e),
            Ok(None) => return Ok(()),
            Ok(Some(task)) => task,
        };
        let end: i128 = task.start_day as i128 + task.duration_days as i128;
        if end < i64::MIN as i128 || end > i64::MAX as i128 {
            return Err(DiagramError::Overflow);
        }
        let ghost dr = draft_of(task);
        let ghost a0 = self.after@;
        self.after.push((chars_of(task.id.as_str()), end as i64));
        assert(after_view(self.after@) =~= after_view(a0).push((dr.id, dr.start + dr.duration)));
        let cur = self.current.take();
        match cur {
            Some(mut sec) => {
                let ghost ts0 = sec.tasks@;
                sec.tasks.push(task);
                assert(sec.tasks@.map_values(|t: GanttTask| draft_of(t)) =~= ts0.map_values(
                    |t: GanttTask| draft_of(t),
                ).push(dr));
                self.current = Some(sec);
            },
            None => {
                let mut ts: Vec<GanttTask> = Vec::new();
                ts.push(task);
                assert(ts@.map_values(|t: GanttTask| draft_of(t)) =~= seq![dr]);
                self.current = Some(GanttSection { name: String::new(), tasks: ts });
            },
        }
        Ok(())
    }
}

pub struct GanttParser;

impl GanttParser {
    pub fn new() -> (p: GanttParser) {
        GanttParser
    }

    /// Parses a Gantt chart into `db`: the first line must start with
    /// `gantt`; title and date format lines replace those of `db`; the
    /// sections read are appended to those of `db`; then the day range is
    /// recomputed. A number that does not fit in an `i64` is an error, and
    /// `db` is left as it was on any error.
    pub fn parse(&self, input: &str, db: &mut GanttDatabase) -> (r: Result<(), DiagramError>)
        ensures
            ({
                let st = read_chart(input@, opt_view(old(db).title), old(db).date_format@);
                match r {
                    Ok(()) => {
                        &&& chart_header(input@)
                        &&& st.ok
                        &&& ends_fit(old(db).sections@)
                        &&& opt_view(final(db).title) == st.title
                        &&& final(db).date_format@ == st.date_format
                        &&& sections_view(final(db).sections@) == sections_view(old(db).sections@)
                            + new_sections(st)
                        &&& is_range_of(final(db).sections@, final(db).min_day as int, final(db).max_day as int)
                    },
                    Err(e) => {
                        &&& *final(db) == *old(db)
                        &&& !chart_header(input@) ==> e == DiagramError::NotGantt
                        &&& chart_header(input@) ==> e == DiagramError::Overflow && !(st.ok
                            && ends_fit(old(db).sections@))
                    },
                }
            }),
    {
        let chars = chars_of(input);
        let lines = split_char(&chars, '\n');
        let ghost lv = views(lines@);
        proof {
            crate::text::lemma_split_len(chars@, '\n');
            assert(lv.len() == lines@.len());
            assert(lv[0] == lines@[0]@);
        }
        let first = trim_chars(&lines[0]);
        if !starts_with_exec(&to_lower(&first), &chars_of("gantt")) {
            return Err(DiagramError::NotGantt);
        }
        if !all_ends_fit(&db.sections) {
            return Err(DiagramError::Overflow);
        }
        let mut rd = Reader {
            title: match &db.title {
                Some(t) => Some(t.clone()),
                None => None,
            },
            date_format: db.date_format.clone(),
            done: Vec::new(),
            current: None,
            after: Vec::new(),
        };
        let ghost st0 = rd.state();
        assert(st0.done =~= seq![]);
        assert(st0.after =~= seq![]);
        assert(st0 == ParseState {
            title: opt_view(db.title),
            date_format: db.date_format@,
            done: seq![],
            current: None,
            after: seq![],
            ok: true,
        });
        let mut k: usize = 1;
        while k < lines.len()
            invariant
                lv == views(lines@),
                lv == split(chars@, '\n'),
                chars@ == input@,
                1 <= k <= lines.len(),
                rd.state() == read_lines(lv, st0, k as int),
                *db == *old(db),
                st0 == (ParseState {
                    title: opt_view(db.title),
                    date_format: db.date_format@,
                    done: seq![],
                    current: None,
                    after: seq![],
                    ok: true,
                }),
                chart_header(input@),
                ends_fit(db.sections@),
            decreases lines.len() - k,
        {
            assert(lv[k as int] == lines@[k as int]@);
            match rd.read_line(&lines[k]) {
                Ok(()) => {},
                Err(e) => {
                    proof {
                        assert(read_lines(lv, st0, k + 1) == line_step(read_lines(lv, st0, k as int), lv[k as int]));
                        assert(!read_lines(lv, st0, k + 1).ok);
                        lemma_read_lines_ok_mono(lv, st0, k + 1, lv.len() as int);
                        assert(read_chart(input@, opt_view(db.title), db.date_format@) == read_lines(lv, st0, lv.len() as int));
                    }
                    return Err(e);
                },
            }
            k = k + 1;
        }
        let ghost st = read_lines(lv, st0, lines.len() as int);
        let ghost s0 = db.sections@;
        let mut done = rd.done;
        match rd.current {
            Some(c) => {
                done.push(c);
            },
            None => {},
        }
        assert(sections_view(done@) =~= new_sections(st));
        let ghost dn = done@;
        proof {
            lemma_drafts_fit(lv, st0, lines.len() as int);
            lemma_view_fit(dn, new_sections(st));
        }
        db.title = rd.title;
        db.date_format = rd.date_format;
        db.sections.append(&mut done);
        assert(db.sections@ =~= s0 + dn);
        assert(sections_view(db.sections@) =~= sections_view(s0) + new_sections(st));
        proof {
            lemma_ends_fit_concat(s0, dn, db.sections@);
        }
        db.recompute_range();
        Ok(())
    }
}

/// Once a number has not fitted, the parse stays failed.
pub proof fn lemma_read_lines_ok_mono(lines: Seq<Seq<char>>, st0: ParseState, k: int, m: int)
    requires
        k <= m,
    ensures
        read_lines(lines, st0, m).ok ==> read_lines(lines, st0, k).ok,
    decreases m - k,
{
    if m > k {
        lemma_read_lines_ok_mono(lines, st0, k, m - 1);
    }
}

pub open spec fn drafts_fit(secs: Seq<SectionDraft>) -> bool {
    forall|i: int, j: int|
        0 <= i < secs.len() && 0 <= j < secs[i].tasks.len() ==> in_i64(
            #[trigger] secs[i].tasks[j].start + secs[i].tasks[j].duration,
        )
}

pub open spec fn state_fits(st: ParseState) -> bool {
    &&& drafts_fit(st.done)
    &&& st.current matches Some(c) ==> forall|j: int|
        0 <= j < c.tasks.len() ==> in_i64(#[trigger] c.tasks[j].start + c.tasks[j].duration)
}

#[verifier::spinoff_prover]
proof fn lemma_drafts_fit(lines: Seq<Seq<char>>, st0: ParseState, k: int)
    requires
        st0.done.len() == 0,
        st0.current is None,
    ensures
        read_lines(lines, st0, k).ok ==> state_fits(read_lines(lines, st0, k)),
        read_lines(lines, st0, k).ok ==> drafts_fit(new_sections(read_lines(lines, st0, k))),
    decreases k,
{
    let st = read_lines(lines, st0, k);
    if k > 1 {
        lemma_drafts_fit(lines, st0, k - 1);
        let pr = read_lines(lines, st0, k - 1);
        if st.ok {
            lemma_read_lines_ok_mono(lines, st0, k - 1, k);
            let t = trim(lines[k - 1]);
            let low = lower(t);
            if t.len() > 0 && !starts_with(low, "title "@) && !starts_with(low, "dateformat "@)
                && starts_with(low, "section "@) {
                if let Some(c) = pr.current {
                    assert forall|i: int, j: int|
                        0 <= i < st.done.len() && 0 <= j < st.done[i].tasks.len() implies in_i64(
                            #[trigger] st.done[i].tasks[j].start + st.done[i].tasks[j].duration,
                        ) by {
                        if i < pr.done.len() {
                            assert(st.done[i] == pr.done[i]);
                        }
                    }
                }
            }
            if t.len() > 0 && !starts_with(low, "title "@) && !starts_with(low, "dateformat "@)
                && !starts_with(low, "section "@) {
                if let Some((d, ok)) = task_line(t, pr.after) {
                    let c = st.current.unwrap();
                    assert forall|j: int| 0 <= j < c.tasks.len() implies in_i64(
                        #[trigger] c.tasks[j].start + c.tasks[j].duration,
                    ) by {
                        if let Some(pc) = pr.current {
                            if j < pc.tasks.len() {
                                assert(c.tasks[j] == pc.tasks[j]);
                            }
                        }
                    }
                }
            }
        }
    }
    if st.ok {
        let ns = new_sections(st);
        assert forall|i: int, j: int|
            0 <= i < ns.len() && 0 <= j < ns[i].tasks.len() implies in_i64(
                #[trigger] ns[i].tasks[j].start + ns[i].tasks[j].duration,
            ) by {
            if i < st.done.len() {
                assert(ns[i] == st.done[i]);
            } else {
                assert(ns[i] == st.current.unwrap());
            }
        }
    }
}

proof fn lemma_view_fit(secs: Seq<GanttSection>, drafts: Seq<SectionDraft>)
    requires
        sections_view(secs) == drafts,
        drafts_fit(drafts),
    ensures
        ends_fit(secs),
{
    assert forall|i: int, j: int| super::database::is_task(secs, i, j) implies in_i64(
        #[trigger] super::database::task_end(super::database::task_at(secs, i, j)),
    ) by {
        assert(drafts[i] == section_view(secs[i]));
        assert(drafts[i].tasks[j] == draft_of(secs[i].tasks@[j]));
        assert(in_i64(drafts[i].tasks[j].start + drafts[i].tasks[j].duration));
    }
}

proof fn lemma_ends_fit_concat(a: Seq<GanttSection>, b: Seq<GanttSection>, c: Seq<GanttSection>)
    requires
        c == a + b,
        ends_fit(a),
        ends_fit(b),
    ensures
        ends_fit(c),
{
    assert forall|i: int, j: int| super::database::is_task(c, i, j) implies in_i64(
        #[trigger] super::database::task_end(super::database::task_at(c, i, j)),
    ) by {
        if i < a.len() {
            assert(c[i] == a[i]);
            assert(super::database::is_task(a, i, j));
            assert(super::database::task_at(c, i, j) == super::database::task_at(a, i, j));
        } else {
            assert(c[i] == b[i - a.len()]);
            assert(super::database::is_task(b, i - a.len(), j));
            assert(super::database::task_at(c, i, j) == super::database::task_at(b, i - a.len(), j));
        }
    }
}

impl Default for GanttParser {
    fn default() -> (p: GanttParser) {
        GanttParser
    }
}

} // verus!
