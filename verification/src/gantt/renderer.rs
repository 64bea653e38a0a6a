//! Gantt chart text renderer.
use vstd::prelude::*;

use super::database::{GanttDatabase, GanttSection, GanttTask, TaskStatus};
use crate::diagram::DiagramError;
use crate::text::{
    append_all, byte_len, chars_of, decimal, fmt_zero_pad, fmt_zero_pad_exec, join_lines, join_rows,
    lemma_byte_len_ascii, lemma_byte_len_concat, lemma_byte_len_ge, lemma_decimal_ascii,
    lemma_max_of_push, lemma_opt_max_assoc, max_into, max_of, nat_opt, opt_max, push_repeat,
    repeat, saturated, str_byte_len, string_of, subvec, utf8_width, views,
};

verus! {

// ───────────────────────────── calendar ─────────────────────────────

pub open spec fn leap(y: int) -> bool {
    (y % 4 == 0 && y % 100 != 0) || y % 400 == 0
}

pub open spec fn year_len(y: int) -> int {
    if leap(y) {
        366
    } else {
        365
    }
}

/// Days from 2020-01-01 to the first day of year `y` (negative before 2020).
pub open spec fn days_before_year(y: int) -> int
    decreases (if y >= 2020 { y - 2020 } else { 2020 - y }),
{
    if y == 2020 {
        0
    } else if y > 2020 {
        days_before_year(y - 1) + year_len(y - 1)
    } else {
        days_before_year(y + 1) - year_len(y)
    }
}

/// Each year adds its length.
pub proof fn lemma_days_before_year_step(y: int)
    ensures
        days_before_year(y + 1) == days_before_year(y) + year_len(y),
{
}

/// Leap days in the years before `y` (from year 1 on).
pub open spec fn leaps_before(y: int) -> int {
    (y - 1) / 4 - (y - 1) / 100 + (y - 1) / 400
}

proof fn lemma_div_step(y: int, n: int)
    requires
        n > 0,
    ensures
        y / n == (y - 1) / n + if y % n == 0 {
            1int
        } else {
            0int
        },
{
    vstd::arithmetic::div_mod::lemma_fundamental_div_mod(y, n);
    vstd::arithmetic::div_mod::lemma_fundamental_div_mod(y - 1, n);
    vstd::arithmetic::div_mod::lemma_mod_bound(y, n);
    vstd::arithmetic::div_mod::lemma_mod_bound(y - 1, n);
    assert(y / n == (y - 1) / n + if y % n == 0 { 1int } else { 0int }) by (nonlinear_arith)
        requires
            n > 0,
            y == n * (y / n) + y % n,
            y - 1 == n * ((y - 1) / n) + (y - 1) % n,
            0 <= y % n < n,
            0 <= (y - 1) % n < n,
    ;
}

#[verifier::spinoff_prover]
proof fn lemma_leaps_step(y: int)
    ensures
        leaps_before(y + 1) == leaps_before(y) + if leap(y) {
            1int
        } else {
            0int
        },
{
    lemma_div_step(y, 4);
    lemma_div_step(y, 100);
    lemma_div_step(y, 400);
    vstd::arithmetic::div_mod::lemma_mod_mod(y, 100, 4);
    vstd::arithmetic::div_mod::lemma_mod_mod(y, 4, 100);
    vstd::arithmetic::div_mod::lemma_mod_mod(y, 4, 25);
    let a = y % 4 == 0;
    let b = y % 100 == 0;
    let c = y % 400 == 0;
    assert(c ==> b);
    assert(b ==> a);
}

/// `days_before_year` in closed form.
pub proof fn lemma_days_before_year(y: int)
    ensures
        days_before_year(y) == 365 * (y - 2020) + leaps_before(y) - leaps_before(2020),
    decreases (if y >= 2020 { y - 2020 } else { 2020 - y }),
{
    if y > 2020 {
        lemma_days_before_year(y - 1);
        lemma_leaps_step(y - 1);
    } else if y < 2020 {
        lemma_days_before_year(y + 1);
        lemma_leaps_step(y);
    }
}

pub proof fn lemma_days_before_year_mono(a: int, b: int)
    requires
        a <= b,
    ensures
        days_before_year(a) <= days_before_year(b),
    decreases b - a,
{
    if a < b {
        lemma_days_before_year_mono(a, b - 1);
        lemma_days_before_year_step(b - 1);
    }
}

/// The first day offset `day_to_str` can write: the first day of the
/// earliest year an `i32` holds.
pub const FIRST_RENDERABLE_DAY: i64 = -784353034095i64;

pub proof fn lemma_first_renderable_day()
    ensures
        FIRST_RENDERABLE_DAY == days_before_year(i32::MIN as int),
{
    lemma_days_before_year(i32::MIN as int);
}

/// The last day offset `day_to_str` can write: the year after it would not
/// fit in an `i32`.
pub const LAST_RENDERABLE_DAY: i64 = 784351558514i64;

pub proof fn lemma_last_renderable_day()
    ensures
        LAST_RENDERABLE_DAY == days_before_year(i32::MAX as int + 1) - 1,
{
    lemma_days_before_year(i32::MAX as int + 1);
}

/// Year and day of that year (from 0) of offset `rem` counted from the
/// first day of year `y`.
pub open spec fn year_walk(y: int, rem: int) -> (int, int)
    decreases rem,
{
    if rem >= year_len(y) {
        year_walk(y + 1, rem - year_len(y))
    } else {
        (y, rem)
    }
}

/// Year and day of that year (from 0) of offset `rem` counted back from the
/// first day of year `y`, for a negative `rem`.
pub open spec fn year_walk_back(y: int, rem: int) -> (int, int)
    decreases (if rem < 0 { -rem } else { 0 }),
{
    if rem < 0 {
        year_walk_back(y - 1, rem + year_len(y - 1))
    } else {
        (y, rem)
    }
}

/// Year and day of that year (from 0) of the day `off` days after
/// 2020-01-01 (before it, for a negative `off`).
pub open spec fn year_of_day(off: int) -> (int, int) {
    if off >= 0 {
        year_walk(2020, off)
    } else {
        year_walk_back(2020, off)
    }
}

pub open spec fn month_len(y: int, m: int) -> int {
    if m == 2 {
        if leap(y) {
            29
        } else {
            28
        }
    } else if m == 4 || m == 6 || m == 9 || m == 11 {
        30
    } else {
        31
    }
}

/// Month and day of that month (from 0) of day `rem` of year `y`, counting
/// from month `m`.
pub open spec fn month_walk(y: int, rem: int, m: int) -> (int, int)
    decreases 13 - m,
{
    if m <= 12 && rem >= month_len(y, m) {
        month_walk(y, rem - month_len(y, m), m + 1)
    } else {
        (m, rem)
    }
}

/// `YYYY-MM-DD` of the day `off` days after 2020-01-01 (before it, for a
/// negative `off`).
pub open spec fn date_text(off: int) -> Seq<char> {
    let (y, rem) = year_of_day(off);
    let (m, r2) = month_walk(y, rem, 1);
    fmt_zero_pad(y, 4) + seq!['-'] + fmt_zero_pad(m, 2) + seq!['-'] + fmt_zero_pad(r2 + 1, 2)
}

/// Days from the first day of year `y` to the first day of month `m`
/// (months from 1; a month after December counts 31 days).
pub open spec fn days_before_month(y: int, m: int) -> int
    decreases m,
{
    if m <= 1 {
        0
    } else {
        days_before_month(y, m - 1) + month_len(y, m - 1)
    }
}

/// The day offset from 2020-01-01 of day `d` of month `m` of year `y`.
pub open spec fn day_number(y: int, m: int, d: int) -> int {
    days_before_year(y) + days_before_month(y, m) + d - 1
}

pub proof fn lemma_days_before_month_mono(y: int, a: int, b: int)
    requires
        a <= b,
    ensures
        days_before_month(y, a) <= days_before_month(y, b),
    decreases b - a,
{
    if a < b {
        lemma_days_before_month_mono(y, a, b - 1);
    }
}

/// The twelve months make the year.
pub proof fn lemma_months_make_year(y: int)
    ensures
        days_before_month(y, 13) == year_len(y),
{
    assert(days_before_month(y, 1) == 0);
    assert(days_before_month(y, 2) == 31);
    assert(days_before_month(y, 3) == 31 + month_len(y, 2));
    assert(days_before_month(y, 4) == 62 + month_len(y, 2));
    assert(days_before_month(y, 5) == 92 + month_len(y, 2));
    assert(days_before_month(y, 6) == 123 + month_len(y, 2));
    assert(days_before_month(y, 7) == 153 + month_len(y, 2));
    assert(days_before_month(y, 8) == 184 + month_len(y, 2));
    assert(days_before_month(y, 9) == 215 + month_len(y, 2));
    assert(days_before_month(y, 10) == 245 + month_len(y, 2));
    assert(days_before_month(y, 11) == 276 + month_len(y, 2));
    assert(days_before_month(y, 12) == 306 + month_len(y, 2));
    assert(days_before_month(y, 13) == 337 + month_len(y, 2));
}

/// After December every month counts 31 days.
proof fn lemma_months_after_year(y: int, m: int)
    requires
        m >= 13,
    ensures
        days_before_month(y, m) == year_len(y) + 31 * (m - 13),
    decreases m,
{
    if m == 13 {
        lemma_months_make_year(y);
    } else {
        lemma_months_after_year(y, m - 1);
    }
}

proof fn lemma_month_walk_to(y: int, j: int, m: int, d: int)
    requires
        1 <= j <= m <= 12,
        1 <= d <= month_len(y, m),
    ensures
        month_walk(y, days_before_month(y, m) - days_before_month(y, j) + d - 1, j) == (m, d - 1),
    decreases m - j,
{
    if j < m {
        lemma_days_before_month_mono(y, j + 1, m);
        lemma_month_walk_to(y, j + 1, m, d);
    }
}

proof fn lemma_year_walk_forward(j: int, y: int, k: int)
    requires
        2020 <= j <= y,
        0 <= k < year_len(y),
    ensures
        year_walk(j, days_before_year(y) - days_before_year(j) + k) == (y, k),
    decreases y - j,
{
    if j < y {
        lemma_days_before_year_step(j);
        lemma_days_before_year_mono(j + 1, y);
        lemma_year_walk_forward(j + 1, y, k);
    }
}

proof fn lemma_year_walk_backward(j: int, y: int, k: int)
    requires
        y < j <= 2020,
        0 <= k < year_len(y),
    ensures
        year_walk_back(j, days_before_year(y) + k - days_before_year(j)) == (y, k),
    decreases j - y,
{
    lemma_days_before_year_step(y);
    lemma_days_before_year_mono(y + 1, j);
    lemma_days_before_year_step(j - 1);
    let rem = days_before_year(y) + k - days_before_year(j);
    assert(rem < 0);
    assert(rem + year_len(j - 1) == days_before_year(y) + k - days_before_year(j - 1));
    assert(year_walk_back(j, rem) == year_walk_back(j - 1, rem + year_len(j - 1)));
    if j - 1 > y {
        lemma_year_walk_backward(j - 1, y, k);
    } else {
        assert(year_walk_back(y, k) == (y, k));
    }
}

/// Writing the day number of a calendar date gives that date back.
pub proof fn lemma_date_round_trip(y: int, m: int, d: int)
    requires
        1 <= m <= 12,
        1 <= d <= month_len(y, m),
    ensures
        date_text(day_number(y, m, d)) == fmt_zero_pad(y, 4) + seq!['-'] + fmt_zero_pad(m, 2) + seq!['-']
            + fmt_zero_pad(d, 2),
{
    let k = days_before_month(y, m) + d - 1;
    lemma_days_before_month_mono(y, m + 1, 13);
    lemma_months_make_year(y);
    lemma_days_before_month_mono(y, 1, m);
    assert(0 <= k < year_len(y));
    if y >= 2020 {
        lemma_days_before_year_mono(2020, y);
        lemma_year_walk_forward(2020, y, k);
    } else {
        lemma_days_before_year_step(y);
        lemma_days_before_year_mono(y + 1, 2020);
        lemma_year_walk_backward(2020, y, k);
    }
    assert(year_of_day(day_number(y, m, d)) == (y, k));
    lemma_month_walk_to(y, 1, m, d);
    assert(month_walk(y, k, 1) == (m, d - 1));
}

fn days_before_year_exec(y: i32) -> (r: i64)
    ensures
        r == days_before_year(y as int),
        -1000000000000 <= r <= 1000000000000,
{
    proof {
        lemma_days_before_year(y as int);
    }
    // Leap days counted from a year far enough back that the count is not
    // negative: 2147484000 is a multiple of 400.
    let t: u64 = (y as i64 + 2147483999) as u64;
    let ghost yi: int = y as int;
    assert(t / 4 == (yi - 1) / 4 + 536871000);
    assert(t / 100 == (yi - 1) / 100 + 21474840);
    assert(t / 400 == (yi - 1) / 400 + 5368710);
    assert(leaps_before(2020) == 489);
    let leaps: i64 = (t / 4) as i64 - (t / 100) as i64 + (t / 400) as i64 - 520764870;
    365 * (y as i64 - 2020) + leaps - 489
}

fn days_before_month_exec(y: i32, m: u32) -> (r: i64)
    ensures
        r == days_before_month(y as int, m as int),
        0 <= r <= 200000000000,
{
    let feb: i64 = if is_leap(y) { 1 } else { 0 };
    let ghost yi: int = y as int;
    assert(days_before_month(yi, 1) == 0);
    assert(days_before_month(yi, 2) == 31);
    assert(days_before_month(yi, 3) == 59 + feb);
    assert(days_before_month(yi, 4) == 90 + feb);
    assert(days_before_month(yi, 5) == 120 + feb);
    assert(days_before_month(yi, 6) == 151 + feb);
    assert(days_before_month(yi, 7) == 181 + feb);
    assert(days_before_month(yi, 8) == 212 + feb);
    assert(days_before_month(yi, 9) == 243 + feb);
    assert(days_before_month(yi, 10) == 273 + feb);
    assert(days_before_month(yi, 11) == 304 + feb);
    assert(days_before_month(yi, 12) == 334 + feb);
    if m <= 1 {
        0
    } else if m == 2 {
        31
    } else if m == 3 {
        59 + feb
    } else if m == 4 {
        90 + feb
    } else if m == 5 {
        120 + feb
    } else if m == 6 {
        151 + feb
    } else if m == 7 {
        181 + feb
    } else if m == 8 {
        212 + feb
    } else if m == 9 {
        243 + feb
    } else if m == 10 {
        273 + feb
    } else if m == 11 {
        304 + feb
    } else if m == 12 {
        334 + feb
    } else {
        proof {
            lemma_months_after_year(yi, m as int);
        }
        365 + feb + 31 * (m as i64 - 13)
    }
}

/// The day offset from 2020-01-01 of day `d` of month `m` of year `y`.
pub fn day_number_exec(y: i32, m: u32, d: u32) -> (r: i64)
    ensures
        r == day_number(y as int, m as int, d as int),
        -2000000000000 <= r <= 2000000000000,
{
    days_before_year_exec(y) + days_before_month_exec(y, m) + d as i64 - 1
}

pub fn is_leap(y: i32) -> (r: bool)
    ensures
        r == leap(y as int),
{
    // Divisibility does not depend on the sign, and on a non-negative
    // number `%` is the same in Rust and in the specification.
    let v: i64 = if y < 0 { -(y as i64) } else { y as i64 };
    assert(leap(v as int) == leap(y as int));
    (v % 4 == 0 && v % 100 != 0) || (v % 400 == 0)
}

fn year_days(y: i32) -> (r: i64)
    ensures
        r == year_len(y as int),
{
    if is_leap(y) {
        366
    } else {
        365
    }
}

/// Converts a day offset from 2020-01-01 to `YYYY-MM-DD`.
pub fn day_to_str(day_offset: i64) -> (s: String)
    requires
        FIRST_RENDERABLE_DAY <= day_offset <= LAST_RENDERABLE_DAY,
    ensures
        s@ == date_text(day_offset as int),
{
    string_of(&date_chars(day_offset))
}

fn date_chars(day_offset: i64) -> (out: Vec<char>)
    requires
        FIRST_RENDERABLE_DAY <= day_offset <= LAST_RENDERABLE_DAY,
    ensures
        out@ == date_text(day_offset as int),
{
    let mut year: i32 = 2020;
    let mut remaining: i64 = day_offset;
    proof {
        lemma_last_renderable_day();
        lemma_first_renderable_day();
    }
    if day_offset >= 0 {
        while remaining >= year_days(year)
            invariant
                2020 <= year,
                day_offset <= LAST_RENDERABLE_DAY,
                LAST_RENDERABLE_DAY == days_before_year(i32::MAX as int + 1) - 1,
                remaining == day_offset - days_before_year(year as int),
                remaining >= 0,
                year_walk(year as int, remaining as int) == year_walk(2020, day_offset as int),
            decreases i32::MAX - year,
        {
            let days_in_year: i64 = year_days(year);
            assert(year < i32::MAX) by {
                if year == i32::MAX {
                    lemma_days_before_year_step(year as int);
                }
            }
            proof {
                lemma_days_before_year_step(year as int);
            }
            remaining = remaining - days_in_year;
            year = year + 1;
        }
    } else {
        while remaining < 0
            invariant
                i32::MIN <= year <= 2020,
                FIRST_RENDERABLE_DAY <= day_offset,
                FIRST_RENDERABLE_DAY == days_before_year(i32::MIN as int),
                remaining == day_offset - days_before_year(year as int),
                year_walk_back(year as int, remaining as int) == year_walk_back(2020, day_offset as int),
                remaining < 366,
            decreases year - i32::MIN,
        {
            assert(year > i32::MIN);
            proof {
                lemma_days_before_year_step(year - 1);
            }
            year = year - 1;
            remaining = remaining + year_days(year);
        }
    }
    let ghost rem0 = remaining as int;
    assert(year_of_day(day_offset as int) == (year as int, rem0));
    assert(rem0 < 367);
    let feb: i64 = if is_leap(year) { 29 } else { 28 };
    let days_in_month: [i64; 12] = [31, feb, 31, 30, 31, 30, 31, 31, 30, 31, 30, 31];
    assert(forall|k: int| 0 <= k < 12 ==> #[trigger] days_in_month@[k] == month_len(year as int, k + 1)) by {
        assert(days_in_month@[0] == 31);
        assert(days_in_month@[1] == feb);
        assert(days_in_month@[2] == 31);
        assert(days_in_month@[3] == 30);
        assert(days_in_month@[4] == 31);
        assert(days_in_month@[5] == 30);
        assert(days_in_month@[6] == 31);
        assert(days_in_month@[7] == 31);
        assert(days_in_month@[8] == 30);
        assert(days_in_month@[9] == 31);
        assert(days_in_month@[10] == 30);
        assert(days_in_month@[11] == 31);
    }
    let mut month: i64 = 1;
    let mut i: usize = 0;
    while i < 12 && remaining >= days_in_month[i]
        invariant
            i <= 12,
            month == i + 1,
            forall|k: int| 0 <= k < 12 ==> #[trigger] days_in_month@[k] == month_len(year as int, k + 1),
            month_walk(year as int, remaining as int, month as int) == month_walk(year as int, rem0, 1),
            remaining <= rem0,
            rem0 < 367,
            rem0 >= 0 ==> remaining >= 0,
        decreases 12 - i,
    {
        remaining = remaining - days_in_month[i];
        month = month + 1;
        i = i + 1;
    }
    assert(month_walk(year as int, remaining as int, month as int) == (month as int, remaining as int));
    let day = remaining + 1;
    let mut out = fmt_zero_pad_exec(year as i64, 4);
    out.push('-');
    append_all(&mut out, &fmt_zero_pad_exec(month, 2));
    out.push('-');
    append_all(&mut out, &fmt_zero_pad_exec(day, 2));
    out
}


// ───────────────────────────── text cells ─────────────────────────────

/// Columns of the bar area.
pub const BAR_WIDTH: usize = 60;

/// `s` cut to its first `max` characters when it is longer than `max` bytes.
pub open spec fn clip(s: Seq<char>, max: nat) -> Seq<char> {
    if byte_len(s) <= max {
        s
    } else if max <= s.len() {
        s.take(max as int)
    } else {
        s
    }
}

/// `s` padded with spaces to `width` bytes, or cut to its first `width`
/// characters when it has at least `width` bytes.
pub open spec fn pad_right(s: Seq<char>, width: nat) -> Seq<char> {
    if byte_len(s) >= width {
        if width <= s.len() {
            s.take(width as int)
        } else {
            s
        }
    } else {
        s + repeat(' ', (width - byte_len(s)) as nat)
    }
}

/// `format!("{:>width$}", s)`: spaces before `s` up to `width` characters.
pub open spec fn align_right(s: Seq<char>, width: nat) -> Seq<char> {
    if s.len() < width {
        repeat(' ', (width - s.len()) as nat) + s
    } else {
        s
    }
}

/// A row between the two side borders.
pub open spec fn framed(s: Seq<char>) -> Seq<char> {
    seq!['│'] + s + seq!['│']
}

/// A horizontal border of `w` dashes between two corners.
pub open spec fn rule(l: char, r: char, w: nat) -> Seq<char> {
    seq![l] + repeat('─', w) + seq![r]
}

// ───────────────────────────── chart model ─────────────────────────────

pub open spec fn task_label_lens(tasks: Seq<GanttTask>) -> Seq<nat> {
    tasks.map_values(|t: GanttTask| byte_len(t.label@))
}

/// Byte length of the longest task label of all sections, if there is a task.
pub open spec fn longest_task_label(secs: Seq<GanttSection>) -> Option<nat>
    decreases secs.len(),
{
    if secs.len() == 0 {
        None
    } else {
        opt_max(longest_task_label(secs.drop_last()), max_of(task_label_lens(secs.last().tasks@)))
    }
}

/// Byte length of the longest section name, if there is a section.
pub open spec fn longest_section_name(secs: Seq<GanttSection>) -> Option<nat> {
    max_of(secs.map_values(|s: GanttSection| byte_len(s.name@)))
}

/// Width of the label column: two more than the longest task label (8
/// without tasks) or section name (6 without sections), at most 28.
pub open spec fn label_width(secs: Seq<GanttSection>) -> nat {
    let a: nat = match longest_task_label(secs) {
        Some(n) => n,
        None => 8,
    };
    let b: nat = match longest_section_name(secs) {
        Some(n) => n,
        None => 6,
    };
    let w = (if a >= b { a } else { b }) + 2;
    if w <= 28 { w } else { 28 }
}

/// Width inside the side borders: the label column, a space and the bars.
pub open spec fn inner_width(lw: nat) -> nat {
    lw + 1 + BAR_WIDTH as nat
}

pub open spec fn fill_of(s: TaskStatus) -> char {
    match s {
        TaskStatus::Done => '▓',
        TaskStatus::Active => '█',
        TaskStatus::Crit => '▒',
        TaskStatus::Normal => '░',
        TaskStatus::Milestone => '◆',
    }
}

/// First column of a bar whose rounded start is `raw`.
pub open spec fn bar_start(raw: usize) -> int {
    if raw < 59 { raw as int } else { 59 }
}

/// Columns of a bar whose rounded start and length are `raw`: at least one,
/// and none past the bar area.
pub open spec fn bar_len(raw: (usize, usize)) -> int {
    let l: int = if raw.1 > 1 { raw.1 as int } else { 1 };
    let room = BAR_WIDTH - bar_start(raw.0);
    if l < room { l } else { room }
}

pub open spec fn bar_line(start: int, len: int, fill: char) -> Seq<char> {
    Seq::new(BAR_WIDTH as nat, |i: int| if start <= i < start + len { fill } else { ' ' })
}

/// Every bar has at least one column and lies within the bar area.
pub proof fn lemma_bar_within(raw: (usize, usize))
    ensures
        0 <= bar_start(raw.0),
        1 <= bar_len(raw),
        bar_start(raw.0) + bar_len(raw) <= BAR_WIDTH,
{
}

/// The row of a task: its label right-aligned in the label column, then its
/// bar, with the task's dates after the bar as far as the row has room.
pub open spec fn task_row(t: GanttTask, raw: (usize, usize), lw: nat) -> Seq<char> {
    let tw = inner_width(lw);
    let label = align_right(clip(t.label@, lw), lw);
    let bar = bar_line(bar_start(raw.0), bar_len(raw), fill_of(t.status));
    let dates = date_text(t.start_day as int) + seq!['—'] + date_text(t.start_day + t.duration_days);
    let cell = clip(bar + seq![' '] + dates, (tw - (lw + 1)) as nat);
    framed(label + seq![' '] + pad_right(cell, (tw - (lw + 1)) as nat))
}

pub open spec fn blank_row(tw: nat) -> Seq<char> {
    framed(repeat(' ', tw))
}

/// The header of a section (none for an unnamed one).
pub open spec fn header_rows(sec: GanttSection, tw: nat) -> Seq<Seq<char>> {
    if sec.name@.len() == 0 {
        Seq::empty()
    } else {
        seq![framed(pad_right(seq![' ', '▸', ' '] + sec.name@, tw))]
    }
}

pub open spec fn task_rows(tasks: Seq<GanttTask>, raws: Seq<(usize, usize)>, lw: nat) -> Seq<Seq<char>> {
    Seq::new(tasks.len(), |j: int| task_row(tasks[j], raws[j], lw))
}

/// A section: its header, a row per task and a blank row.
pub open spec fn section_rows(sec: GanttSection, raws: Seq<(usize, usize)>, lw: nat) -> Seq<Seq<char>> {
    header_rows(sec, inner_width(lw)) + task_rows(sec.tasks@, raws, lw) + seq![blank_row(inner_width(lw))]
}

pub open spec fn body_rows(secs: Seq<GanttSection>, bars: Seq<Vec<(usize, usize)>>, lw: nat) -> Seq<Seq<char>>
    decreases secs.len(),
{
    if secs.len() == 0 {
        Seq::empty()
    } else {
        body_rows(secs.drop_last(), bars, lw) + section_rows(secs.last(), bars[secs.len() - 1]@, lw)
    }
}

/// The title, centred by its byte length, and a blank row.
pub open spec fn title_rows(title: Option<String>, tw: nat) -> Seq<Seq<char>> {
    match title {
        None => Seq::empty(),
        Some(t0) => {
            let t = clip(seq![' '] + t0@ + seq![' '], tw);
            let pad: nat = if byte_len(t) < tw { (tw - byte_len(t)) as nat } else { 0 };
            seq![framed(repeat(' ', pad / 2) + t + repeat(' ', (pad - pad / 2) as nat)), blank_row(tw)]
        },
    }
}

/// The time axis: a tick every ten columns.
pub open spec fn axis_row(lw: nat) -> Seq<char> {
    framed(
        repeat(' ', lw) + seq![' ', '├'] + Seq::new(
            BAR_WIDTH as nat,
            |i: int| if i > 0 && i % 10 == 0 { '┼' } else { '─' },
        ),
    )
}

/// Column of the `k`-th of four dates of `n` bytes: centred in its quarter
/// of the bar area, and not past its end.
pub open spec fn date_col(k: int, n: nat) -> int {
    let quarter: int = BAR_WIDTH as int / 4;
    let c = k * quarter + (if n < quarter { quarter - n } else { 0 }) / 2;
    let last: int = if n < BAR_WIDTH { BAR_WIDTH - n } else { 0 };
    if c < last { c } else { last }
}

/// The date line after the first `k` dates: each date is written at its
/// column when the line has not gone past it.
pub open spec fn date_line_upto(min_day: int, offsets: Seq<i64>, k: nat) -> Seq<char>
    decreases k,
{
    if k == 0 {
        Seq::empty()
    } else {
        place_date(date_line_upto(min_day, offsets, (k - 1) as nat), date_text(min_day + offsets[k - 1]), k - 1)
    }
}

/// Line `d` after writing date `ds` as the `k`-th date: spaces up to its
/// column, then the date if the line ends there.
pub open spec fn place_date(d: Seq<char>, ds: Seq<char>, k: int) -> Seq<char> {
    let col = date_col(k, byte_len(ds));
    let d2 = if byte_len(d) < col { d + repeat(' ', (col - byte_len(d)) as nat) } else { d };
    if byte_len(d2) == col { d2 + ds } else { d2 }
}

pub open spec fn date_line(min_day: int, offsets: Seq<i64>) -> Seq<char> {
    let d = date_line_upto(min_day, offsets, 4);
    if byte_len(d) < BAR_WIDTH { d + repeat(' ', (BAR_WIDTH - byte_len(d)) as nat) } else { d }
}

/// Where the bars and the axis dates fall. It comes from the chart's time
/// span by floating-point scaling, which the caller does.
pub struct GanttScale {
    /// For task `j` of section `i`: its start and its length in bar columns,
    /// rounded, before they are fitted into the bar area.
    pub bars: Vec<Vec<(usize, usize)>>,
    /// The four axis dates, as day offsets from the chart's first day.
    pub axis_offsets: Vec<i64>,
}

/// `scale` has a bar for each task and four axis dates that `day_to_str`
/// can write.
pub open spec fn scale_fits(db: GanttDatabase, scale: GanttScale) -> bool {
    &&& scale.bars@.len() == db.sections@.len()
    &&& forall|i: int|
        0 <= i < db.sections@.len() ==> (#[trigger] scale.bars@[i])@.len() == db.sections@[i].tasks@.len()
    &&& scale.axis_offsets@.len() == 4
    &&& forall|k: int|
        0 <= k < 4 ==> FIRST_RENDERABLE_DAY <= db.min_day + #[trigger] scale.axis_offsets@[k] <= LAST_RENDERABLE_DAY
}

/// All rows of the chart.
pub open spec fn chart_rows(db: GanttDatabase, scale: GanttScale) -> Seq<Seq<char>> {
    let lw = label_width(db.sections@);
    let tw = inner_width(lw);
    seq![rule('┌', '┐', tw)] + title_rows(db.title, tw) + body_rows(db.sections@, scale.bars@, lw) + seq![
        axis_row(lw),
        framed(repeat(' ', lw) + seq![' '] + date_line(db.min_day as int, scale.axis_offsets@)),
        rule('└', '┘', tw),
    ]
}

/// The chart as text.
pub open spec fn chart_text(db: GanttDatabase, scale: GanttScale) -> Seq<char> {
    join_lines(chart_rows(db, scale))
}

// ───────────────────────────── building rows ─────────────────────────────

proof fn lemma_byte_len_take(s: Seq<char>, n: int)
    requires
        0 <= n <= s.len(),
    ensures
        byte_len(s.take(n)) >= n,
{
    lemma_byte_len_ge(s.take(n));
}

/// A character of three or more bytes makes the bytes outnumber the
/// characters by at least two.
proof fn lemma_byte_len_wide(s: Seq<char>, i: int)
    requires
        0 <= i < s.len(),
        utf8_width(s[i]) >= 3,
    ensures
        byte_len(s) >= s.len() + 2,
{
    let a = s.take(i);
    let b = s.skip(i + 1);
    assert(s =~= a + seq![s[i]] + b);
    lemma_byte_len_concat(a + seq![s[i]], b);
    lemma_byte_len_concat(a, seq![s[i]]);
    assert(seq![s[i]].drop_last() =~= Seq::<char>::empty());
    lemma_byte_len_ge(a);
    lemma_byte_len_ge(b);
}

proof fn lemma_byte_len_space_around(t: Seq<char>)
    ensures
        byte_len(seq![' '] + t + seq![' ']) == byte_len(t) + 2,
{
    lemma_byte_len_concat(seq![' '] + t, seq![' ']);
    lemma_byte_len_concat(seq![' '], t);
    assert(seq![' '].drop_last() =~= Seq::<char>::empty());
    assert(byte_len(Seq::<char>::empty()) == 0);
    assert(utf8_width(' ') == 1);
    assert(byte_len(seq![' ']) == 1);
}

fn clip_chars(s: &Vec<char>, nbytes: usize, max: usize) -> (r: Vec<char>)
    requires
        nbytes == saturated(byte_len(s@)),
    ensures
        r@ == clip(s@, max as nat),
{
    if nbytes <= max {
        subvec(s, 0, s.len())
    } else if max <= s.len() {
        subvec(s, 0, max)
    } else {
        subvec(s, 0, s.len())
    }
}

fn pad_right_chars(s: &Vec<char>, nbytes: usize, width: usize) -> (r: Vec<char>)
    requires
        nbytes == saturated(byte_len(s@)),
    ensures
        r@ == pad_right(s@, width as nat),
{
    if nbytes >= width {
        if width <= s.len() {
            subvec(s, 0, width)
        } else {
            subvec(s, 0, s.len())
        }
    } else {
        let mut r = subvec(s, 0, s.len());
        push_repeat(&mut r, ' ', width - nbytes);
        r
    }
}

fn align_right_chars(s: &Vec<char>, width: usize) -> (r: Vec<char>)
    ensures
        r@ == align_right(s@, width as nat),
{
    if s.len() < width {
        let mut r: Vec<char> = Vec::new();
        push_repeat(&mut r, ' ', width - s.len());
        append_all(&mut r, s);
        r
    } else {
        subvec(s, 0, s.len())
    }
}

fn framed_chars(inner: &Vec<char>) -> (r: Vec<char>)
    ensures
        r@ == framed(inner@),
{
    let mut r: Vec<char> = Vec::new();
    r.push('│');
    append_all(&mut r, inner);
    r.push('│');
    r
}

fn rule_chars(l: char, rc: char, w: usize) -> (r: Vec<char>)
    ensures
        r@ == rule(l, rc, w as nat),
{
    let mut r: Vec<char> = Vec::new();
    r.push(l);
    push_repeat(&mut r, '─', w);
    r.push(rc);
    r
}

fn blank_row_chars(tw: usize) -> (r: Vec<char>)
    ensures
        r@ == blank_row(tw as nat),
{
    let mut inner: Vec<char> = Vec::new();
    push_repeat(&mut inner, ' ', tw);
    framed_chars(&inner)
}

fn label_width_exec(secs: &Vec<GanttSection>) -> (w: usize)
    ensures
        w == label_width(secs@),
{
    let mut a: Option<usize> = None;
    let mut i: usize = 0;
    while i < secs.len()
        invariant
            i <= secs.len(),
            nat_opt(a) == longest_task_label(secs@.take(i as int)),
        decreases secs.len() - i,
    {
        let tasks = &secs[i].tasks;
        let ghost before = longest_task_label(secs@.take(i as int));
        let ghost lens = task_label_lens(tasks@);
        let mut j: usize = 0;
        while j < tasks.len()
            invariant
                j <= tasks.len(),
                lens == task_label_lens(tasks@),
                nat_opt(a) == opt_max(before, max_of(lens.take(j as int))),
            decreases tasks.len() - j,
        {
            let n = str_byte_len(&tasks[j].label);
            proof {
                lemma_max_of_push(lens, j as int);
                lemma_opt_max_assoc(before, max_of(lens.take(j as int)), Some(n as nat));
            }
            a = max_into(a, n);
            j = j + 1;
        }
        proof {
            assert(lens.take(tasks.len() as int) =~= lens);
            assert(secs@.take(i + 1).drop_last() =~= secs@.take(i as int));
        }
        i = i + 1;
    }
    assert(secs@.take(secs.len() as int) =~= secs@);
    let ghost names = secs@.map_values(|s: GanttSection| byte_len(s.name@));
    let mut b: Option<usize> = None;
    let mut k: usize = 0;
    while k < secs.len()
        invariant
            k <= secs.len(),
            names == secs@.map_values(|s: GanttSection| byte_len(s.name@)),
            nat_opt(b) == max_of(names.take(k as int)),
        decreases secs.len() - k,
    {
        let n = str_byte_len(&secs[k].name);
        proof {
            lemma_max_of_push(names, k as int);
        }
        b = max_into(b, n);
        k = k + 1;
    }
    assert(names.take(secs.len() as int) =~= names);
    let av: usize = match a {
        Some(x) => x,
        None => 8,
    };
    let bv: usize = match b {
        Some(x) => x,
        None => 6,
    };
    let m = if av >= bv { av } else { bv };
    if m >= 26 {
        28
    } else {
        m + 2
    }
}


fn fill_exec(st: TaskStatus) -> (c: char)
    ensures
        c == fill_of(st),
{
    match st {
        TaskStatus::Done => '▓',
        TaskStatus::Active => '█',
        TaskStatus::Crit => '▒',
        TaskStatus::Normal => '░',
        TaskStatus::Milestone => '◆',
    }
}

/// The bar alone fills the cell of a task row: every fill character takes
/// three bytes, so the cell is cut before the dates.
proof fn lemma_bar_fills_cell(t: GanttTask, raw: (usize, usize), lw: nat)
    ensures
        task_row(t, raw, lw) == framed(
            align_right(clip(t.label@, lw), lw) + seq![' '] + bar_line(
                bar_start(raw.0),
                bar_len(raw),
                fill_of(t.status),
            ),
        ),
{
    let bar = bar_line(bar_start(raw.0), bar_len(raw), fill_of(t.status));
    let dates = date_text(t.start_day as int) + seq!['—'] + date_text(t.start_day + t.duration_days);
    let whole = bar + seq![' '] + dates;
    let i = bar_start(raw.0);
    assert(bar[i] == fill_of(t.status));
    assert(utf8_width(fill_of(t.status)) == 3);
    lemma_byte_len_wide(bar, i);
    lemma_byte_len_concat(bar, seq![' ']);
    lemma_byte_len_concat(bar + seq![' '], dates);
    let tw = inner_width(lw);
    assert((tw - (lw + 1)) as nat == 60);
    assert(whole.take(60) =~= bar);
    assert(clip(whole, 60) == bar);
    assert(bar.take(60) =~= bar);
    assert(pad_right(bar, 60) == bar);
}

fn task_row_exec(t: &GanttTask, raw: (usize, usize), lw: usize) -> (r: Vec<char>)
    requires
        lw <= 28,
    ensures
        r@ == task_row(*t, raw, lw as nat),
{
    let label_chars = chars_of(t.label.as_str());
    let nb = str_byte_len(&t.label);
    let clipped = clip_chars(&label_chars, nb, lw);
    let label = align_right_chars(&clipped, lw);
    let start: usize = if raw.0 < 59 { raw.0 } else { 59 };
    let len0: usize = if raw.1 > 1 { raw.1 } else { 1 };
    let len: usize = if len0 < BAR_WIDTH - start { len0 } else { BAR_WIDTH - start };
    let fill = fill_exec(t.status);
    let mut inner = label;
    inner.push(' ');
    let ghost head = inner@;
    let mut i: usize = 0;
    while i < BAR_WIDTH
        invariant
            i <= BAR_WIDTH,
            start <= 59,
            start + len <= BAR_WIDTH,
            inner@ == head + bar_line(start as int, len as int, fill).take(i as int),
        decreases BAR_WIDTH - i,
    {
        if start <= i && i < start + len {
            inner.push(fill);
        } else {
            inner.push(' ');
        }
        proof {
            assert(bar_line(start as int, len as int, fill).take(i + 1) =~= bar_line(
                start as int,
                len as int,
                fill,
            ).take(i as int).push(bar_line(start as int, len as int, fill)[i as int]));
        }
        i = i + 1;
    }
    proof {
        assert(bar_line(start as int, len as int, fill).take(60) =~= bar_line(start as int, len as int, fill));
        lemma_bar_fills_cell(*t, raw, lw as nat);
    }
    framed_chars(&inner)
}

fn header_row_exec(sec: &GanttSection, tw: usize) -> (r: Vec<char>)
    requires
        tw >= 5,
        sec.name@.len() > 0,
    ensures
        header_rows(*sec, tw as nat) == seq![r@],
{
    let mut hdr: Vec<char> = Vec::new();
    hdr.push(' ');
    hdr.push('▸');
    hdr.push(' ');
    let ghost pre = hdr@;
    append_all(&mut hdr, &chars_of(sec.name.as_str()));
    let nb = str_byte_len(&sec.name);
    proof {
        assert(pre =~= seq![' ', '▸', ' ']);
        lemma_byte_len_concat(pre, sec.name@);
        assert(seq![' '].drop_last() =~= Seq::<char>::empty());
        assert(seq![' ', '▸'].drop_last() =~= seq![' ']);
        assert(pre.drop_last() =~= seq![' ', '▸']);
        assert(byte_len(Seq::<char>::empty()) == 0);
        assert(utf8_width(' ') == 1);
        assert(utf8_width('▸') == 3);
        assert(byte_len(seq![' ']) == 1);
        assert(byte_len(seq![' ', '▸']) == 4);
        assert(byte_len(pre) == 5);
    }
    let nbytes: usize = if nb <= usize::MAX - 5 { nb + 5 } else { usize::MAX };
    framed_chars(&pad_right_chars(&hdr, nbytes, tw))
}

fn axis_row_exec(lw: usize) -> (r: Vec<char>)
    ensures
        r@ == axis_row(lw as nat),
{
    let mut inner: Vec<char> = Vec::new();
    push_repeat(&mut inner, ' ', lw);
    inner.push(' ');
    inner.push('├');
    let ghost head = inner@;
    let ghost ticks = Seq::new(BAR_WIDTH as nat, |i: int| if i > 0 && i % 10 == 0 { '┼' } else { '─' });
    let mut i: usize = 0;
    while i < BAR_WIDTH
        invariant
            i <= BAR_WIDTH,
            ticks == Seq::new(BAR_WIDTH as nat, |i: int| if i > 0 && i % 10 == 0 { '┼' } else { '─' }),
            inner@ == head + ticks.take(i as int),
        decreases BAR_WIDTH - i,
    {
        if i > 0 && i % 10 == 0 {
            inner.push('┼');
        } else {
            inner.push('─');
        }
        assert(ticks.take(i + 1) =~= ticks.take(i as int).push(ticks[i as int]));
        i = i + 1;
    }
    assert(ticks.take(60) =~= ticks);
    assert(head =~= repeat(' ', lw as nat) + seq![' ', '├']);
    framed_chars(&inner)
}


fn title_row_exec(title: &String, tw: usize) -> (r: Vec<char>)
    requires
        tw >= 2,
    ensures
        title_rows(Some(*title), tw as nat) == seq![r@, blank_row(tw as nat)],
{
    let mut t: Vec<char> = Vec::new();
    t.push(' ');
    append_all(&mut t, &chars_of(title.as_str()));
    t.push(' ');
    let nb = str_byte_len(title);
    proof {
        assert(t@ =~= seq![' '] + title@ + seq![' ']);
        lemma_byte_len_space_around(title@);
    }
    let nbytes: usize = if nb <= usize::MAX - 2 { nb + 2 } else { usize::MAX };
    let clipped = clip_chars(&t, nbytes, tw);
    let pad: usize = if nbytes < tw { tw - nbytes } else { 0 };
    proof {
        let want: nat = if byte_len(clipped@) < tw { (tw - byte_len(clipped@)) as nat } else { 0 };
        if tw <= t@.len() {
            lemma_byte_len_take(t@, tw as int);
        }
        if nbytes < tw {
            assert(clipped@ == t@);
            assert(byte_len(clipped@) == nbytes);
        } else {
            assert(byte_len(t@) >= tw);
            assert(byte_len(clipped@) >= tw);
        }
        assert(pad == want);
    }
    let mut inner: Vec<char> = Vec::new();
    push_repeat(&mut inner, ' ', pad / 2);
    append_all(&mut inner, &clipped);
    push_repeat(&mut inner, ' ', pad - pad / 2);
    framed_chars(&inner)
}

pub open spec fn is_ascii(s: Seq<char>) -> bool {
    forall|i: int| 0 <= i < s.len() ==> (#[trigger] s[i] as u32) <= 0x7F
}

proof fn lemma_fmt_zero_pad_ascii(n: int, w: nat)
    ensures
        is_ascii(fmt_zero_pad(n, w)),
{
    let mag: nat = if n < 0 { (-n) as nat } else { n as nat };
    lemma_decimal_ascii(mag);
    let sign: Seq<char> = if n < 0 { seq!['-'] } else { Seq::empty() };
    let digits = decimal(mag);
    let fill: int = w - sign.len() - digits.len();
    let zeros = repeat('0', if fill > 0 { fill as nat } else { 0 });
    assert(is_ascii(sign));
    assert(is_ascii(zeros));
    assert(is_ascii(digits));
    assert(is_ascii(sign + zeros + digits));
}

proof fn lemma_date_text_ascii(off: int)
    ensures
        is_ascii(date_text(off)),
{
    let (y, rem) = year_of_day(off);
    let (m, r2) = month_walk(y, rem, 1);
    lemma_fmt_zero_pad_ascii(y, 4);
    lemma_fmt_zero_pad_ascii(m, 2);
    lemma_fmt_zero_pad_ascii(r2 + 1, 2);
    let a = fmt_zero_pad(y, 4);
    let b = fmt_zero_pad(m, 2);
    let c = fmt_zero_pad(r2 + 1, 2);
    assert(is_ascii(a + seq!['-']));
    assert(is_ascii(a + seq!['-'] + b));
    assert(is_ascii(a + seq!['-'] + b + seq!['-']));
    assert(is_ascii(a + seq!['-'] + b + seq!['-'] + c));
}

fn place_date_exec(line: &mut Vec<char>, ds: &Vec<char>, k: usize)
    requires
        k < 4,
        is_ascii(old(line)@),
        is_ascii(ds@),
    ensures
        final(line)@ == place_date(old(line)@, ds@, k as int),
        is_ascii(final(line)@),
{
    proof {
        lemma_byte_len_ascii(ds@);
        lemma_byte_len_ascii(line@);
    }
    let n = ds.len();
    let quarter: usize = BAR_WIDTH / 4;
    let c: usize = k * quarter + (if n < quarter { quarter - n } else { 0 }) / 2;
    let last: usize = if n < BAR_WIDTH { BAR_WIDTH - n } else { 0 };
    let col: usize = if c < last { c } else { last };
    assert(col == date_col(k as int, byte_len(ds@)));
    if line.len() < col {
        let gap = col - line.len();
        push_repeat(line, ' ', gap);
    }
    proof {
        assert(is_ascii(line@));
        lemma_byte_len_ascii(line@);
    }
    if line.len() == col {
        append_all(line, ds);
    }
    proof {
        assert(is_ascii(line@));
    }
}

fn date_row_exec(min_day: i64, offsets: &Vec<i64>, lw: usize) -> (r: Vec<char>)
    requires
        offsets@.len() == 4,
        forall|k: int| 0 <= k < 4 ==> FIRST_RENDERABLE_DAY <= min_day + #[trigger] offsets@[k] <= LAST_RENDERABLE_DAY,
    ensures
        r@ == framed(repeat(' ', lw as nat) + seq![' '] + date_line(min_day as int, offsets@)),
{
    let mut line: Vec<char> = Vec::new();
    let mut k: usize = 0;
    while k < 4
        invariant
            k <= 4,
            offsets@.len() == 4,
            forall|k: int| 0 <= k < 4 ==> FIRST_RENDERABLE_DAY <= min_day + #[trigger] offsets@[k] <= LAST_RENDERABLE_DAY,
            line@ == date_line_upto(min_day as int, offsets@, k as nat),
            is_ascii(line@),
        decreases 4 - k,
    {
        assert(FIRST_RENDERABLE_DAY <= min_day + offsets@[k as int] <= LAST_RENDERABLE_DAY);
        let day: i64 = min_day + offsets[k];
        let ds = date_chars(day);
        proof {
            lemma_date_text_ascii(day as int);
        }
        place_date_exec(&mut line, &ds, k);
        k = k + 1;
    }
    proof {
        lemma_byte_len_ascii(line@);
    }
    if line.len() < BAR_WIDTH {
        let gap = BAR_WIDTH - line.len();
        push_repeat(&mut line, ' ', gap);
    }
    let mut inner: Vec<char> = Vec::new();
    push_repeat(&mut inner, ' ', lw);
    inner.push(' ');
    append_all(&mut inner, &line);
    framed_chars(&inner)
}


/// Renders a Gantt chart as box-drawing text.
pub struct GanttRenderer;

impl GanttRenderer {
    pub fn new() -> (r: GanttRenderer) {
        GanttRenderer
    }

    /// The renderer's name.
    pub fn name(&self) -> (r: &'static str)
        ensures
            r@ == "gantt-ascii"@,
    {
        "gantt-ascii"
    }

    pub fn version(&self) -> (r: &'static str)
        ensures
            r@ == "0.1.0"@,
    {
        "0.1.0"
    }

    /// The output format: plain text.
    pub fn format(&self) -> (r: &'static str)
        ensures
            r@ == "ascii"@,
    {
        "ascii"
    }

    /// The chart: a frame, the title, per section a header, a row per task
    /// with its bar, and a blank row, then the time axis and four dates.
    /// Where the bars and dates fall comes from `scale`.
    pub fn render(&self, db: &GanttDatabase, scale: &GanttScale) -> (r: Result<String, DiagramError>)
        requires
            scale_fits(*db, *scale),
        ensures
            r matches Ok(s) && s@ == chart_text(*db, *scale),
    {
        let lw = label_width_exec(&db.sections);
        let tw = lw + 1 + BAR_WIDTH;
        let mut rows: Vec<Vec<char>> = Vec::new();
        rows.push(rule_chars('┌', '┐', tw));
        match &db.title {
            Some(t) => {
                rows.push(title_row_exec(t, tw));
                rows.push(blank_row_chars(tw));
            },
            None => {},
        }
        let ghost secs = db.sections@;
        let ghost bars = scale.bars@;
        let ghost head = views(rows@);
        assert(head =~= seq![rule('┌', '┐', tw as nat)] + title_rows(db.title, tw as nat));
        let mut i: usize = 0;
        while i < db.sections.len()
            invariant
                i <= secs.len(),
                secs == db.sections@,
                bars == scale.bars@,
                scale_fits(*db, *scale),
                lw == label_width(secs),
                tw == inner_width(lw as nat),
                lw <= 28,
                views(rows@) == head + body_rows(secs.take(i as int), bars, lw as nat),
            decreases secs.len() - i,
        {
            let sec = &db.sections[i];
            let raws = &scale.bars[i];
            assert(raws@.len() == sec.tasks@.len());
            let ghost before = views(rows@);
            let nb = str_byte_len(&sec.name);
            proof {
                lemma_byte_len_ge(sec.name@);
            }
            if nb != 0 {
                rows.push(header_row_exec(sec, tw));
            }
            let ghost with_header = views(rows@);
            assert(with_header =~= before + header_rows(*sec, tw as nat));
            let mut j: usize = 0;
            while j < sec.tasks.len()
                invariant
                    j <= sec.tasks@.len(),
                    raws@.len() == sec.tasks@.len(),
                    lw <= 28,
                    views(rows@) == with_header + task_rows(sec.tasks@.take(j as int), raws@, lw as nat),
                decreases sec.tasks@.len() - j,
            {
                let row = task_row_exec(&sec.tasks[j], raws[j], lw);
                let ghost prev = rows@;
                rows.push(row);
                proof {
                    assert(task_rows(sec.tasks@.take(j + 1), raws@, lw as nat) =~= task_rows(
                        sec.tasks@.take(j as int),
                        raws@,
                        lw as nat,
                    ).push(row@));
                    assert(rows@ == prev.push(row));
                    assert(views(rows@) =~= views(prev).push(row@));
                }
                j = j + 1;
            }
            let ghost prev = rows@;
            let blank = blank_row_chars(tw);
            rows.push(blank);
            proof {
                assert(views(rows@) =~= views(prev).push(blank@));
                assert(sec.tasks@.take(sec.tasks@.len() as int) =~= sec.tasks@);
                assert(views(rows@) =~= before + section_rows(secs[i as int], bars[i as int]@, lw as nat));
                assert(secs.take(i + 1).drop_last() =~= secs.take(i as int));
                assert(secs.take(i + 1).last() == secs[i as int]);
                assert(body_rows(secs.take(i + 1), bars, lw as nat) == body_rows(secs.take(i as int), bars, lw as nat)
                    + section_rows(secs[i as int], bars[i as int]@, lw as nat));
                assert(views(rows@) =~= head + body_rows(secs.take(i + 1), bars, lw as nat));
            }
            i = i + 1;
        }
        assert(secs.take(secs.len() as int) =~= secs);
        rows.push(axis_row_exec(lw));
        rows.push(date_row_exec(db.min_day, &scale.axis_offsets, lw));
        rows.push(rule_chars('└', '┘', tw));
        assert(views(rows@) =~= chart_rows(*db, *scale));
        let out = join_rows(&rows);
        Ok(string_of(&out))
    }
}

impl Default for GanttRenderer {
    fn default() -> (r: GanttRenderer) {
        GanttRenderer::new()
    }
}

} // verus!
