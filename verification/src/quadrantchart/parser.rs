//! Quadrant chart parser.
use vstd::prelude::*;

use super::database::{PointView, QuadrantChartDatabase, QuadrantPoint, QuadrantView};
use crate::diagram::{DiagramError, LineFault};
use crate::text::{
    chars_of, find, find_exec, float_literal, is_float_literal, lemma_split_len, lower, split, split_char, starts_with, starts_with_exec,
    string_of, subvec, to_lower, trim, trim_chars, trim_matches, trim_matches_chars, views,
};

verus! {

/// The low and high ends of an axis line after `x-axis ` or `y-axis `: the
/// text around the first `-->`, or else around the first `->`, trimmed.
pub open spec fn axis_split(rest: Seq<char>) -> Option<(Seq<char>, Seq<char>)> {
    match find(rest, "-->"@) {
        Some(i) => Some((trim(rest.take(i)), trim(rest.skip(i + 3)))),
        None => match find(rest, "->"@) {
            Some(i) => Some((trim(rest.take(i)), trim(rest.skip(i + 2)))),
            None => None,
        },
    }
}

/// Which `quadrant-N` label line (N from 1 to 4) a lower-cased line starts.
pub open spec fn quadrant_number(low: Seq<char>) -> Option<int> {
    if starts_with(low, "quadrant-1"@) {
        Some(1)
    } else if starts_with(low, "quadrant-2"@) {
        Some(2)
    } else if starts_with(low, "quadrant-3"@) {
        Some(3)
    } else if starts_with(low, "quadrant-4"@) {
        Some(4)
    } else {
        None
    }
}

/// A line names quadrant N (1 to 4) exactly when it starts with
/// `quadrant-` and the digit N.
pub proof fn lemma_quadrant_number(low: Seq<char>)
    ensures
        quadrant_number(low) == if low.len() >= 10 && low.take(9) == "quadrant-"@ && '1' <= low[9]
            <= '4' {
            Some(low[9] as int - '0' as int)
        } else {
            None::<int>
        },
{
    reveal_strlit("quadrant-");
    reveal_strlit("quadrant-1");
    reveal_strlit("quadrant-2");
    reveal_strlit("quadrant-3");
    reveal_strlit("quadrant-4");
    if low.len() >= 10 {
        let h = low.subrange(0, 10);
        assert(h.take(9) =~= low.take(9));
        assert(h[9] == low[9]);
        assert("quadrant-1"@ =~= "quadrant-"@.push('1'));
        assert("quadrant-2"@ =~= "quadrant-"@.push('2'));
        assert("quadrant-3"@ =~= "quadrant-"@.push('3'));
        assert("quadrant-4"@ =~= "quadrant-"@.push('4'));
        assert(h =~= h.take(9).push(h[9]));
        if h.take(9) == "quadrant-"@ {
            assert(h =~= "quadrant-"@.push(h[9]));
            if h[9] == '1' {
                assert(h =~= "quadrant-1"@);
            } else if h[9] == '2' {
                assert(h =~= "quadrant-2"@);
            } else if h[9] == '3' {
                assert(h =~= "quadrant-3"@);
            } else if h[9] == '4' {
                assert(h =~= "quadrant-4"@);
            } else {
                assert(h != "quadrant-1"@ && h != "quadrant-2"@ && h != "quadrant-3"@ && h != "quadrant-4"@);
                assert(!('1' <= h[9] <= '4'));
            }
        } else {
            assert("quadrant-1"@.take(9) =~= "quadrant-"@);
            assert("quadrant-2"@.take(9) =~= "quadrant-"@);
            assert("quadrant-3"@.take(9) =~= "quadrant-"@);
            assert("quadrant-4"@.take(9) =~= "quadrant-"@);
        }
    }
}

/// A quadrant label without surrounding double quotes, then single quotes.
pub open spec fn unquote(s: Seq<char>) -> Seq<char> {
    trim_matches(trim_matches(s, '"'), '\'')
}

/// A point line `"label": [x, y]` (or with single quotes) whose coordinates
/// both read as numbers: its label and its two coordinates as written,
/// trimmed.
pub open spec fn point_shape(t: Seq<char>) -> Option<PointView> {
    if t.len() > 0 && (t[0] == '"' || t[0] == '\'') {
        let rest = t.drop_first();
        match find(rest, seq![t[0]]) {
            None => None,
            Some(end) => {
                let label = rest.take(end);
                let a1 = trim(rest.skip(end + 1));
                if a1.len() > 0 && a1[0] == ':' {
                    let a2 = trim(a1.drop_first());
                    if a2.len() > 0 && a2[0] == '[' {
                        let a3 = trim(a2.drop_first());
                        if a3.len() > 0 && a3.last() == ']' {
                            let a4 = trim(a3.drop_last());
                            match find(a4, seq![',']) {
                                None => None,
                                Some(c) => {
                                    let x = trim(a4.take(c));
                                    let y = trim(a4.skip(c + 1));
                                    if float_literal(x) && float_literal(y) {
                                        Some((label, x, y))
                                    } else {
                                        None
                                    }
                                },
                            }
                        } else {
                            None
                        }
                    } else {
                        None
                    }
                } else {
                    None
                }
            },
        }
    } else {
        None
    }
}

pub open spec fn with_title(st: QuadrantView, t: Seq<char>) -> QuadrantView {
    QuadrantView { title: Some(t), ..st }
}

pub open spec fn with_x_axis(st: QuadrantView, lo: Seq<char>, hi: Seq<char>) -> QuadrantView {
    QuadrantView { x_axis_low: lo, x_axis_high: hi, ..st }
}

pub open spec fn with_y_axis(st: QuadrantView, lo: Seq<char>, hi: Seq<char>) -> QuadrantView {
    QuadrantView { y_axis_low: lo, y_axis_high: hi, ..st }
}

pub open spec fn with_label(st: QuadrantView, i: int, l: Seq<char>) -> QuadrantView {
    QuadrantView { quadrant_labels: st.quadrant_labels.update(i, l), ..st }
}

pub open spec fn with_point(st: QuadrantView, p: PointView) -> QuadrantView {
    QuadrantView { points: st.points.push(p), ..st }
}

/// One trimmed, non-empty line after the header: a title, an axis, a
/// quadrant label, a point, or anything else, which is skipped. `None` when
/// an axis line has no arrow.
pub open spec fn line_step(st: QuadrantView, t: Seq<char>) -> Option<QuadrantView> {
    let low = lower(t);
    if starts_with(low, "title "@) {
        Some(with_title(st, trim(t.skip(6))))
    } else if starts_with(low, "x-axis "@) {
        match axis_split(t.skip(7)) {
            Some((lo, hi)) => Some(with_x_axis(st, lo, hi)),
            None => None,
        }
    } else if starts_with(low, "y-axis "@) {
        match axis_split(t.skip(7)) {
            Some((lo, hi)) => Some(with_y_axis(st, lo, hi)),
            None => None,
        }
    } else {
        match quadrant_number(low) {
            Some(n) => Some(with_label(st, n - 1, unquote(trim(t.skip(10))))),
            None => match point_shape(t) {
                Some(p) => Some(with_point(st, p)),
                None => Some(st),
            },
        }
    }
}

/// A line `quadrant-N label` (N from 1 to 4, any case) sets the title of
/// quadrant N, at index N - 1, to the label without its quotes, and leaves
/// the other three titles and everything else as they were.
pub proof fn lemma_quadrant_label_line(st: QuadrantView, t: Seq<char>)
    requires
        st.quadrant_labels.len() == 4,
        t.len() >= 10,
        lower(t).take(9) == "quadrant-"@,
        '1' <= t[9] <= '4',
    ensures
        line_step(st, t) is Some,
        ({
            let r = line_step(st, t).unwrap();
            let n = t[9] as int - '0' as int;
            &&& r.quadrant_labels.len() == 4
            &&& r.quadrant_labels[n - 1] == unquote(trim(t.skip(10)))
            &&& forall|k: int| 0 <= k < 4 && k != n - 1 ==> #[trigger] r.quadrant_labels[k] == st.quadrant_labels[k]
            &&& r.title == st.title
            &&& r.x_axis_low == st.x_axis_low && r.x_axis_high == st.x_axis_high
            &&& r.y_axis_low == st.y_axis_low && r.y_axis_high == st.y_axis_high
            &&& r.points == st.points
        }),
{
    let low = lower(t);
    reveal_strlit("quadrant-");
    reveal_strlit("title ");
    reveal_strlit("x-axis ");
    reveal_strlit("y-axis ");
    assert(low[0] == low.take(9)[0]);
    assert(low[0] == 'q');
    assert(!starts_with(low, "title "@));
    assert(!starts_with(low, "x-axis "@));
    assert(!starts_with(low, "y-axis "@));
    assert(low[9] == t[9]);
    lemma_quadrant_number(low);
}

/// What is wrong with a line that `line_step` refuses: the axis it sets has
/// no arrow.
pub open spec fn line_fault(t: Seq<char>) -> LineFault {
    if starts_with(lower(t), "x-axis "@) {
        LineFault::XAxisFormat
    } else {
        LineFault::YAxisFormat
    }
}

/// Reading a chart: it ends with the final content, or fails at a line,
/// with the content read before that line.
pub enum QuadrantRead {
    Done(QuadrantView),
    Failed(QuadrantView, Seq<char>),
}

/// The lines `1..k` read from `st0` (line 0 is the header); empty lines are
/// skipped and the first bad line stops the reading.
pub open spec fn read_lines(lines: Seq<Seq<char>>, st0: QuadrantView, k: int) -> QuadrantRead
    decreases k,
{
    if k <= 1 {
        QuadrantRead::Done(st0)
    } else {
        match read_lines(lines, st0, k - 1) {
            QuadrantRead::Failed(s, l) => QuadrantRead::Failed(s, l),
            QuadrantRead::Done(s) => {
                let t = trim(lines[k - 1]);
                if t.len() == 0 {
                    QuadrantRead::Done(s)
                } else {
                    match line_step(s, t) {
                        Some(s2) => QuadrantRead::Done(s2),
                        None => QuadrantRead::Failed(s, t),
                    }
                }
            },
        }
    }
}

/// The first line, trimmed and lower-cased, starts with `quadrantchart` or
/// `quadrant chart`.
pub open spec fn quadrant_header(input: Seq<char>) -> bool {
    let low = lower(trim(split(input, '\n')[0]));
    starts_with(low, "quadrantchart"@) || starts_with(low, "quadrant chart"@)
}

/// The whole input read into a database that held `st0`.
pub open spec fn read_chart(input: Seq<char>, st0: QuadrantView) -> QuadrantRead {
    let lines = split(input, '\n');
    read_lines(lines, st0, lines.len() as int)
}

pub proof fn lemma_failed_stays(lines: Seq<Seq<char>>, st0: QuadrantView, k: int, m: int)
    requires
        k <= m,
        read_lines(lines, st0, k) is Failed,
    ensures
        read_lines(lines, st0, m) == read_lines(lines, st0, k),
    decreases m - k,
{
    if k < m {
        lemma_failed_stays(lines, st0, k, m - 1);
    }
}

fn axis_split_exec(rest: &Vec<char>) -> (r: Option<(Vec<char>, Vec<char>)>)
    ensures
        match r {
            Some((lo, hi)) => axis_split(rest@) == Some((lo@, hi@)),
            None => axis_split(rest@) is None,
        },
{
    let long = chars_of("-->");
    let short = chars_of("->");
    proof {
        reveal_strlit("-->");
        reveal_strlit("->");
        assert(long@.len() == 3);
        assert(short@.len() == 2);
        crate::text::lemma_find_from(rest@, long@, 0);
        crate::text::lemma_find_from(rest@, short@, 0);
    }
    match find_exec(rest, &long) {
        Some(i) => {
            assert(crate::text::occurs_at(rest@, long@, i as int));
            assert(i + 3 <= rest.len());
            let lo = trim_chars(&subvec(rest, 0, i));
            let hi = trim_chars(&subvec(rest, i + 3, rest.len()));
            proof {
                assert(rest@.subrange(0, i as int) =~= rest@.take(i as int));
                assert(rest@.subrange(i + 3, rest@.len() as int) =~= rest@.skip(i + 3));
            }
            Some((lo, hi))
        },
        None => match find_exec(rest, &short) {
            Some(i) => {
                assert(crate::text::occurs_at(rest@, short@, i as int));
                assert(i + 2 <= rest.len());
                let lo = trim_chars(&subvec(rest, 0, i));
                let hi = trim_chars(&subvec(rest, i + 2, rest.len()));
                proof {
                    assert(rest@.subrange(0, i as int) =~= rest@.take(i as int));
                    assert(rest@.subrange(i + 2, rest@.len() as int) =~= rest@.skip(i + 2));
                }
                Some((lo, hi))
            },
            None => None,
        },
    }
}

fn quadrant_number_exec(low: &Vec<char>) -> (r: Option<usize>)
    ensures
        match r {
            Some(n) => quadrant_number(low@) == Some(n as int),
            None => quadrant_number(low@) is None,
        },
{
    if starts_with_exec(low, &chars_of("quadrant-1")) {
        Some(1)
    } else if starts_with_exec(low, &chars_of("quadrant-2")) {
        Some(2)
    } else if starts_with_exec(low, &chars_of("quadrant-3")) {
        Some(3)
    } else if starts_with_exec(low, &chars_of("quadrant-4")) {
        Some(4)
    } else {
        None
    }
}


/// Drops the first character and trims; `None` unless `s` starts with `c`.
fn strip_first_trim(s: &Vec<char>, c: char) -> (r: Option<Vec<char>>)
    ensures
        match r {
            Some(v) => s@.len() > 0 && s@[0] == c && v@ == trim(s@.drop_first()),
            None => !(s@.len() > 0 && s@[0] == c),
        },
{
    if s.len() > 0 && s[0] == c {
        let v = trim_chars(&subvec(s, 1, s.len()));
        assert(s@.subrange(1, s@.len() as int) =~= s@.drop_first());
        Some(v)
    } else {
        None
    }
}

fn parse_point(t: &Vec<char>) -> (r: Option<(Vec<char>, Vec<char>, Vec<char>)>)
    ensures
        match r {
            Some((a, b, c)) => point_shape(t@) == Some((a@, b@, c@)),
            None => point_shape(t@) is None,
        },
{
    if t.len() == 0 || (t[0] != '"' && t[0] != '\'') {
        return None;
    }
    let q = t[0];
    let rest = subvec(t, 1, t.len());
    assert(rest@ =~= t@.drop_first());
    let mut qv: Vec<char> = Vec::new();
    qv.push(q);
    assert(qv@ =~= seq![t@[0]]);
    let end = match find_exec(&rest, &qv) {
        None => return None,
        Some(e) => e,
    };
    proof {
        crate::text::lemma_find_from(rest@, qv@, 0);
        assert(crate::text::occurs_at(rest@, qv@, end as int));
    }
    let label = subvec(&rest, 0, end);
    assert(label@ =~= rest@.take(end as int));
    let a1 = trim_chars(&subvec(&rest, end + 1, rest.len()));
    assert(rest@.subrange(end + 1, rest@.len() as int) =~= rest@.skip(end + 1));
    let a2 = match strip_first_trim(&a1, ':') {
        None => return None,
        Some(v) => v,
    };
    let a3 = match strip_first_trim(&a2, '[') {
        None => return None,
        Some(v) => v,
    };
    if a3.len() == 0 || a3[a3.len() - 1] != ']' {
        return None;
    }
    let a4 = trim_chars(&subvec(&a3, 0, a3.len() - 1));
    assert(a3@.subrange(0, a3@.len() - 1) =~= a3@.drop_last());
    let mut comma: Vec<char> = Vec::new();
    comma.push(',');
    assert(comma@ =~= seq![',']);
    let c = match find_exec(&a4, &comma) {
        None => return None,
        Some(c) => c,
    };
    proof {
        crate::text::lemma_find_from(a4@, comma@, 0);
        assert(crate::text::occurs_at(a4@, comma@, c as int));
    }
    let x = trim_chars(&subvec(&a4, 0, c));
    let y = trim_chars(&subvec(&a4, c + 1, a4.len()));
    assert(a4@.subrange(0, c as int) =~= a4@.take(c as int));
    assert(a4@.subrange(c + 1, a4@.len() as int) =~= a4@.skip(c + 1));
    if !is_float_literal(&x) || !is_float_literal(&y) {
        return None;
    }
    Some((label, x, y))
}

pub struct QuadrantChartParser;

impl QuadrantChartParser {
    pub fn new() -> (p: QuadrantChartParser) {
        QuadrantChartParser
    }

    /// Applies one trimmed, non-empty line; on `Err` the database is left
    /// as it was.
    fn parse_line(&self, t: &Vec<char>, db: &mut QuadrantChartDatabase) -> (r: Result<(), LineFault>)
        ensures
            match line_step(old(db)@, t@) {
                Some(s) => r is Ok && final(db)@ == s,
                None => r == Err::<(), LineFault>(line_fault(t@)) && final(db)@ == old(db)@,
            },
    {
        let low = to_lower(t);
        proof {
            reveal_strlit("title ");
            reveal_strlit("x-axis ");
            reveal_strlit("y-axis ");
        }
        if starts_with_exec(&low, &chars_of("title ")) {
            let v = trim_chars(&subvec(t, 6, t.len()));
            assert(t@.subrange(6, t@.len() as int) =~= t@.skip(6));
            db.title = Some(string_of(&v));
            assert(db@ =~= with_title(old(db)@, v@));
            return Ok(());
        }
        if starts_with_exec(&low, &chars_of("x-axis ")) {
            let rest = subvec(t, 7, t.len());
            assert(rest@ =~= t@.skip(7));
            match axis_split_exec(&rest) {
                Some((lo, hi)) => {
                    db.x_axis_low = string_of(&lo);
                    db.x_axis_high = string_of(&hi);
                    assert(db@ =~= with_x_axis(old(db)@, lo@, hi@));
                    return Ok(());
                },
                None => return Err(LineFault::XAxisFormat),
            }
        }
        if starts_with_exec(&low, &chars_of("y-axis ")) {
            let rest = subvec(t, 7, t.len());
            assert(rest@ =~= t@.skip(7));
            match axis_split_exec(&rest) {
                Some((lo, hi)) => {
                    db.y_axis_low = string_of(&lo);
                    db.y_axis_high = string_of(&hi);
                    assert(db@ =~= with_y_axis(old(db)@, lo@, hi@));
                    return Ok(());
                },
                None => return Err(LineFault::YAxisFormat),
            }
        }
        match quadrant_number_exec(&low) {
            Some(n) => {
                proof {
                    reveal_strlit("quadrant-1");
                    reveal_strlit("quadrant-2");
                    reveal_strlit("quadrant-3");
                    reveal_strlit("quadrant-4");
                }
                assert(t@.len() >= 10);
                let rest = trim_chars(&subvec(t, 10, t.len()));
                assert(t@.subrange(10, t@.len() as int) =~= t@.skip(10));
                let label = trim_matches_chars(&trim_matches_chars(&rest, '"'), '\'');
                db.quadrant_labels[n - 1] = string_of(&label);
                assert(db@.quadrant_labels =~= old(db)@.quadrant_labels.update(n - 1, label@));
                assert(db@ =~= with_label(old(db)@, n - 1, label@));
                return Ok(());
            },
            None => {},
        }
        match parse_point(t) {
            Some((label, x, y)) => {
                let ghost p0 = db.points@;
                let p = QuadrantPoint { label: string_of(&label), x_text: string_of(&x), y_text: string_of(&y) };
                db.points.push(p);
                assert(db@.points =~= old(db)@.points.push((label@, x@, y@)));
                assert(db@ =~= with_point(old(db)@, (label@, x@, y@)));
                Ok(())
            },
            None => Ok(()),
        }
    }

    /// Parses a quadrant chart into `db`. The first line must start with
    /// `quadrantChart` or `quadrant chart` (any case); each later non-empty
    /// line is applied in turn. An axis line without an arrow stops the parse
    /// with an error naming the line and, as its cause, the axis whose format
    /// is wrong; the lines before it stay applied.
    pub fn parse(&self, input: &str, db: &mut QuadrantChartDatabase) -> (r: Result<(), DiagramError>)
        ensures
            !quadrant_header(input@) ==> r == Err::<(), DiagramError>(DiagramError::NotQuadrantChart)
                && final(db)@ == old(db)@,
            quadrant_header(input@) ==> match read_chart(input@, old(db)@) {
                QuadrantRead::Done(s) => r is Ok && final(db)@ == s,
                QuadrantRead::Failed(s, line) => (r matches Err(DiagramError::InvalidLine(l, f)) && l@
                    == line && f == line_fault(line)) && final(db)@ == s,
            },
    {
        let chars = chars_of(input);
        let lines = split_char(&chars, '\n');
        let ghost lv = views(lines@);
        proof {
            lemma_split_len(input@, '\n');
        }
        assert(lv.len() == lines.len());
        let first = trim_chars(&lines[0]);
        let low = to_lower(&first);
        if !starts_with_exec(&low, &chars_of("quadrantchart")) && !starts_with_exec(
            &low,
            &chars_of("quadrant chart"),
        ) {
            return Err(DiagramError::NotQuadrantChart);
        }
        proof {
            reveal_strlit("quadrantchart");
            reveal_strlit("quadrant chart");
        }
        assert(quadrant_header(input@));
        let ghost st0 = db@;
        let mut k: usize = 1;
        while k < lines.len()
            invariant
                1 <= k <= lines.len(),
                lv == views(lines@),
                lv == split(input@, '\n'),
                quadrant_header(input@),
                st0 == old(db)@,
                read_lines(lv, st0, k as int) == QuadrantRead::Done(db@),
            decreases lines.len() - k,
        {
            let t = trim_chars(&lines[k]);
            assert(lv[k as int] == lines@[k as int]@);
            if t.len() > 0 {
                let ghost before = db@;
                match self.parse_line(&t, db) {
                    Ok(()) => {},
                    Err(fault) => {
                        proof {
                            assert(read_lines(lv, st0, k + 1) == QuadrantRead::Failed(before, t@));
                            lemma_failed_stays(lv, st0, k + 1, lv.len() as int);
                        }
                        return Err(DiagramError::InvalidLine(string_of(&t), fault));
                    },
                }
            }
            k = k + 1;
        }
        Ok(())
    }
}

impl Default for QuadrantChartParser {
    fn default() -> (p: QuadrantChartParser) {
        QuadrantChartParser
    }
}

} // verus!
