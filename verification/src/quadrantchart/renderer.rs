//! Quadrant chart text renderer.
//!
//! The chart is a box: the title on its top border, the four quadrants
//! split by a cross of axes, the y-axis labels on the left (written downwards
//! when short), the x-axis labels under the chart, and each point as a dot
//! with its label, wrapped, to the right of it.
use vstd::prelude::*;

use super::database::{PointView, QuadrantChartDatabase, QuadrantView};
use crate::canvas::{
    cell, frame_grid, grid_text, lemma_put_text_cell, lemma_put_text_shape, put, put_text, put_vtext,
    AsciiCanvas, Grid,
};
use crate::diagram::DiagramError;
use crate::text::{
    append_all, byte_len, chars_of, is_whitespace, is_ws, lemma_max_of_push, max_into, max_of,
    nat_opt, saturated, str_byte_len, string_of, subvec, utf8_width, utf8_width_exec, views,
};

verus! {

pub const MIN_CHART_W: usize = 30;

pub const MAX_CHART_W: usize = 70;

pub const MIN_CHART_H: usize = 10;

/// Columns kept for y-axis labels written downwards.
pub const LABEL_COL: usize = 6;

// ───────────────────────────── dimensions ─────────────────────────────

pub open spec fn sat_sub(a: int, b: int) -> int {
    if a >= b {
        a - b
    } else {
        0
    }
}

pub open spec fn longest_point_label(v: QuadrantView) -> Option<nat> {
    max_of(v.points.map_values(|p: PointView| byte_len(p.0)))
}

pub open spec fn longest_quadrant_label(v: QuadrantView) -> Option<nat> {
    max_of(v.quadrant_labels.map_values(|l: Seq<char>| byte_len(l)))
}

/// Bytes of the longest point label (8 without points) or quadrant label.
pub open spec fn max_label_len(v: QuadrantView) -> nat {
    let a: nat = match longest_point_label(v) {
        Some(n) => n,
        None => 8,
    };
    let b: nat = match longest_quadrant_label(v) {
        Some(n) => n,
        None => 6,
    };
    if a >= b {
        a
    } else {
        b
    }
}

/// Bytes of the longer y-axis label.
pub open spec fn y_label_len(v: QuadrantView) -> nat {
    let h = byte_len(v.y_axis_high);
    let l = byte_len(v.y_axis_low);
    if h >= l {
        h
    } else {
        l
    }
}

/// Y-axis labels of at most 12 bytes are written downwards.
pub open spec fn vertical_y(v: QuadrantView) -> bool {
    y_label_len(v) <= 12
}

pub open spec fn left_margin(v: QuadrantView) -> int {
    if vertical_y(v) {
        LABEL_COL as int
    } else {
        y_label_len(v) + 2int
    }
}

/// Width inside the side borders: from the width hint when there is one,
/// else from the longest label, between 30 and 70.
pub open spec fn chart_width(hint: int, v: QuadrantView) -> int {
    let lm = left_margin(v);
    if hint > 0 {
        let w = sat_sub(hint, lm);
        if w >= MIN_CHART_W {
            w
        } else {
            MIN_CHART_W as int
        }
    } else {
        let w = max_label_len(v) + 8 + lm;
        let w2 = if w >= MIN_CHART_W {
            w
        } else {
            MIN_CHART_W as int
        };
        if w2 <= MAX_CHART_W {
            w2
        } else {
            MAX_CHART_W as int
        }
    }
}

/// Height of the chart area: 10 rows and one more for every three points
/// after the first, at most 26.
pub open spec fn chart_height(v: QuadrantView) -> int {
    let h = MIN_CHART_H + sat_sub(v.points.len() as int, 1) / 3;
    let h2 = if h >= 8 {
        h
    } else {
        8
    };
    if h2 <= 26 {
        h2
    } else {
        26
    }
}

/// The sizes the chart is laid out from fit in a `usize`, and the chart is
/// at least as wide as its left margin.
pub open spec fn sizes_fit(hint: int, v: QuadrantView) -> bool {
    &&& y_label_len(v) + 3 <= usize::MAX
    &&& (hint == 0 ==> max_label_len(v) + 8 + left_margin(v) <= usize::MAX)
    &&& chart_width(hint, v) >= left_margin(v)
}

/// Where the parts of a chart go.
pub struct QuadrantGeometry {
    pub total_w: usize,
    pub total_h: usize,
    pub vertical_y: bool,
    pub left_margin: usize,
    /// Columns and rows of the chart area: left, top, right, bottom.
    pub cl: usize,
    pub ct: usize,
    pub cr: usize,
    pub cb: usize,
    /// Width and height of the chart area.
    pub ciw: usize,
    pub cih: usize,
    /// Where the axes cross.
    pub mid_x: usize,
    pub mid_y: usize,
}

pub open spec fn geometry_of(hint: int, v: QuadrantView) -> QuadrantGeometry {
    let cw = chart_width(hint, v);
    let ch = chart_height(v);
    let lm = left_margin(v);
    QuadrantGeometry {
        total_w: (cw + 2) as usize,
        total_h: (ch + 3) as usize,
        vertical_y: vertical_y(v),
        left_margin: lm as usize,
        cl: (1 + lm) as usize,
        ct: 1,
        cr: cw as usize,
        cb: ch as usize,
        ciw: (cw - lm) as usize,
        cih: ch as usize,
        mid_x: (1 + lm + (cw - lm) / 2) as usize,
        mid_y: (1 + ch / 2) as usize,
    }
}


// ───────────────────────────── wrapping ─────────────────────────────

/// Words read so far and the word being read (`str::split_whitespace`).
pub open spec fn words_acc(s: Seq<char>) -> (Seq<Seq<char>>, Seq<char>)
    decreases s.len(),
{
    if s.len() == 0 {
        (Seq::empty(), Seq::empty())
    } else {
        let (ws, cur) = words_acc(s.drop_last());
        if is_ws(s.last()) {
            if cur.len() > 0 {
                (ws.push(cur), Seq::empty())
            } else {
                (ws, Seq::empty())
            }
        } else {
            (ws, cur.push(s.last()))
        }
    }
}

/// The maximal runs of non-whitespace characters of `s`.
pub open spec fn words(s: Seq<char>) -> Seq<Seq<char>> {
    let (ws, cur) = words_acc(s);
    if cur.len() > 0 {
        ws.push(cur)
    } else {
        ws
    }
}

/// A word too long for a line, character by character: the line is closed
/// whenever it has `max` bytes or more before the next character.
pub open spec fn split_long(lines: Seq<Seq<char>>, cur: Seq<char>, w: Seq<char>, max: nat) -> (
    Seq<Seq<char>>,
    Seq<char>,
)
    decreases w.len(),
{
    if w.len() == 0 {
        (lines, cur)
    } else {
        let (l1, c1) = split_long(lines, cur, w.drop_last(), max);
        if byte_len(c1) >= max {
            (l1.push(c1), seq![w.last()])
        } else {
            (l1, c1.push(w.last()))
        }
    }
}

/// One word added to the closed lines and the current line.
pub open spec fn wrap_word(st: (Seq<Seq<char>>, Seq<char>), w: Seq<char>, max: nat) -> (
    Seq<Seq<char>>,
    Seq<char>,
) {
    let (lines, cur) = st;
    if cur.len() == 0 {
        if byte_len(w) <= max {
            (lines, w)
        } else {
            split_long(lines, Seq::empty(), w, max)
        }
    } else if byte_len(cur) + 1 + byte_len(w) <= max {
        (lines, cur + seq![' '] + w)
    } else if byte_len(w) <= max {
        (lines.push(cur), w)
    } else {
        split_long(lines.push(cur), Seq::empty(), w, max)
    }
}

pub open spec fn wrap_words(ws: Seq<Seq<char>>, max: nat) -> (Seq<Seq<char>>, Seq<char>)
    decreases ws.len(),
{
    if ws.len() == 0 {
        (Seq::empty(), Seq::empty())
    } else {
        wrap_word(wrap_words(ws.drop_last(), max), ws.last(), max)
    }
}

/// The lines `text` is wrapped into at `max` bytes: words joined by single
/// spaces while they fit, a word longer than a line cut by characters, and
/// at least one (possibly empty) line. A width of 0 keeps the text whole.
pub open spec fn wrapped(text: Seq<char>, max: nat) -> Seq<Seq<char>> {
    if max == 0 {
        seq![text]
    } else {
        let (lines, cur) = wrap_words(words(text), max);
        let all = if cur.len() > 0 {
            lines.push(cur)
        } else {
            lines
        };
        if all.len() == 0 {
            seq![Seq::empty()]
        } else {
            all
        }
    }
}

/// The characters of `s` that are not whitespace.
pub open spec fn non_ws(s: Seq<char>) -> Seq<char>
    decreases s.len(),
{
    if s.len() == 0 {
        Seq::empty()
    } else if is_ws(s.last()) {
        non_ws(s.drop_last())
    } else {
        non_ws(s.drop_last()).push(s.last())
    }
}

/// The lines one after the other.
pub open spec fn concat_lines(ls: Seq<Seq<char>>) -> Seq<char>
    decreases ls.len(),
{
    if ls.len() == 0 {
        Seq::empty()
    } else {
        concat_lines(ls.drop_last()) + ls.last()
    }
}

pub open spec fn no_ws(s: Seq<char>) -> bool {
    forall|i: int| 0 <= i < s.len() ==> !is_ws(#[trigger] s[i])
}

proof fn lemma_non_ws_concat(a: Seq<char>, b: Seq<char>)
    ensures
        non_ws(a + b) == non_ws(a) + non_ws(b),
    decreases b.len(),
{
    if b.len() == 0 {
        assert(a + b =~= a);
        assert(non_ws(a) + non_ws(b) =~= non_ws(a));
    } else {
        assert((a + b).drop_last() =~= a + b.drop_last());
        lemma_non_ws_concat(a, b.drop_last());
        if !is_ws(b.last()) {
            assert(non_ws(a) + non_ws(b.drop_last()).push(b.last()) =~= (non_ws(a) + non_ws(b.drop_last())).push(b.last()));
        }
    }
}

proof fn lemma_non_ws_plain(s: Seq<char>)
    requires
        no_ws(s),
    ensures
        non_ws(s) == s,
    decreases s.len(),
{
    if s.len() > 0 {
        assert(no_ws(s.drop_last()));
        lemma_non_ws_plain(s.drop_last());
        assert(s.drop_last().push(s.last()) =~= s);
    }
}

proof fn lemma_words_acc(s: Seq<char>)
    ensures
        concat_lines(words_acc(s).0) + words_acc(s).1 == non_ws(s),
        no_ws(words_acc(s).1),
        forall|k: int| 0 <= k < words_acc(s).0.len() ==> no_ws(#[trigger] words_acc(s).0[k]),
    decreases s.len(),
{
    if s.len() == 0 {
        assert(concat_lines(Seq::<Seq<char>>::empty()) + Seq::<char>::empty() =~= Seq::<char>::empty());
    } else {
        let p = s.drop_last();
        let c = s.last();
        lemma_words_acc(p);
        let (ws, cur) = words_acc(p);
        if is_ws(c) {
            if cur.len() > 0 {
                assert(ws.push(cur).drop_last() =~= ws);
                assert(concat_lines(ws.push(cur)) + Seq::<char>::empty() =~= concat_lines(ws) + cur);
            } else {
                assert(concat_lines(ws) + Seq::<char>::empty() =~= concat_lines(ws) + cur);
            }
        } else {
            assert(concat_lines(ws) + cur.push(c) =~= (concat_lines(ws) + cur).push(c));
        }
    }
}

proof fn lemma_words(s: Seq<char>)
    ensures
        concat_lines(words(s)) == non_ws(s),
        forall|k: int| 0 <= k < words(s).len() ==> no_ws(#[trigger] words(s)[k]),
{
    lemma_words_acc(s);
    let (ws, cur) = words_acc(s);
    if cur.len() > 0 {
        assert(ws.push(cur).drop_last() =~= ws);
        assert forall|k: int| 0 <= k < ws.push(cur).len() implies no_ws(#[trigger] ws.push(cur)[k]) by {
            if k < ws.len() {
                assert(ws.push(cur)[k] == ws[k]);
            }
        }
    } else {
        assert(concat_lines(ws) + cur =~= concat_lines(ws));
    }
}

proof fn lemma_split_long(lines: Seq<Seq<char>>, cur: Seq<char>, w: Seq<char>, max: nat)
    ensures
        concat_lines(split_long(lines, cur, w, max).0) + split_long(lines, cur, w, max).1 == concat_lines(lines)
            + cur + w,
    decreases w.len(),
{
    if w.len() == 0 {
        assert(concat_lines(lines) + cur + w =~= concat_lines(lines) + cur);
    } else {
        let p = w.drop_last();
        let c = w.last();
        lemma_split_long(lines, cur, p, max);
        let (l1, c1) = split_long(lines, cur, p, max);
        assert(concat_lines(lines) + cur + w =~= (concat_lines(lines) + cur + p).push(c));
        if byte_len(c1) >= max {
            assert(l1.push(c1).drop_last() =~= l1);
            assert(concat_lines(l1.push(c1)) + seq![c] =~= (concat_lines(l1) + c1).push(c));
        } else {
            assert(concat_lines(l1) + c1.push(c) =~= (concat_lines(l1) + c1).push(c));
        }
    }
}

proof fn lemma_wrap_word(st: (Seq<Seq<char>>, Seq<char>), w: Seq<char>, max: nat)
    requires
        no_ws(w),
    ensures
        non_ws(concat_lines(wrap_word(st, w, max).0) + wrap_word(st, w, max).1) == non_ws(concat_lines(st.0) + st.1)
            + w,
{
    let (lines, cur) = st;
    let base = concat_lines(lines);
    lemma_non_ws_plain(w);
    lemma_non_ws_concat(base, cur);
    lemma_non_ws_concat(base, w);
    lemma_non_ws_concat(base + cur, w);
    assert(lines.push(cur).drop_last() =~= lines);
    assert(concat_lines(lines.push(cur)) == base + cur);
    if cur.len() == 0 {
        assert(base + cur =~= base);
        if byte_len(w) > max {
            lemma_split_long(lines, Seq::empty(), w, max);
            assert(base + Seq::<char>::empty() + w =~= base + w);
        }
    } else if byte_len(cur) + 1 + byte_len(w) <= max {
        assert(base + (cur + seq![' '] + w) =~= (base + cur) + seq![' '] + w);
        lemma_non_ws_concat(base + cur, seq![' ']);
        lemma_non_ws_concat((base + cur) + seq![' '], w);
        assert(seq![' '].drop_last() =~= Seq::<char>::empty());
        assert(is_ws(' '));
        assert(non_ws(Seq::<char>::empty()) =~= Seq::<char>::empty());
        assert(non_ws(seq![' ']) =~= Seq::<char>::empty());
        assert(non_ws(base + cur) + non_ws(seq![' ']) =~= non_ws(base + cur));
    } else if byte_len(w) <= max {
    } else {
        lemma_split_long(lines.push(cur), Seq::empty(), w, max);
        assert(base + cur + Seq::<char>::empty() + w =~= base + cur + w);
    }
}

proof fn lemma_wrap_words(ws: Seq<Seq<char>>, max: nat)
    requires
        forall|k: int| 0 <= k < ws.len() ==> no_ws(#[trigger] ws[k]),
    ensures
        non_ws(concat_lines(wrap_words(ws, max).0) + wrap_words(ws, max).1) == concat_lines(ws),
    decreases ws.len(),
{
    if ws.len() == 0 {
        assert(concat_lines(Seq::<Seq<char>>::empty()) + Seq::<char>::empty() =~= Seq::<char>::empty());
    } else {
        let p = ws.drop_last();
        assert forall|k: int| 0 <= k < p.len() implies no_ws(#[trigger] p[k]) by {
            assert(p[k] == ws[k]);
        }
        lemma_wrap_words(p, max);
        assert(no_ws(ws[ws.len() - 1]));
        lemma_wrap_word(wrap_words(p, max), ws.last(), max);
    }
}

/// Wrapping gives at least one line, and loses no character of the text
/// but whitespace: the lines one after the other hold the text's other
/// characters, in order.
pub proof fn lemma_wrapped_keeps_text(text: Seq<char>, max: nat)
    ensures
        wrapped(text, max).len() >= 1,
        non_ws(concat_lines(wrapped(text, max))) == non_ws(text),
{
    if max == 0 {
        assert(seq![text].drop_last() =~= Seq::<Seq<char>>::empty());
        assert(concat_lines(Seq::<Seq<char>>::empty()) =~= Seq::<char>::empty());
        assert(concat_lines(seq![text]) =~= text);
    } else {
        lemma_words(text);
        let ws = words(text);
        lemma_wrap_words(ws, max);
        let (lines, cur) = wrap_words(ws, max);
        if cur.len() > 0 {
            assert(lines.push(cur).drop_last() =~= lines);
        } else {
            assert(concat_lines(lines) + cur =~= concat_lines(lines));
            if lines.len() == 0 {
                let one: Seq<Seq<char>> = seq![Seq::empty()];
                assert(one.drop_last() =~= Seq::<Seq<char>>::empty());
                assert(concat_lines(Seq::<Seq<char>>::empty()) =~= Seq::<char>::empty());
                assert(concat_lines(one) =~= Seq::<char>::empty());
            }
        }
    }
}

// ───────────────────────────── the chart ─────────────────────────────

pub open spec fn title_stage(g: Grid, v: QuadrantView, geo: QuadrantGeometry) -> Grid {
    match v.title {
        None => g,
        Some(t) => {
            let s = seq![' '] + t + seq![' '];
            let n = geo.total_w - 2;
            put_text(g, 1, 0, if n <= s.len() { s.take(n) } else { s })
        },
    }
}

/// Row `y` after columns `x0..x`: a dash on every blank cell.
pub open spec fn hline_upto(g: Grid, y: int, x0: int, x: int) -> Grid
    decreases x - x0,
{
    if x <= x0 {
        g
    } else {
        let g1 = hline_upto(g, y, x0, x - 1);
        if cell(g1, x - 1, y) == ' ' {
            put(g1, x - 1, y, '─')
        } else {
            g1
        }
    }
}

/// Column `x` after rows `y0..y`: a bar on every blank cell.
pub open spec fn vline_upto(g: Grid, x: int, y0: int, y: int) -> Grid
    decreases y - y0,
{
    if y <= y0 {
        g
    } else {
        let g1 = vline_upto(g, x, y0, y - 1);
        if cell(g1, x, y - 1) == ' ' {
            put(g1, x, y - 1, '│')
        } else {
            g1
        }
    }
}

pub open spec fn axes_stage(g: Grid, geo: QuadrantGeometry) -> Grid {
    let g1 = hline_upto(g, geo.mid_y as int, geo.cl as int, geo.cr + 1);
    let g2 = vline_upto(g1, geo.mid_x as int, geo.ct as int, geo.cb + 1);
    put(g2, geo.mid_x as int, geo.mid_y as int, '┼')
}

pub open spec fn y_labels_stage(g: Grid, v: QuadrantView, geo: QuadrantGeometry) -> Grid {
    if geo.vertical_y {
        let col = sat_sub(geo.cl as int, 3);
        let g1 = put_vtext(g, col, geo.ct + 2, v.y_axis_high);
        let low_start = sat_sub(geo.cb as int, byte_len(v.y_axis_low) + 1int);
        put_vtext(g1, col, low_start, v.y_axis_low)
    } else {
        let high_y = geo.ct + geo.cih / 4;
        let g1 = put_text(g, sat_sub(geo.cl as int, byte_len(v.y_axis_high) + 1int), high_y, v.y_axis_high);
        let low_y = geo.cb - geo.cih / 4;
        put_text(g1, sat_sub(geo.cl as int, byte_len(v.y_axis_low) + 1int), low_y, v.y_axis_low)
    }
}

/// Start of `s` centred by bytes between columns `x1` and `x2`.
pub open spec fn centered_from(x1: int, x2: int, s: Seq<char>) -> int {
    x1 + sat_sub(sat_sub(x2, x1), byte_len(s) as int) / 2
}

pub open spec fn x_labels_stage(g: Grid, v: QuadrantView, geo: QuadrantGeometry) -> Grid {
    let row = geo.total_h - 2;
    let left_end = sat_sub(geo.mid_x as int, 1);
    let g1 = put_text(g, centered_from(geo.cl as int, left_end, v.x_axis_low), row, v.x_axis_low);
    put_text(g1, centered_from(geo.mid_x as int, geo.cr as int, v.x_axis_high), row, v.x_axis_high)
}

/// Quadrant 2 top left, 1 top right, 3 bottom left, 4 bottom right.
pub open spec fn quadrants_stage(g: Grid, v: QuadrantView, geo: QuadrantGeometry) -> Grid {
    let q = v.quadrant_labels;
    let g1 = put_text(g, geo.cl + 2, geo.ct + 1, q[1]);
    let g2 = put_text(g1, geo.mid_x + 2, geo.ct + 1, q[0]);
    let g3 = put_text(g2, geo.cl + 2, geo.mid_y + 1, q[2]);
    put_text(g3, geo.mid_x + 2, geo.mid_y + 1, q[3])
}

/// The quadrant titles land where they belong, on the row below the top
/// edge and the row below the horizontal axis: quadrant 2's title from two
/// columns right of the left edge, quadrant 1's two columns right of the
/// vertical axis (top), quadrant 3's and quadrant 4's the same below the
/// axis. A title on the left keeps the columns before the right one starts;
/// the top titles stay when the axis is not on the top row.
pub proof fn lemma_quadrant_titles_placed(g: Grid, v: QuadrantView, geo: QuadrantGeometry)
    requires
        v.quadrant_labels.len() == 4,
    ensures
        ({
            let r = quadrants_stage(g, v, geo);
            let q = v.quadrant_labels;
            let top = geo.ct + 1;
            let low = geo.mid_y + 1;
            &&& forall|i: int|
                0 <= i < q[3].len() && 0 <= low < g.len() && geo.mid_x + 2 + i < g[low].len() ==> #[trigger] cell(
                    r,
                    geo.mid_x + 2 + i,
                    low,
                ) == q[3][i]
            &&& forall|i: int|
                0 <= i < q[2].len() && geo.cl + 2 + i < geo.mid_x + 2 && 0 <= low < g.len() && geo.cl + 2
                    + i < g[low].len() ==> #[trigger] cell(r, geo.cl + 2 + i, low) == q[2][i]
            &&& forall|i: int|
                0 <= i < q[0].len() && geo.ct != geo.mid_y && 0 <= top < g.len() && geo.mid_x + 2 + i
                    < g[top].len() ==> #[trigger] cell(r, geo.mid_x + 2 + i, top) == q[0][i]
            &&& forall|i: int|
                0 <= i < q[1].len() && geo.cl + 2 + i < geo.mid_x + 2 && geo.ct != geo.mid_y && 0 <= top
                    < g.len() && geo.cl + 2 + i < g[top].len() ==> #[trigger] cell(r, geo.cl + 2 + i, top)
                    == q[1][i]
        }),
{
    let q = v.quadrant_labels;
    let g1 = put_text(g, geo.cl + 2, geo.ct + 1, q[1]);
    let g2 = put_text(g1, geo.mid_x + 2, geo.ct + 1, q[0]);
    let g3 = put_text(g2, geo.cl + 2, geo.mid_y + 1, q[2]);
    let r = put_text(g3, geo.mid_x + 2, geo.mid_y + 1, q[3]);
    lemma_put_text_shape(g, geo.cl + 2, geo.ct + 1, q[1]);
    lemma_put_text_shape(g1, geo.mid_x + 2, geo.ct + 1, q[0]);
    lemma_put_text_shape(g2, geo.cl + 2, geo.mid_y + 1, q[2]);
    assert forall|i: int|
        0 <= i < q[3].len() && 0 <= geo.mid_y + 1 < g.len() && geo.mid_x + 2 + i < g[geo.mid_y + 1].len()
            implies #[trigger] cell(r, geo.mid_x + 2 + i, geo.mid_y + 1) == q[3][i] by {
        lemma_put_text_cell(g3, geo.mid_x + 2, geo.mid_y + 1, q[3], geo.mid_x + 2 + i, geo.mid_y + 1);
    }
    assert forall|i: int|
        0 <= i < q[2].len() && geo.cl + 2 + i < geo.mid_x + 2 && 0 <= geo.mid_y + 1 < g.len() && geo.cl + 2
            + i < g[geo.mid_y + 1].len() implies #[trigger] cell(r, geo.cl + 2 + i, geo.mid_y + 1) == q[2][i] by {
        lemma_put_text_cell(g3, geo.mid_x + 2, geo.mid_y + 1, q[3], geo.cl + 2 + i, geo.mid_y + 1);
        lemma_put_text_cell(g2, geo.cl + 2, geo.mid_y + 1, q[2], geo.cl + 2 + i, geo.mid_y + 1);
    }
    assert forall|i: int|
        0 <= i < q[0].len() && geo.ct != geo.mid_y && 0 <= geo.ct + 1 < g.len() && geo.mid_x + 2 + i
            < g[geo.ct + 1].len() implies #[trigger] cell(r, geo.mid_x + 2 + i, geo.ct + 1) == q[0][i] by {
        let x = geo.mid_x + 2 + i;
        let y = geo.ct + 1;
        lemma_put_text_cell(g3, geo.mid_x + 2, geo.mid_y + 1, q[3], x, y);
        lemma_put_text_cell(g2, geo.cl + 2, geo.mid_y + 1, q[2], x, y);
        lemma_put_text_cell(g1, geo.mid_x + 2, y, q[0], x, y);
    }
    assert forall|i: int|
        0 <= i < q[1].len() && geo.cl + 2 + i < geo.mid_x + 2 && geo.ct != geo.mid_y && 0 <= geo.ct + 1
            < g.len() && geo.cl + 2 + i < g[geo.ct + 1].len() implies #[trigger] cell(
        r,
        geo.cl + 2 + i,
        geo.ct + 1,
    ) == q[1][i] by {
        let x = geo.cl + 2 + i;
        let y = geo.ct + 1;
        lemma_put_text_cell(g3, geo.mid_x + 2, geo.mid_y + 1, q[3], x, y);
        lemma_put_text_cell(g2, geo.cl + 2, geo.mid_y + 1, q[2], x, y);
        lemma_put_text_cell(g1, geo.mid_x + 2, y, q[0], x, y);
        lemma_put_text_cell(g, geo.cl + 2, y, q[1], x, y);
    }
}

/// A point to plot: which point, and its column and row in the chart area,
/// counted from the left and from the bottom.
#[derive(Clone, Copy)]
pub struct PlotPoint {
    pub point: usize,
    pub col: usize,
    pub row: usize,
}

pub open spec fn clamp(x: int, lo: int, hi: int) -> int {
    if x < lo {
        lo
    } else if x > hi {
        hi
    } else {
        x
    }
}

pub open spec fn plot_x(geo: QuadrantGeometry, p: PlotPoint) -> int {
    clamp(geo.cl + 1 + p.col, geo.cl + 1, sat_sub(geo.cr as int, 1))
}

pub open spec fn plot_y(geo: QuadrantGeometry, p: PlotPoint) -> int {
    clamp(sat_sub(geo.cb as int, 1) - p.row, geo.ct + 3, sat_sub(geo.cb as int, 1))
}

/// The row a dot goes to: the first of `py`, `py`, `py + 1`, `py - 1`, ...,
/// `py + 5`, `py - 5` (each kept between 1 and `max_y`) that has no dot in
/// column `px`, tried from the `k`-th on; `py` when all have one.
pub open spec fn free_row_from(occ: Seq<(usize, usize)>, px: int, py: int, max_y: int, k: int) -> int
    decreases 12 - k,
{
    if k < 0 || k >= 12 {
        py
    } else {
        let dy = k / 2;
        let c0 = if k % 2 == 0 {
            py + dy
        } else {
            py - dy
        };
        let c1 = if c0 >= 1 {
            c0
        } else {
            1
        };
        let c2 = if c1 <= max_y {
            c1
        } else {
            max_y
        };
        if !occ.contains((px as usize, c2 as usize)) {
            c2
        } else {
            free_row_from(occ, px, py, max_y, k + 1)
        }
    }
}

/// `t` written from column `x0` of row `y`, but nothing past column `last`.
pub open spec fn put_text_upto(g: Grid, x0: int, y: int, t: Seq<char>, last: int) -> Grid
    decreases t.len(),
{
    if t.len() == 0 {
        g
    } else {
        let g1 = put_text_upto(g, x0, y, t.drop_last(), last);
        let x = x0 + t.len() - 1;
        if x <= last {
            put(g1, x, y, t.last())
        } else {
            g1
        }
    }
}

/// The first `n` lines of a label, one per row from `y0`, the rows kept
/// at most `cb`.
pub open spec fn label_rows(g: Grid, x0: int, y0: int, lines: Seq<Seq<char>>, cb: int, cr: int, n: int) -> Grid
    decreases n,
{
    if n <= 0 {
        g
    } else {
        let g1 = label_rows(g, x0, y0, lines, cb, cr, n - 1);
        let ly = if y0 + n - 1 <= cb {
            y0 + n - 1
        } else {
            cb
        };
        put_text_upto(g1, x0, ly, lines[n - 1], cr)
    }
}

/// One point: a dot on the first free row near its place, and its label,
/// wrapped to the room on its right, from two columns after the dot.
pub open spec fn plot_step(g: Grid, occ: Seq<(usize, usize)>, v: QuadrantView, geo: QuadrantGeometry, p: PlotPoint) -> (
    Grid,
    Seq<(usize, usize)>,
) {
    plot_label(g, occ, v.points[p.point as int].0, geo, p)
}

/// A dot and its label.
pub open spec fn plot_label(g: Grid, occ: Seq<(usize, usize)>, label: Seq<char>, geo: QuadrantGeometry, p: PlotPoint) -> (
    Grid,
    Seq<(usize, usize)>,
) {
    let px = plot_x(geo, p);
    let py = plot_y(geo, p);
    let dot_y = free_row_from(occ, px, py, geo.cb as int, 0);
    let g1 = put(g, px, dot_y, '·');
    let room = sat_sub(geo.cr as int, px + 2);
    let avail = if room >= 3 {
        room
    } else {
        3
    };
    let lines = wrapped(label, (avail - 1) as nat);
    (label_rows(g1, px + 2, dot_y, lines, geo.cb as int, geo.cr as int, lines.len() as int), occ.push((px as usize, dot_y as usize)))
}

pub open spec fn plots_stage(g: Grid, v: QuadrantView, geo: QuadrantGeometry, plots: Seq<PlotPoint>) -> (
    Grid,
    Seq<(usize, usize)>,
)
    decreases plots.len(),
{
    if plots.len() == 0 {
        (g, Seq::empty())
    } else {
        let (g1, occ) = plots_stage(g, v, geo, plots.drop_last());
        plot_step(g1, occ, v, geo, plots.last())
    }
}

/// The whole chart.
pub open spec fn chart_grid(hint: int, v: QuadrantView, plots: Seq<PlotPoint>) -> Grid {
    let geo = geometry_of(hint, v);
    let g0 = frame_grid(geo.total_w as nat, geo.total_h as nat);
    let g1 = title_stage(g0, v, geo);
    let g2 = axes_stage(g1, geo);
    let g3 = y_labels_stage(g2, v, geo);
    let g4 = x_labels_stage(g3, v, geo);
    let g5 = quadrants_stage(g4, v, geo);
    plots_stage(g5, v, geo, plots).0
}

/// Each plot names a point and lies in the chart area, which has room for
/// a dot when there is one.
pub open spec fn plots_fit(v: QuadrantView, geo: QuadrantGeometry, plots: Seq<PlotPoint>) -> bool {
    &&& plots.len() > 0 ==> geo.ciw >= 3
    &&& forall|k: int|
        0 <= k < plots.len() ==> (#[trigger] plots[k]).point < v.points.len() && plots[k].col + 2
            <= geo.ciw && plots[k].row + 2 <= geo.cih
}


// ───────────────────────────── wrapping, executable ─────────────────────────────


proof fn lemma_byte_len_push(s: Seq<char>, c: char)
    ensures
        byte_len(s.push(c)) == byte_len(s) + utf8_width(c),
{
    assert(s.push(c).drop_last() =~= s);
}

proof fn lemma_byte_len_prefix(s: Seq<char>, i: int)
    requires
        0 <= i <= s.len(),
    ensures
        byte_len(s.take(i)) <= byte_len(s),
{
    crate::text::lemma_byte_len_concat(s.take(i), s.skip(i));
    assert(s.take(i) + s.skip(i) =~= s);
}

/// The characters of `s` split into words.
fn words_of(s: &Vec<char>) -> (r: Vec<Vec<char>>)
    ensures
        views(r@) == words(s@),
{
    let mut ws: Vec<Vec<char>> = Vec::new();
    let mut cur: Vec<char> = Vec::new();
    let mut i: usize = 0;
    while i < s.len()
        invariant
            i <= s.len(),
            (views(ws@), cur@) == words_acc(s@.take(i as int)),
        decreases s.len() - i,
    {
        assert(s@.take(i + 1).drop_last() =~= s@.take(i as int));
        let c = s[i];
        if is_whitespace(c) {
            if cur.len() > 0 {
                let ghost w0 = ws@;
                let done = cur;
                cur = Vec::new();
                ws.push(done);
                assert(views(ws@) =~= views(w0).push(done@));
            } else {
                cur = Vec::new();
            }
        } else {
            cur.push(c);
        }
        i = i + 1;
    }
    assert(s@.take(s.len() as int) =~= s@);
    if cur.len() > 0 {
        let ghost w0 = ws@;
        let last = cur;
        ws.push(last);
        assert(views(ws@) =~= views(w0).push(last@));
    }
    ws
}

/// The byte length of `w` when it is at most `max`.
fn bytes_upto(w: &Vec<char>, max: usize) -> (r: Option<usize>)
    ensures
        match r {
            Some(n) => n == byte_len(w@) && n <= max,
            None => byte_len(w@) > max,
        },
{
    let mut n: usize = 0;
    let mut i: usize = 0;
    while i < w.len()
        invariant
            i <= w.len(),
            n == byte_len(w@.take(i as int)),
            n <= max,
        decreases w.len() - i,
    {
        let cw = utf8_width_exec(w[i]);
        proof {
            assert(w@.take(i + 1) =~= w@.take(i as int).push(w@[i as int]));
            lemma_byte_len_push(w@.take(i as int), w@[i as int]);
        }
        if cw > max - n {
            proof {
                lemma_byte_len_prefix(w@, i + 1);
            }
            return None;
        }
        n = n + cw;
        i = i + 1;
    }
    assert(w@.take(w.len() as int) =~= w@);
    Some(n)
}

fn sat_add(a: usize, b: usize) -> (r: usize)
    ensures
        r == saturated((a + b) as nat),
{
    if a <= usize::MAX - b {
        a + b
    } else {
        usize::MAX
    }
}

/// The lines being built: the closed ones, the current one and its bytes.
struct Wrapper {
    lines: Vec<Vec<char>>,
    cur: Vec<char>,
    cur_bytes: usize,
}

impl Wrapper {
    spec fn state(&self) -> (Seq<Seq<char>>, Seq<char>) {
        (views(self.lines@), self.cur@)
    }

    spec fn wf(&self) -> bool {
        self.cur_bytes == saturated(byte_len(self.cur@))
    }

    fn close_line(&mut self)
        requires
            old(self).wf(),
        ensures
            final(self).wf(),
            final(self).state() == (old(self).state().0.push(old(self).cur@), Seq::<char>::empty()),
    {
        let ghost l0 = self.lines@;
        let mut done: Vec<char> = Vec::new();
        std::mem::swap(&mut done, &mut self.cur);
        self.lines.push(done);
        self.cur_bytes = 0;
        assert(views(self.lines@) =~= views(l0).push(done@));
        assert(byte_len(self.cur@) == 0);
    }

    fn push_char(&mut self, c: char)
        requires
            old(self).wf(),
        ensures
            final(self).wf(),
            final(self).state() == (old(self).state().0, old(self).cur@.push(c)),
    {
        proof {
            lemma_byte_len_push(self.cur@, c);
        }
        self.cur.push(c);
        self.cur_bytes = sat_add(self.cur_bytes, utf8_width_exec(c));
    }

    fn split_long(&mut self, w: &Vec<char>, max: usize)
        requires
            old(self).wf(),
        ensures
            final(self).wf(),
            final(self).state() == split_long(old(self).state().0, old(self).state().1, w@, max as nat),
    {
        let mut i: usize = 0;
        while i < w.len()
            invariant
                i <= w.len(),
                self.wf(),
                self.state() == split_long(old(self).state().0, old(self).state().1, w@.take(i as int), max as nat),
            decreases w.len() - i,
        {
            assert(w@.take(i + 1).drop_last() =~= w@.take(i as int));
            if self.cur_bytes >= max {
                self.close_line();
            }
            self.push_char(w[i]);
            i = i + 1;
        }
        assert(w@.take(w.len() as int) =~= w@);
    }

    fn add_word(&mut self, w: &Vec<char>, max: usize)
        requires
            old(self).wf(),
        ensures
            final(self).wf(),
            final(self).state() == wrap_word(old(self).state(), w@, max as nat),
    {
        let fits = bytes_upto(w, max);
        if self.cur.len() == 0 {
            match fits {
                Some(n) => {
                    self.cur = subvec(w, 0, w.len());
                    self.cur_bytes = n;
                    assert(self.cur@ =~= w@);
                },
                None => {
                    self.cur = Vec::new();
                    self.cur_bytes = 0;
                    assert(self.cur@ =~= Seq::<char>::empty());
                    self.split_long(w, max);
                },
            }
            return;
        }
        if self.cur_bytes < max {
            match bytes_upto(w, max - 1 - self.cur_bytes) {
                Some(n) => {
                    self.cur.push(' ');
                    append_all(&mut self.cur, w);
                    proof {
                        lemma_byte_len_push(old(self).cur@, ' ');
                        crate::text::lemma_byte_len_concat(old(self).cur@.push(' '), w@);
                        assert(old(self).cur@.push(' ') =~= old(self).cur@ + seq![' ']);
                    }
                    self.cur_bytes = self.cur_bytes + 1 + n;
                    return;
                },
                None => {},
            }
        }
        match fits {
            Some(n) => {
                self.close_line();
                self.cur = subvec(w, 0, w.len());
                self.cur_bytes = n;
                assert(self.cur@ =~= w@);
            },
            None => {
                self.close_line();
                self.split_long(w, max);
            },
        }
    }
}

/// Wraps `text` into lines of at most `max_width` bytes where its words
/// allow it.
fn wrap_chars(text: &Vec<char>, max_width: usize) -> (r: Vec<Vec<char>>)
    ensures
        views(r@) == wrapped(text@, max_width as nat),
{
    if max_width == 0 {
        let mut r: Vec<Vec<char>> = Vec::new();
        let whole = subvec(text, 0, text.len());
        assert(whole@ =~= text@);
        r.push(whole);
        assert(views(r@) =~= seq![text@]);
        return r;
    }
    let ws = words_of(text);
    let mut wr = Wrapper { lines: Vec::new(), cur: Vec::new(), cur_bytes: 0 };
    assert(wr.state() =~= (Seq::<Seq<char>>::empty(), Seq::<char>::empty()));
    let mut i: usize = 0;
    while i < ws.len()
        invariant
            i <= ws.len(),
            wr.wf(),
            wr.state() == wrap_words(views(ws@).take(i as int), max_width as nat),
        decreases ws.len() - i,
    {
        assert(views(ws@).take(i + 1).drop_last() =~= views(ws@).take(i as int));
        wr.add_word(&ws[i], max_width);
        i = i + 1;
    }
    assert(views(ws@).take(ws.len() as int) =~= views(ws@));
    if wr.cur.len() > 0 {
        wr.close_line();
    }
    let mut lines = wr.lines;
    if lines.len() == 0 {
        lines.push(Vec::new());
        assert(views(lines@) =~= seq![Seq::<char>::empty()]);
    }
    lines
}

pub open spec fn strings_view(v: Seq<String>) -> Seq<Seq<char>> {
    v.map_values(|s: String| s@)
}

/// Wraps `text` into lines of at most `max_width` bytes where its words
/// allow it: words are joined by single spaces while they fit, a word longer
/// than a line is cut by characters, and there is at least one line. A width
/// of 0 keeps the text whole.
pub fn wrap_text(text: &str, max_width: usize) -> (r: Vec<String>)
    ensures
        strings_view(r@) == wrapped(text@, max_width as nat),
{
    let lines = wrap_chars(&chars_of(text), max_width);
    let mut r: Vec<String> = Vec::new();
    let mut i: usize = 0;
    while i < lines.len()
        invariant
            i <= lines.len(),
            strings_view(r@) == views(lines@).take(i as int),
        decreases lines.len() - i,
    {
        let ghost r0 = r@;
        r.push(string_of(&lines[i]));
        assert(strings_view(r@) =~= strings_view(r0).push(lines@[i as int]@));
        assert(views(lines@).take(i + 1) =~= views(lines@).take(i as int).push(lines@[i as int]@));
        i = i + 1;
    }
    assert(views(lines@).take(lines.len() as int) =~= views(lines@));
    r
}


// ───────────────────────────── the renderer ─────────────────────────────

/// Rendering options: a width for the chart, or 0 to size it from its
/// labels.
pub struct QuadrantChartConfig {
    pub width_hint: usize,
}

impl Default for QuadrantChartConfig {
    fn default() -> (c: QuadrantChartConfig)
        ensures
            c.width_hint == 0,
    {
        QuadrantChartConfig { width_hint: 0 }
    }
}

pub struct QuadrantChartRenderer {
    config: QuadrantChartConfig,
}

/// The geometry is that of a chart at most `usize::MAX` wide.
pub open spec fn geometry_wf(geo: QuadrantGeometry) -> bool {
    &&& geo.total_w >= 32
    &&& geo.total_w + 4 <= usize::MAX
    &&& geo.total_h >= 11
    &&& geo.total_h <= 29
    &&& geo.ct == 1
    &&& geo.cl >= 1
    &&& geo.cr == geo.total_w - 2
    &&& geo.cb == geo.total_h - 3
    &&& geo.cih == geo.cb
    &&& geo.ciw + geo.cl == geo.cr + 1
    &&& geo.mid_x == geo.cl + geo.ciw / 2
    &&& geo.mid_y == geo.ct + geo.cih / 2
}

fn longest_point_label_exec(db: &QuadrantChartDatabase) -> (r: Option<usize>)
    ensures
        nat_opt(r) == longest_point_label(db@),
{
    let ghost lens = db@.points.map_values(|p: PointView| byte_len(p.0));
    let mut a: Option<usize> = None;
    let mut i: usize = 0;
    while i < db.points.len()
        invariant
            i <= db.points.len(),
            lens == db@.points.map_values(|p: PointView| byte_len(p.0)),
            nat_opt(a) == max_of(lens.take(i as int)),
        decreases db.points.len() - i,
    {
        let n = str_byte_len(&db.points[i].label);
        proof {
            lemma_max_of_push(lens, i as int);
        }
        a = max_into(a, n);
        i = i + 1;
    }
    assert(lens.take(db.points.len() as int) =~= lens);
    a
}

fn longest_quadrant_label_exec(db: &QuadrantChartDatabase) -> (r: Option<usize>)
    ensures
        nat_opt(r) == longest_quadrant_label(db@),
{
    let ghost lens = db@.quadrant_labels.map_values(|l: Seq<char>| byte_len(l));
    let mut a: Option<usize> = None;
    let mut i: usize = 0;
    while i < 4
        invariant
            i <= 4,
            db@.quadrant_labels.len() == 4,
            lens == db@.quadrant_labels.map_values(|l: Seq<char>| byte_len(l)),
            nat_opt(a) == max_of(lens.take(i as int)),
        decreases 4 - i,
    {
        let n = str_byte_len(&db.quadrant_labels[i]);
        proof {
            lemma_max_of_push(lens, i as int);
        }
        a = max_into(a, n);
        i = i + 1;
    }
    assert(lens.take(4) =~= lens);
    a
}

impl QuadrantChartRenderer {
    pub closed spec fn spec_width_hint(&self) -> usize {
        self.config.width_hint
    }

    pub fn new() -> (r: QuadrantChartRenderer)
        ensures
            r.spec_width_hint() == 0,
    {
        QuadrantChartRenderer { config: QuadrantChartConfig { width_hint: 0 } }
    }

    pub fn with_config(config: QuadrantChartConfig) -> (r: QuadrantChartRenderer)
        ensures
            r.spec_width_hint() == config.width_hint,
    {
        QuadrantChartRenderer { config }
    }

    /// The renderer's name.
    pub fn name(&self) -> (r: &'static str)
        ensures
            r@ == "quadrantchart-ascii"@,
    {
        "quadrantchart-ascii"
    }

    pub fn version(&self) -> (r: &'static str)
        ensures
            r@ == "0.1.0"@,
    {
        "0.1.0"
    }

    /// The output format: plain text.
    pub fn format(&self) -> (r: &'static str)
        ensures
            r@ == "ascii"@,
    {
        "ascii"
    }

    /// Whether the chart of `db` can be laid out: its sizes fit in a `usize`
    /// and it is at least as wide as its left margin.
    pub fn fits(&self, db: &QuadrantChartDatabase) -> (r: bool)
        ensures
            r == sizes_fit(self.spec_width_hint() as int, db@),
    {
        let hint = self.config.width_hint;
        let hb = str_byte_len(&db.y_axis_high);
        let lb = str_byte_len(&db.y_axis_low);
        let y_len = if hb >= lb { hb } else { lb };
        if y_len > usize::MAX - 3 {
            return false;
        }
        let lm: usize = if y_len <= 12 { LABEL_COL } else { y_len + 2 };
        let cw: usize = if hint > 0 {
            let w = if hint >= lm { hint - lm } else { 0 };
            if w >= MIN_CHART_W { w } else { MIN_CHART_W }
        } else {
            let a: usize = match longest_point_label_exec(db) {
                Some(n) => n,
                None => 8,
            };
            let b: usize = match longest_quadrant_label_exec(db) {
                Some(n) => n,
                None => 6,
            };
            let max_label = if a >= b { a } else { b };
            if lm > usize::MAX - 8 || max_label > usize::MAX - 8 - lm {
                return false;
            }
            let w = max_label + 8 + lm;
            let w2 = if w >= MIN_CHART_W { w } else { MIN_CHART_W };
            if w2 <= MAX_CHART_W { w2 } else { MAX_CHART_W }
        };
        cw >= lm
    }

    /// Whether `plots` name points of `db` and lie in the chart area of
    /// `geo`, and the area has room for a dot when there is a plot.
    pub fn plots_fit(&self, db: &QuadrantChartDatabase, geo: &QuadrantGeometry, plots: &Vec<PlotPoint>) -> (r: bool)
        ensures
            r == plots_fit(db@, *geo, plots@),
    {
        if plots.len() > 0 && geo.ciw < 3 {
            return false;
        }
        let mut k: usize = 0;
        while k < plots.len()
            invariant
                k <= plots.len(),
                plots@.len() > 0 ==> geo.ciw >= 3,
                forall|j: int|
                    0 <= j < k ==> (#[trigger] plots@[j]).point < db@.points.len() && plots@[j].col + 2
                        <= geo.ciw && plots@[j].row + 2 <= geo.cih,
            decreases plots.len() - k,
        {
            let p = plots[k];
            if p.point >= db.points.len() || geo.ciw < 2 || p.col > geo.ciw - 2 || geo.cih < 2 || p.row > geo.cih - 2 {
                return false;
            }
            k = k + 1;
        }
        true
    }

    /// Where the parts of the chart of `db` go.
    pub fn geometry(&self, db: &QuadrantChartDatabase) -> (geo: QuadrantGeometry)
        requires
            sizes_fit(self.spec_width_hint() as int, db@),
        ensures
            geo == geometry_of(self.spec_width_hint() as int, db@),
            geometry_wf(geo),
    {
        let hint = self.config.width_hint;
        let a: usize = match longest_point_label_exec(db) {
            Some(n) => n,
            None => 8,
        };
        let b: usize = match longest_quadrant_label_exec(db) {
            Some(n) => n,
            None => 6,
        };
        let max_label = if a >= b { a } else { b };
        let hb = str_byte_len(&db.y_axis_high);
        let lb = str_byte_len(&db.y_axis_low);
        let y_len = if hb >= lb { hb } else { lb };
        let vertical = y_len <= 12;
        let lm: usize = if vertical { LABEL_COL } else { y_len + 2 };
        let cw: usize = if hint > 0 {
            let w = if hint >= lm { hint - lm } else { 0 };
            if w >= MIN_CHART_W { w } else { MIN_CHART_W }
        } else {
            let w = max_label + 8 + lm;
            let w2 = if w >= MIN_CHART_W { w } else { MIN_CHART_W };
            if w2 <= MAX_CHART_W { w2 } else { MAX_CHART_W }
        };
        let n = db.points.len();
        let extra = (if n >= 1 { n - 1 } else { 0 }) / 3;
        let h = MIN_CHART_H + extra;
        let h2 = if h >= 8 { h } else { 8 };
        let ch: usize = if h2 <= 26 { h2 } else { 26 };
        let ciw = cw - lm;
        QuadrantGeometry {
            total_w: cw + 2,
            total_h: ch + 3,
            vertical_y: vertical,
            left_margin: lm,
            cl: 1 + lm,
            ct: 1,
            cr: cw,
            cb: ch,
            ciw,
            cih: ch,
            mid_x: 1 + lm + ciw / 2,
            mid_y: 1 + ch / 2,
        }
    }
}

impl Default for QuadrantChartRenderer {
    fn default() -> (r: QuadrantChartRenderer)
        ensures
            r.spec_width_hint() == 0,
    {
        QuadrantChartRenderer::new()
    }
}


// ───────────────────────────── drawing ─────────────────────────────

/// The canvas has the size of the chart.
pub open spec fn canvas_fits(c: AsciiCanvas, geo: QuadrantGeometry) -> bool {
    &&& c.wf()
    &&& c.spec_width() == geo.total_w
    &&& c.spec_height() == geo.total_h
}

fn draw_title(canvas: &mut AsciiCanvas, db: &QuadrantChartDatabase, geo: &QuadrantGeometry)
    requires
        canvas_fits(*old(canvas), *geo),
        geometry_wf(*geo),
    ensures
        canvas_fits(*final(canvas), *geo),
        final(canvas)@ == title_stage(old(canvas)@, db@, *geo),
{
    match &db.title {
        Some(t) => {
            let mut s: Vec<char> = Vec::new();
            s.push(' ');
            append_all(&mut s, &chars_of(t.as_str()));
            s.push(' ');
            assert(s@ =~= seq![' '] + t@ + seq![' ']);
            let n = geo.total_w - 2;
            let shown = if n <= s.len() { subvec(&s, 0, n) } else { s };
            proof {
                if n <= (seq![' '] + t@ + seq![' ']).len() {
                    assert(shown@ =~= (seq![' '] + t@ + seq![' ']).take(n as int));
                }
            }
            canvas.draw_text(1, 0, &shown);
        },
        None => {},
    }
}

fn draw_axes(canvas: &mut AsciiCanvas, geo: &QuadrantGeometry)
    requires
        canvas_fits(*old(canvas), *geo),
        geometry_wf(*geo),
    ensures
        canvas_fits(*final(canvas), *geo),
        final(canvas)@ == axes_stage(old(canvas)@, *geo),
{
    let ghost g0 = canvas@;
    let mut x = geo.cl;
    while x <= geo.cr
        invariant
            canvas_fits(*canvas, *geo),
            geometry_wf(*geo),
            geo.cl <= x <= geo.cr + 1,
            canvas@ == hline_upto(g0, geo.mid_y as int, geo.cl as int, x as int),
        decreases geo.cr + 1 - x,
    {
        if canvas.get_char(x, geo.mid_y) == ' ' {
            canvas.set_char(x, geo.mid_y, '─');
        }
        x = x + 1;
    }
    let ghost g1 = canvas@;
    let mut y = geo.ct;
    while y <= geo.cb
        invariant
            canvas_fits(*canvas, *geo),
            geometry_wf(*geo),
            geo.ct <= y <= geo.cb + 1,
            canvas@ == vline_upto(g1, geo.mid_x as int, geo.ct as int, y as int),
        decreases geo.cb + 1 - y,
    {
        if canvas.get_char(geo.mid_x, y) == ' ' {
            canvas.set_char(geo.mid_x, y, '│');
        }
        y = y + 1;
    }
    canvas.set_char(geo.mid_x, geo.mid_y, '┼');
}

fn draw_y_labels(canvas: &mut AsciiCanvas, db: &QuadrantChartDatabase, geo: &QuadrantGeometry)
    requires
        canvas_fits(*old(canvas), *geo),
        geometry_wf(*geo),
        y_label_len(db@) + 3 <= usize::MAX,
        geo.vertical_y == vertical_y(db@),
    ensures
        canvas_fits(*final(canvas), *geo),
        final(canvas)@ == y_labels_stage(old(canvas)@, db@, *geo),
{
    let high = chars_of(db.y_axis_high.as_str());
    let low = chars_of(db.y_axis_low.as_str());
    let hb = str_byte_len(&db.y_axis_high);
    let lb = str_byte_len(&db.y_axis_low);
    if geo.vertical_y {
        let col = if geo.cl >= 3 { geo.cl - 3 } else { 0 };
        canvas.draw_vertical(col, geo.ct + 2, &high);
        let low_start = if geo.cb >= lb + 1 { geo.cb - (lb + 1) } else { 0 };
        canvas.draw_vertical(col, low_start, &low);
    } else {
        let high_y = geo.ct + geo.cih / 4;
        let hx = if geo.cl >= hb + 1 { geo.cl - (hb + 1) } else { 0 };
        canvas.draw_text(hx, high_y, &high);
        let low_y = geo.cb - geo.cih / 4;
        let lx = if geo.cl >= lb + 1 { geo.cl - (lb + 1) } else { 0 };
        canvas.draw_text(lx, low_y, &low);
    }
}

/// Start of a text of `nbytes` bytes centred between `x1` and `x2`.
fn centered_start_exec(x1: usize, x2: usize, nbytes: usize) -> (x: usize)
    ensures
        x == x1 + sat_sub(sat_sub(x2 as int, x1 as int), nbytes as int) / 2,
{
    let region = if x2 >= x1 { x2 - x1 } else { 0 };
    let spare = if region >= nbytes { region - nbytes } else { 0 };
    x1 + spare / 2
}

fn draw_x_labels(canvas: &mut AsciiCanvas, db: &QuadrantChartDatabase, geo: &QuadrantGeometry)
    requires
        canvas_fits(*old(canvas), *geo),
        geometry_wf(*geo),
    ensures
        canvas_fits(*final(canvas), *geo),
        final(canvas)@ == x_labels_stage(old(canvas)@, db@, *geo),
{
    let row = geo.total_h - 2;
    let left_end = if geo.mid_x >= 1 { geo.mid_x - 1 } else { 0 };
    let xl = centered_start_exec(geo.cl, left_end, str_byte_len(&db.x_axis_low));
    canvas.draw_text(xl, row, &chars_of(db.x_axis_low.as_str()));
    let xh = centered_start_exec(geo.mid_x, geo.cr, str_byte_len(&db.x_axis_high));
    canvas.draw_text(xh, row, &chars_of(db.x_axis_high.as_str()));
}

fn draw_quadrants(canvas: &mut AsciiCanvas, db: &QuadrantChartDatabase, geo: &QuadrantGeometry)
    requires
        canvas_fits(*old(canvas), *geo),
        geometry_wf(*geo),
        db@.quadrant_labels.len() == 4,
    ensures
        canvas_fits(*final(canvas), *geo),
        final(canvas)@ == quadrants_stage(old(canvas)@, db@, *geo),
{
    canvas.draw_text(geo.cl + 2, geo.ct + 1, &chars_of(db.quadrant_labels[1].as_str()));
    canvas.draw_text(geo.mid_x + 2, geo.ct + 1, &chars_of(db.quadrant_labels[0].as_str()));
    canvas.draw_text(geo.cl + 2, geo.mid_y + 1, &chars_of(db.quadrant_labels[2].as_str()));
    canvas.draw_text(geo.mid_x + 2, geo.mid_y + 1, &chars_of(db.quadrant_labels[3].as_str()));
}


// ───────────────────────────── points ─────────────────────────────

fn is_occupied(occ: &Vec<(usize, usize)>, x: usize, y: usize) -> (r: bool)
    ensures
        r == occ@.contains((x, y)),
{
    let mut i: usize = 0;
    while i < occ.len()
        invariant
            i <= occ.len(),
            forall|j: int| 0 <= j < i ==> occ@[j] != (x, y),
        decreases occ.len() - i,
    {
        if occ[i].0 == x && occ[i].1 == y {
            assert(occ@[i as int] == (x, y));
            return true;
        }
        i = i + 1;
    }
    false
}

/// A dot's row stays between 1 and `max_y`.
pub proof fn lemma_free_row_bounds(occ: Seq<(usize, usize)>, px: int, py: int, max_y: int, k: int)
    requires
        1 <= py <= max_y,
    ensures
        1 <= free_row_from(occ, px, py, max_y, k) <= max_y,
    decreases 12 - k,
{
    if 0 <= k < 12 {
        lemma_free_row_bounds(occ, px, py, max_y, k + 1);
    }
}

/// A dot goes to a row with no dot in its column, unless all twelve rows
/// tried have one; then it goes to its own row.
pub proof fn lemma_free_row_is_free(occ: Seq<(usize, usize)>, px: int, py: int, max_y: int, k: int)
    ensures
        occ.contains((px as usize, free_row_from(occ, px, py, max_y, k) as usize)) ==> free_row_from(
            occ,
            px,
            py,
            max_y,
            k,
        ) == py,
    decreases 12 - k,
{
    if 0 <= k < 12 {
        lemma_free_row_is_free(occ, px, py, max_y, k + 1);
    }
}

/// The row a dot in column `px` goes to: the first of `py`, `py + 1`,
/// `py - 1`, ..., `py + 5`, `py - 5`, each kept between 1 and `max_y`, that
/// has no dot yet, else `py`.
pub fn find_free_row(occupied: &Vec<(usize, usize)>, px: usize, py: usize, max_y: usize) -> (r: usize)
    requires
        py + 5 <= usize::MAX,
    ensures
        r == free_row_from(occupied@, px as int, py as int, max_y as int, 0),
        1 <= py <= max_y ==> 1 <= r <= max_y,
{
    proof {
        if 1 <= py <= max_y {
            lemma_free_row_bounds(occupied@, px as int, py as int, max_y as int, 0);
        }
    }
    let mut k: usize = 0;
    while k < 12
        invariant
            k <= 12,
            py + 5 <= usize::MAX,
            free_row_from(occupied@, px as int, py as int, max_y as int, 0) == free_row_from(
                occupied@,
                px as int,
                py as int,
                max_y as int,
                k as int,
            ),
        decreases 12 - k,
    {
        let dy = k / 2;
        let c1: usize = if k % 2 == 0 {
            if py + dy >= 1 { py + dy } else { 1 }
        } else {
            if py >= dy + 1 { py - dy } else { 1 }
        };
        let c2: usize = if c1 <= max_y { c1 } else { max_y };
        if !is_occupied(occupied, px, c2) {
            return c2;
        }
        k = k + 1;
    }
    py
}

/// Writes `t` from `(x0, y)` rightwards, nothing past column `last`.
fn draw_upto(canvas: &mut AsciiCanvas, x0: usize, y: usize, t: &Vec<char>, last: usize)
    requires
        old(canvas).wf(),
    ensures
        final(canvas).wf(),
        final(canvas).spec_width() == old(canvas).spec_width(),
        final(canvas).spec_height() == old(canvas).spec_height(),
        final(canvas)@ == put_text_upto(old(canvas)@, x0 as int, y as int, t@, last as int),
{
    let mut i: usize = 0;
    while i < t.len()
        invariant
            canvas.wf(),
            canvas.spec_width() == old(canvas).spec_width(),
            canvas.spec_height() == old(canvas).spec_height(),
            i <= t.len(),
            canvas@ == put_text_upto(old(canvas)@, x0 as int, y as int, t@.take(i as int), last as int),
        decreases t.len() - i,
    {
        assert(t@.take(i + 1).drop_last() =~= t@.take(i as int));
        if x0 <= last && i <= last - x0 {
            canvas.set_char(x0 + i, y, t[i]);
        }
        i = i + 1;
    }
    assert(t@.take(t.len() as int) =~= t@);
}

fn plot_one(
    canvas: &mut AsciiCanvas,
    occ: &mut Vec<(usize, usize)>,
    label: &String,
    geo: &QuadrantGeometry,
    p: PlotPoint,
)
    requires
        canvas_fits(*old(canvas), *geo),
        geometry_wf(*geo),
        geo.ciw >= 3,
        p.col + 2 <= geo.ciw,
        p.row + 2 <= geo.cih,
    ensures
        canvas_fits(*final(canvas), *geo),
        (final(canvas)@, final(occ)@) == plot_label(old(canvas)@, old(occ)@, label@, *geo, p),
{
    let lo_x = geo.cl + 1;
    let hi_x = geo.cr - 1;
    let raw_x = geo.cl + 1 + p.col;
    let px = if raw_x < lo_x { lo_x } else if raw_x > hi_x { hi_x } else { raw_x };
    let base_y = geo.cb - 1;
    let raw_y = base_y - p.row;
    let lo_y = geo.ct + 3;
    let py = if raw_y < lo_y { lo_y } else if raw_y > base_y { base_y } else { raw_y };
    assert(px as int == plot_x(*geo, p));
    assert(py as int == plot_y(*geo, p));
    let dot_y = find_free_row(occ, px, py, geo.cb);
    canvas.set_char(px, dot_y, '·');
    occ.push((px, dot_y));
    let ghost g1 = canvas@;
    let room = if geo.cr >= px + 2 { geo.cr - (px + 2) } else { 0 };
    let avail = if room >= 3 { room } else { 3 };
    let lines = wrap_chars(&chars_of(label.as_str()), avail - 1);
    let x0 = px + 2;
    let mut li: usize = 0;
    while li < lines.len()
        invariant
            canvas_fits(*canvas, *geo),
            geometry_wf(*geo),
            li <= lines.len(),
            1 <= dot_y <= geo.cb,
            canvas@ == label_rows(g1, x0 as int, dot_y as int, views(lines@), geo.cb as int, geo.cr as int, li as int),
        decreases lines.len() - li,
    {
        let ly = if li <= geo.cb - dot_y { dot_y + li } else { geo.cb };
        draw_upto(canvas, x0, ly, &lines[li], geo.cr);
        li = li + 1;
    }
}

impl QuadrantChartRenderer {
    /// The chart of `db`, with the points plotted at `plots`, in that order
    /// (a later dot avoids the rows of earlier ones in its column).
    pub fn render(&self, db: &QuadrantChartDatabase, plots: &Vec<PlotPoint>) -> (r: Result<String, DiagramError>)
        requires
            sizes_fit(self.spec_width_hint() as int, db@),
            plots_fit(db@, geometry_of(self.spec_width_hint() as int, db@), plots@),
        ensures
            r matches Ok(s) && s@ == grid_text(chart_grid(self.spec_width_hint() as int, db@, plots@)),
    {
        let geo = self.geometry(db);
        let mut canvas = AsciiCanvas::framed(geo.total_w, geo.total_h);
        draw_title(&mut canvas, db, &geo);
        draw_axes(&mut canvas, &geo);
        draw_y_labels(&mut canvas, db, &geo);
        draw_x_labels(&mut canvas, db, &geo);
        draw_quadrants(&mut canvas, db, &geo);
        let ghost g5 = canvas@;
        let mut occ: Vec<(usize, usize)> = Vec::new();
        let mut k: usize = 0;
        while k < plots.len()
            invariant
                k <= plots.len(),
                canvas_fits(canvas, geo),
                geometry_wf(geo),
                geo == geometry_of(self.spec_width_hint() as int, db@),
                plots_fit(db@, geo, plots@),
                (canvas@, occ@) == plots_stage(g5, db@, geo, plots@.take(k as int)),
            decreases plots.len() - k,
        {
            let p = plots[k];
            assert(plots@.take(k + 1).drop_last() =~= plots@.take(k as int));
            assert(plots@[k as int] == p);
            assert(p.point < db@.points.len());
            let label = &db.points[p.point].label;
            assert(db@.points[p.point as int].0 == label@);
            plot_one(&mut canvas, &mut occ, label, &geo, p);
            k = k + 1;
        }
        assert(plots@.take(plots.len() as int) =~= plots@);
        Ok(canvas.to_string())
    }
}

} // verus!
