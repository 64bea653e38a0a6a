//! Sequence diagram text renderer.
use vstd::prelude::*;

use super::database::{ArrowHead, ArrowType, LineStyle, SequenceDatabase};
use super::layout::{
    label_widths, layout_fits, layout_ok, message_widths, PositionedMessage,
    PositionedParticipant, SequenceLayoutAlgorithm, SequenceLayoutResult,
};
use crate::canvas::{
    blank_grid, cell, centered_start, grid_text, lemma_put_text_cell, put, put_text, AsciiCanvas,
    CharacterSet, Grid,
};
use crate::diagram::DiagramError;
use crate::text::chars_of;

verus! {

/// Sequence diagram renderer.
pub struct SequenceRenderer {
    style: CharacterSet,
}

// ───────────────────────────── what gets drawn ─────────────────────────────

/// `c` in every cell of row `y` from column `lo` to column `hi`.
pub open spec fn hrun(g: Grid, lo: int, hi: int, y: int, c: char) -> Grid
    decreases hi - lo + 1,
{
    if hi < lo {
        g
    } else {
        put(hrun(g, lo, hi - 1, y, c), hi, y, c)
    }
}

/// `c` in every blank cell of column `x` from row `lo` to row `hi`.
pub open spec fn vrun_blank(g: Grid, x: int, lo: int, hi: int, c: char) -> Grid
    decreases hi - lo + 1,
{
    if hi < lo {
        g
    } else {
        let g2 = vrun_blank(g, x, lo, hi - 1, c);
        if cell(g2, x, hi) == ' ' {
            put(g2, x, hi, c)
        } else {
            g2
        }
    }
}

/// Line character of a message shaft.
pub open spec fn shaft_char(solid: bool, uni: bool) -> char {
    if solid {
        if uni {
            '─'
        } else {
            '-'
        }
    } else if uni {
        '╌'
    } else {
        '-'
    }
}

/// Left column of a box of width `width` centred on `x`.
pub open spec fn box_left_col(x: int, width: int) -> int {
    if x >= width / 2 {
        x - width / 2
    } else {
        0
    }
}

/// A participant box three rows high with its label on the middle row.
pub open spec fn box_at(g: Grid, x: int, y: int, label: Seq<char>, width: int, uni: bool) -> Grid {
    let left = box_left_col(x, width);
    let right = left + width - 1;
    let (tl, tr, bl, br, h, v) = if uni {
        ('┌', '┐', '└', '┘', '─', '│')
    } else {
        ('+', '+', '+', '+', '-', '|')
    };
    let g1 = put(g, left, y, tl);
    let g2 = hrun(g1, left + 1, right - 1, y, h);
    let g3 = put(g2, right, y, tr);
    let g4 = put(g3, left, y + 1, v);
    let g5 = put(g4, right, y + 1, v);
    let g6 = put(g5, left, y + 2, bl);
    let g7 = hrun(g6, left + 1, right - 1, y + 2, h);
    let g8 = put(g7, right, y + 2, br);
    put_text(g8, centered_start(x, label.len() as int), y + 1, label)
}

/// A self-message: a loop marker right of the lifeline, then the label.
pub open spec fn self_message_at(g: Grid, x: int, y: int, label: Seq<char>, arrow: ArrowType, uni: bool) -> Grid {
    let mark = if uni {
        if arrow.line == LineStyle::Solid {
            '↩'
        } else {
            '↺'
        }
    } else {
        '*'
    };
    let g1 = put(g, x + 1, y, mark);
    if label.len() > 0 {
        put_text(g1, x + 3, y, label)
    } else {
        g1
    }
}

/// Arrow head character of a message going right or left.
pub open spec fn head_char(head: ArrowHead, going_right: bool, uni: bool) -> char {
    match head {
        ArrowHead::Arrow => if uni {
            if going_right {
                '▶'
            } else {
                '◀'
            }
        } else if going_right {
            '>'
        } else {
            '<'
        },
        ArrowHead::Open => if going_right {
            ')'
        } else {
            '('
        },
        ArrowHead::NoHead => ' ',
    }
}

/// A message arrow from column `from` to column `to` on row `y`, its label
/// centred on the arrow.
pub open spec fn message_at(
    g: Grid,
    from: int,
    to: int,
    y: int,
    label: Seq<char>,
    arrow: ArrowType,
    uni: bool,
) -> Grid {
    if from == to {
        self_message_at(g, from, y, label, arrow, uni)
    } else {
        let going_right = to > from;
        let offset: int = if arrow.head == ArrowHead::NoHead {
            1
        } else {
            0
        };
        let start = if going_right {
            from + 1
        } else {
            to + 1 + offset
        };
        let end = if going_right {
            if to >= 1 - offset {
                to - (1 - offset)
            } else {
                0
            }
        } else if from >= 1 {
            from - 1
        } else {
            0
        };
        let g1 = if start < end {
            hrun(g, start, end, y, shaft_char(arrow.line == LineStyle::Solid, uni))
        } else {
            g
        };
        let g2 = if arrow.head != ArrowHead::NoHead {
            put(g1, to, y, head_char(arrow.head, going_right, uni))
        } else {
            g1
        };
        if label.len() > 0 {
            put_text(g2, centered_start((from + to) / 2, label.len() as int), y, label)
        } else {
            g2
        }
    }
}

proof fn lemma_hrun_shape(g: Grid, lo: int, hi: int, y: int, c: char)
    ensures
        hrun(g, lo, hi, y, c).len() == g.len(),
        forall|r: int| 0 <= r < g.len() ==> (#[trigger] hrun(g, lo, hi, y, c)[r]).len() == g[r].len(),
    decreases hi - lo + 1,
{
    if hi >= lo {
        lemma_hrun_shape(g, lo, hi - 1, y, c);
    }
}

proof fn lemma_hrun_cell(g: Grid, lo: int, hi: int, y: int, c: char, x: int, yy: int)
    ensures
        cell(hrun(g, lo, hi, y, c), x, yy) == if yy == y && lo <= x <= hi && 0 <= y < g.len() && 0 <= x
            < g[y].len() {
            c
        } else {
            cell(g, x, yy)
        },
    decreases hi - lo + 1,
{
    if hi >= lo {
        lemma_hrun_cell(g, lo, hi - 1, y, c, x, yy);
        lemma_hrun_shape(g, lo, hi - 1, y, c);
    }
}

/// Between the sender's and the receiver's lifelines a message with a head
/// is a line, `─` (`-` in ASCII) when solid and `╌` (`-`) when dotted, at
/// least two columns long once the two ends are three or more columns
/// apart; the label, centred between the ends, is written over it.
pub proof fn lemma_message_shaft(
    g: Grid,
    from: int,
    to: int,
    y: int,
    label: Seq<char>,
    arrow: ArrowType,
    uni: bool,
    x: int,
)
    requires
        arrow.head != ArrowHead::NoHead,
        from + 3 <= to || to + 3 <= from,
        from < x < to || to < x < from,
        0 <= y < g.len(),
        0 <= x < g[y].len(),
    ensures
        ({
            let c = cell(message_at(g, from, to, y, label, arrow, uni), x, y);
            let cs = centered_start((from + to) / 2, label.len() as int);
            &&& cs <= x < cs + label.len() ==> c == label[x - cs]
            &&& !(cs <= x < cs + label.len()) ==> c == if arrow.line == LineStyle::Solid {
                if uni {
                    '─'
                } else {
                    '-'
                }
            } else if uni {
                '╌'
            } else {
                '-'
            }
        }),
{
    let going_right = to > from;
    let start = if going_right { from + 1 } else { to + 1 };
    let end = if going_right { to - 1 } else { from - 1 };
    let sc = shaft_char(arrow.line == LineStyle::Solid, uni);
    lemma_hrun_shape(g, start, end, y, sc);
    lemma_hrun_cell(g, start, end, y, sc, x, y);
    let g1 = hrun(g, start, end, y, sc);
    let g2 = put(g1, to, y, head_char(arrow.head, going_right, uni));
    assert(cell(g2, x, y) == sc);
    let cs = centered_start((from + to) / 2, label.len() as int);
    if label.len() > 0 {
        lemma_put_text_cell(g2, cs, y, label, x, y);
    }
}

/// A message's label is written on the arrow's row, centred between the
/// two lifelines (from column 0 when it is wider than twice the centre).
pub proof fn lemma_message_label(
    g: Grid,
    from: int,
    to: int,
    y: int,
    label: Seq<char>,
    arrow: ArrowType,
    uni: bool,
    i: int,
)
    requires
        from != to,
        0 <= i < label.len(),
        0 <= y < g.len(),
        0 <= centered_start((from + to) / 2, label.len() as int) + i < g[y].len(),
    ensures
        cell(
            message_at(g, from, to, y, label, arrow, uni),
            centered_start((from + to) / 2, label.len() as int) + i,
            y,
        ) == label[i],
{
    let going_right = to > from;
    let offset: int = if arrow.head == ArrowHead::NoHead { 1 } else { 0 };
    let start = if going_right { from + 1 } else { to + 1 + offset };
    let end = if going_right {
        if to >= 1 - offset { to - (1 - offset) } else { 0 }
    } else if from >= 1 {
        from - 1
    } else {
        0
    };
    let sc = shaft_char(arrow.line == LineStyle::Solid, uni);
    lemma_hrun_shape(g, start, end, y, sc);
    let g1 = if start < end { hrun(g, start, end, y, sc) } else { g };
    let g2 = if arrow.head != ArrowHead::NoHead {
        put(g1, to, y, head_char(arrow.head, going_right, uni))
    } else {
        g1
    };
    let cs = centered_start((from + to) / 2, label.len() as int);
    lemma_put_text_cell(g2, cs, y, label, cs + i, y);
}

/// A message's head is drawn on the receiver's lifeline and points toward
/// it: left (`◀`, or `<` in ASCII; `(` for an open head) when the receiver
/// is left of the sender, right (`▶`, `>`; `)`) when it is right of it,
/// unless the label is written over that cell.
pub proof fn lemma_message_head_points_to_receiver(
    g: Grid,
    from: int,
    to: int,
    y: int,
    label: Seq<char>,
    arrow: ArrowType,
    uni: bool,
)
    requires
        from != to,
        arrow.head != ArrowHead::NoHead,
        0 <= y < g.len(),
        0 <= to < g[y].len(),
        label.len() == 0 || !(centered_start((from + to) / 2, label.len() as int) <= to
            < centered_start((from + to) / 2, label.len() as int) + label.len()),
    ensures
        cell(message_at(g, from, to, y, label, arrow, uni), to, y) == if arrow.head == ArrowHead::Arrow {
            if to < from {
                if uni {
                    '◀'
                } else {
                    '<'
                }
            } else if uni {
                '▶'
            } else {
                '>'
            }
        } else if to < from {
            '('
        } else {
            ')'
        },
{
    let going_right = to > from;
    let offset: int = if arrow.head == ArrowHead::NoHead { 1 } else { 0 };
    let start = if going_right { from + 1 } else { to + 1 + offset };
    let end = if going_right {
        if to >= 1 - offset { to - (1 - offset) } else { 0 }
    } else if from >= 1 {
        from - 1
    } else {
        0
    };
    let sc = shaft_char(arrow.line == LineStyle::Solid, uni);
    lemma_hrun_shape(g, start, end, y, sc);
    let g1 = if start < end { hrun(g, start, end, y, sc) } else { g };
    let g2 = put(g1, to, y, head_char(arrow.head, going_right, uni));
    assert(cell(g2, to, y) == head_char(arrow.head, going_right, uni));
    if label.len() > 0 {
        lemma_put_text_cell(g2, centered_start((from + to) / 2, label.len() as int), y, label, to, y);
    }
}

pub open spec fn paint_boxes(g: Grid, pp: Seq<PositionedParticipant>, uni: bool, k: int) -> Grid
    decreases k,
{
    if k <= 0 {
        g
    } else {
        box_at(
            paint_boxes(g, pp, uni, k - 1),
            pp[k - 1].x as int,
            0,
            pp[k - 1].label@,
            pp[k - 1].width as int,
            uni,
        )
    }
}

pub open spec fn paint_lifelines(
    g: Grid,
    pp: Seq<PositionedParticipant>,
    y1: int,
    y2: int,
    uni: bool,
    k: int,
) -> Grid
    decreases k,
{
    if k <= 0 {
        g
    } else {
        vrun_blank(
            paint_lifelines(g, pp, y1, y2, uni, k - 1),
            pp[k - 1].x as int,
            y1,
            y2,
            if uni {
                '│'
            } else {
                '|'
            },
        )
    }
}

pub open spec fn paint_messages(g: Grid, pm: Seq<PositionedMessage>, uni: bool, k: int) -> Grid
    decreases k,
{
    if k <= 0 {
        g
    } else {
        let m = pm[k - 1];
        message_at(
            paint_messages(g, pm, uni, k - 1),
            m.from_x as int,
            m.to_x as int,
            m.y as int,
            m.label@,
            m.arrow,
            uni,
        )
    }
}

/// The picture of a layout: boxes, then lifelines, then messages.
pub open spec fn paint(lay: &SequenceLayoutResult, uni: bool) -> Grid {
    let pp = lay.participants@;
    let pm = lay.messages@;
    let g0 = blank_grid(lay.width as nat, lay.height as nat);
    let g1 = paint_boxes(g0, pp, uni, pp.len() as int);
    let g2 = paint_lifelines(g1, pp, lay.lifeline_start_y as int, lay.height - 1, uni, pp.len() as int);
    paint_messages(g2, pm, uni, pm.len() as int)
}

// ───────────────────────────── drawing ─────────────────────────────

impl SequenceRenderer {
    pub closed spec fn style_of(&self) -> CharacterSet {
        self.style
    }

    pub open spec fn spec_unicode(&self) -> bool {
        self.style_of() != CharacterSet::Ascii
    }

    /// A renderer drawing with box-drawing characters.
    pub fn new() -> (r: SequenceRenderer)
        ensures
            r.spec_unicode(),
    {
        SequenceRenderer { style: CharacterSet::default_set() }
    }

    /// The renderer's name.
    pub fn name(&self) -> (r: &'static str)
        ensures
            r@ == "ascii"@,
    {
        "ascii"
    }

    pub fn version(&self) -> (r: &'static str)
        ensures
            r@ == "0.1.0"@,
    {
        "0.1.0"
    }

    /// The output format: plain text.
    pub fn format(&self) -> (r: &'static str)
        ensures
            r@ == "ascii"@,
    {
        "ascii"
    }

    /// A renderer drawing with `style`.
    pub fn with_style(style: CharacterSet) -> (r: SequenceRenderer)
        ensures
            r.style_of() == style,
    {
        SequenceRenderer { style }
    }

    fn is_unicode(&self) -> (r: bool)
        ensures
            r == self.spec_unicode(),
    {
        !self.style.is_ascii()
    }

    /// Writes `c` from column `lo` to column `hi` of row `y`.
    fn fill_row(canvas: &mut AsciiCanvas, lo: usize, hi: usize, y: usize, c: char)
        requires
            old(canvas).wf(),
        ensures
            final(canvas).wf(),
            final(canvas).spec_width() == old(canvas).spec_width(),
            final(canvas).spec_height() == old(canvas).spec_height(),
            final(canvas)@ == hrun(old(canvas)@, lo as int, hi as int, y as int, c),
    {
        if hi < lo {
            return;
        }
        let mut x = lo;
        loop
            invariant_except_break
                canvas@ == hrun(old(canvas)@, lo as int, x - 1, y as int, c),
            invariant
                canvas.wf(),
                canvas.spec_width() == old(canvas).spec_width(),
                canvas.spec_height() == old(canvas).spec_height(),
                lo <= x <= hi,
            ensures
                canvas.wf(),
                canvas.spec_width() == old(canvas).spec_width(),
                canvas.spec_height() == old(canvas).spec_height(),
                canvas@ == hrun(old(canvas)@, lo as int, hi as int, y as int, c),
            decreases hi - x,
        {
            canvas.set_char(x, y, c);
            if x == hi {
                break;
            }
            x = x + 1;
        }
    }

    /// Draws a horizontal line between columns `x1` and `x2` of row `y`.
    fn draw_styled_horizontal(&self, canvas: &mut AsciiCanvas, x1: usize, x2: usize, y: usize, solid: bool)
        requires
            old(canvas).wf(),
        ensures
            final(canvas).wf(),
            final(canvas).spec_width() == old(canvas).spec_width(),
            final(canvas).spec_height() == old(canvas).spec_height(),
            final(canvas)@ == hrun(
                old(canvas)@,
                if x1 < x2 { x1 as int } else { x2 as int },
                if x1 < x2 { x2 as int } else { x1 as int },
                y as int,
                shaft_char(solid, self.spec_unicode()),
            ),
    {
        let (start, end) = if x1 < x2 { (x1, x2) } else { (x2, x1) };
        let line_char = if solid {
            if self.is_unicode() { '─' } else { '-' }
        } else if self.is_unicode() {
            '╌'
        } else {
            '-'
        };
        Self::fill_row(canvas, start, end, y, line_char);
    }

    /// Draws a lifeline in column `x` between rows `y1` and `y2`, leaving
    /// cells that already hold a character alone.
    fn draw_lifeline(&self, canvas: &mut AsciiCanvas, x: usize, y1: usize, y2: usize)
        requires
            old(canvas).wf(),
        ensures
            final(canvas).wf(),
            final(canvas).spec_width() == old(canvas).spec_width(),
            final(canvas).spec_height() == old(canvas).spec_height(),
            final(canvas)@ == vrun_blank(
                old(canvas)@,
                x as int,
                if y1 < y2 { y1 as int } else { y2 as int },
                if y1 < y2 { y2 as int } else { y1 as int },
                if self.spec_unicode() { '│' } else { '|' },
            ),
    {
        let (start, end) = if y1 < y2 { (y1, y2) } else { (y2, y1) };
        let line_char = if self.is_unicode() { '│' } else { '|' };
        let mut y = start;
        loop
            invariant_except_break
                canvas@ == vrun_blank(old(canvas)@, x as int, start as int, y - 1, line_char),
            invariant
                canvas.wf(),
                canvas.spec_width() == old(canvas).spec_width(),
                canvas.spec_height() == old(canvas).spec_height(),
                start <= y <= end,
            ensures
                canvas.wf(),
                canvas.spec_width() == old(canvas).spec_width(),
                canvas.spec_height() == old(canvas).spec_height(),
                canvas@ == vrun_blank(old(canvas)@, x as int, start as int, end as int, line_char),
            decreases end - y,
        {
            if canvas.get_char(x, y) == ' ' {
                canvas.set_char(x, y, line_char);
            }
            if y == end {
                break;
            }
            y = y + 1;
        }
    }

    /// Draws a participant box centred on column `x` from row `y` down.
    fn draw_participant(&self, canvas: &mut AsciiCanvas, x: usize, y: usize, label: &Vec<char>, width: usize)
        requires
            old(canvas).wf(),
            width >= 1,
            box_left_col(x as int, width as int) + width <= usize::MAX,
            y + 2 <= usize::MAX,
        ensures
            final(canvas).wf(),
            final(canvas).spec_width() == old(canvas).spec_width(),
            final(canvas).spec_height() == old(canvas).spec_height(),
            final(canvas)@ == box_at(
                old(canvas)@,
                x as int,
                y as int,
                label@,
                width as int,
                self.spec_unicode(),
            ),
    {
        let unicode = self.is_unicode();
        let left = if x >= width / 2 { x - width / 2 } else { 0 };
        let right = left + width - 1;
        let (tl, tr, bl, br, h, v) = if unicode {
            ('┌', '┐', '└', '┘', '─', '│')
        } else {
            ('+', '+', '+', '+', '-', '|')
        };
        canvas.set_char(left, y, tl);
        if left + 1 <= right {
            Self::fill_row(canvas, left + 1, right - 1, y, h);
        }
        canvas.set_char(right, y, tr);
        canvas.set_char(left, y + 1, v);
        canvas.set_char(right, y + 1, v);
        canvas.set_char(left, y + 2, bl);
        if left + 1 <= right {
            Self::fill_row(canvas, left + 1, right - 1, y + 2, h);
        }
        canvas.set_char(right, y + 2, br);
        canvas.draw_text_centered(x, y + 1, label);
    }

    /// Draws a self-message as a loop marker right of the lifeline in column
    /// `x`, with the label two columns further right.
    fn draw_self_message(&self, canvas: &mut AsciiCanvas, x: usize, y: usize, label: &Vec<char>, arrow: &ArrowType)
        requires
            old(canvas).wf(),
        ensures
            final(canvas).wf(),
            final(canvas).spec_width() == old(canvas).spec_width(),
            final(canvas).spec_height() == old(canvas).spec_height(),
            final(canvas)@ == self_message_at(
                old(canvas)@,
                x as int,
                y as int,
                label@,
                *arrow,
                self.spec_unicode(),
            ),
    {
        let unicode = self.is_unicode();
        let loop_char = if unicode {
            match arrow.line {
                LineStyle::Solid => '↩',
                LineStyle::Dotted => '↺',
            }
        } else {
            '*'
        };
        proof {
            old(canvas).lemma_view();
        }
        if x < usize::MAX {
            canvas.set_char(x + 1, y, loop_char);
        }
        if label.len() > 0 {
            if x <= usize::MAX - 3 {
                canvas.draw_text(x + 3, y, label);
            } else {
                // the label would start past the last column a canvas can have
                proof {
                    canvas.lemma_view();
                    crate::canvas::lemma_put_text_off(canvas@, x + 3, y as int, label@);
                }
            }
        }
    }

    /// Draws a message arrow with its label from column `from_x` to column `to_x`.
    fn draw_message(
        &self,
        canvas: &mut AsciiCanvas,
        from_x: usize,
        to_x: usize,
        y: usize,
        label: &Vec<char>,
        arrow: &ArrowType,
    )
        requires
            old(canvas).wf(),
            from_x < usize::MAX,
            to_x < usize::MAX,
            to_x < from_x ==> to_x + 2 <= usize::MAX,
        ensures
            final(canvas).wf(),
            final(canvas).spec_width() == old(canvas).spec_width(),
            final(canvas).spec_height() == old(canvas).spec_height(),
            final(canvas)@ == message_at(
                old(canvas)@,
                from_x as int,
                to_x as int,
                y as int,
                label@,
                *arrow,
                self.spec_unicode(),
            ),
    {
        let unicode = self.is_unicode();
        if from_x == to_x {
            self.draw_self_message(canvas, from_x, y, label, arrow);
            return;
        }
        let going_right = to_x > from_x;
        let solid = match arrow.line {
            LineStyle::Solid => true,
            LineStyle::Dotted => false,
        };
        let (arrow_char, arrow_offset): (char, usize) = match arrow.head {
            ArrowHead::Arrow => {
                if unicode {
                    if going_right { ('▶', 0) } else { ('◀', 0) }
                } else if going_right {
                    ('>', 0)
                } else {
                    ('<', 0)
                }
            },
            ArrowHead::Open => {
                if going_right { (')', 0) } else { ('(', 0) }
            },
            ArrowHead::NoHead => (' ', 1),
        };
        let (line_start, line_end) = if going_right {
            (from_x + 1, to_x.saturating_sub(1 - arrow_offset))
        } else {
            (to_x + 1 + arrow_offset, from_x.saturating_sub(1))
        };
        if line_start < line_end {
            self.draw_styled_horizontal(canvas, line_start, line_end, y, solid);
        }
        let has_head = match arrow.head {
            ArrowHead::NoHead => false,
            _ => true,
        };
        if has_head {
            canvas.set_char(to_x, y, arrow_char);
        }
        if label.len() > 0 {
            // (from_x + to_x) / 2, computed without overflow
            let center_x = from_x / 2 + to_x / 2 + (from_x % 2 + to_x % 2) / 2;
            assert(center_x == (from_x + to_x) / 2) by (nonlinear_arith)
                requires
                    center_x == from_x / 2 + to_x / 2 + (from_x % 2 + to_x % 2) / 2,
                    from_x >= 0,
                    to_x >= 0,
            ;
            canvas.draw_text_centered(center_x, y, label);
        }
    }
}

/// A layout that can be drawn without overflow: the lifelines start above
/// the last row, every box is at least one column wide and ends within
/// `usize`, and every message end leaves room for its arrow head.
pub open spec fn drawable(lay: &SequenceLayoutResult) -> bool {
    lay.participants@.len() > 0 ==> {
        &&& lay.lifeline_start_y < lay.height
        &&& forall|i: int|
            0 <= i < lay.participants@.len() ==> {
                &&& (#[trigger] lay.participants@[i]).width >= 1
                &&& box_left_col(lay.participants@[i].x as int, lay.participants@[i].width as int)
                    + lay.participants@[i].width <= usize::MAX
            }
        &&& forall|j: int|
            0 <= j < lay.messages@.len() ==> {
                &&& (#[trigger] lay.messages@[j]).from_x < usize::MAX
                &&& lay.messages@[j].to_x < usize::MAX
                &&& lay.messages@[j].to_x < lay.messages@[j].from_x ==> lay.messages@[j].to_x + 2
                    <= usize::MAX
            }
    }
}

/// Every layout of a database can be drawn.
pub proof fn lemma_layout_drawable(
    db: &SequenceDatabase,
    lws: Seq<usize>,
    mws: Seq<usize>,
    lay: &SequenceLayoutResult,
)
    requires
        lws.len() == db.spec_participants().len(),
        mws.len() == db.spec_messages().len(),
        layout_ok(db, lws, mws, lay),
    ensures
        drawable(lay),
{
    if lay.participants@.len() > 0 {
        assert forall|i: int| 0 <= i < lay.participants@.len() implies {
            &&& (#[trigger] lay.participants@[i]).width >= 1
            &&& box_left_col(lay.participants@[i].x as int, lay.participants@[i].width as int)
                + lay.participants@[i].width <= usize::MAX
        } by {
            crate::sequence::layout::lemma_boxes_within(db, lws, mws, lay, i);
        }
        assert forall|j: int| 0 <= j < lay.messages@.len() implies {
            &&& (#[trigger] lay.messages@[j]).from_x < usize::MAX
            &&& lay.messages@[j].to_x < usize::MAX
            &&& lay.messages@[j].to_x < lay.messages@[j].from_x ==> lay.messages@[j].to_x + 2
                <= usize::MAX
        } by {
            crate::sequence::layout::lemma_messages_within(db, lws, mws, lay, j);
        }
    }
}

impl SequenceRenderer {
    /// Draws a layout: participant boxes on the first three rows, a lifeline
    /// below each from `lifeline_start_y` to the last row, then each message
    /// arrow on its row. A layout without participants gives no text.
    pub fn render_layout(&self, layout: &SequenceLayoutResult) -> (s: String)
        requires
            drawable(layout),
        ensures
            layout.participants@.len() == 0 ==> s@.len() == 0,
            layout.participants@.len() > 0 ==> s@ == grid_text(paint(layout, self.spec_unicode())),
    {
        if layout.participants.len() == 0 {
            return String::new();
        }
        let ghost uni = self.spec_unicode();
        let mut canvas = AsciiCanvas::new(layout.width, layout.height);
        let ghost g0 = canvas@;
        let pp = &layout.participants;
        let mut i: usize = 0;
        while i < pp.len()
            invariant
                drawable(layout),
                pp@ == layout.participants@,
                pp@.len() > 0,
                uni == self.spec_unicode(),
                canvas.wf(),
                canvas.spec_width() == layout.width,
                canvas.spec_height() == layout.height,
                i <= pp.len(),
                canvas@ == paint_boxes(g0, pp@, uni, i as int),
            decreases pp.len() - i,
        {
            let label = chars_of(pp[i].label.as_str());
            assert(pp@[i as int].width >= 1);
            self.draw_participant(&mut canvas, pp[i].x, 0, &label, pp[i].width);
            i = i + 1;
        }
        let ghost g1 = canvas@;
        let mut i: usize = 0;
        while i < pp.len()
            invariant
                drawable(layout),
                pp@ == layout.participants@,
                pp@.len() > 0,
                layout.lifeline_start_y < layout.height,
                uni == self.spec_unicode(),
                canvas.wf(),
                canvas.spec_width() == layout.width,
                canvas.spec_height() == layout.height,
                i <= pp.len(),
                canvas@ == paint_lifelines(
                    g1,
                    pp@,
                    layout.lifeline_start_y as int,
                    layout.height - 1,
                    uni,
                    i as int,
                ),
            decreases pp.len() - i,
        {
            self.draw_lifeline(&mut canvas, pp[i].x, layout.lifeline_start_y, layout.height - 1);
            i = i + 1;
        }
        let ghost g2 = canvas@;
        let pm = &layout.messages;
        let mut k: usize = 0;
        while k < pm.len()
            invariant
                drawable(layout),
                pm@ == layout.messages@,
                layout.participants@.len() > 0,
                uni == self.spec_unicode(),
                canvas.wf(),
                canvas.spec_width() == layout.width,
                canvas.spec_height() == layout.height,
                k <= pm.len(),
                canvas@ == paint_messages(g2, pm@, uni, k as int),
            decreases pm.len() - k,
        {
            let label = chars_of(pm[k].label.as_str());
            assert(pm@[k as int].from_x < usize::MAX);
            self.draw_message(&mut canvas, pm[k].from_x, pm[k].to_x, pm[k].y, &label, &pm[k].arrow);
            k = k + 1;
        }
        canvas.to_string()
    }

    /// Renders `database` as text: participant boxes on the first three rows,
    /// a lifeline below each, and one message arrow every second row.
    pub fn render(&self, database: &SequenceDatabase) -> (r: Result<String, DiagramError>)
        requires
            database.wf(),
        ensures
            ({
                let lws = label_widths(database.spec_participants());
                let mws = message_widths(database.spec_messages());
                match r {
                    Ok(s) => {
                        &&& layout_fits(database, lws, mws)
                        &&& database.spec_participants().len() == 0 ==> s@.len() == 0
                        &&& database.spec_participants().len() > 0 ==> exists|lay: SequenceLayoutResult|
                            #[trigger] layout_ok(database, lws, mws, &lay) && s@ == grid_text(
                                paint(&lay, self.spec_unicode()),
                            )
                    },
                    Err(e) => !layout_fits(database, lws, mws) && e == DiagramError::Overflow,
                }
            }),
    {
        let ghost lws = label_widths(database.spec_participants());
        let ghost mws = message_widths(database.spec_messages());
        let layout_algo = SequenceLayoutAlgorithm::new();
        let layout = match layout_algo.layout(database) {
            Ok(l) => l,
            Err(e) => return Err(e),
        };
        proof {
            lemma_layout_drawable(database, lws, mws, &layout);
        }
        let out = self.render_layout(&layout);
        assert(layout_ok(database, lws, mws, &layout));
        Ok(out)
    }
}

impl Default for SequenceRenderer {
    fn default() -> (r: SequenceRenderer)
        ensures
            r.spec_unicode(),
    {
        SequenceRenderer::new()
    }
}

} // verus!
