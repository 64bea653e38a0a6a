//! A fixed-size grid of characters that renderers draw on.
use vstd::prelude::*;

use crate::text::{string_of, trim_end, trim_end_chars};

verus! {

/// Which characters a renderer draws with.
#[derive(Clone, Copy, Debug, PartialEq, Eq)]
pub enum CharacterSet {
    /// Box-drawing and arrow characters (the default).
    Unicode,
    /// Plain ASCII only.
    Ascii,
}

impl CharacterSet {
    pub fn default_set() -> (r: CharacterSet)
        ensures
            r == CharacterSet::Unicode,
    {
        CharacterSet::Unicode
    }

    pub fn is_ascii(&self) -> (r: bool)
        ensures
            r == (*self == CharacterSet::Ascii),
    {
        match self {
            CharacterSet::Ascii => true,
            CharacterSet::Unicode => false,
        }
    }
}

impl Default for CharacterSet {
    fn default() -> (r: CharacterSet)
        ensures
            r == CharacterSet::Unicode,
    {
        CharacterSet::Unicode
    }
}

/// A grid of `height` rows of `width` characters each.
pub struct AsciiCanvas {
    width: usize,
    height: usize,
    rows: Vec<Vec<char>>,
}

/// A canvas as rows of characters.
pub type Grid = Seq<Seq<char>>;

/// A grid of `h` rows of `w` spaces.
pub open spec fn blank_grid(w: nat, h: nat) -> Grid {
    Seq::new(h, |y: int| Seq::new(w, |x: int| ' '))
}

/// The grid with `c` at column `x` of row `y`, when that cell exists.
pub open spec fn put(g: Grid, x: int, y: int, c: char) -> Grid {
    if 0 <= y < g.len() && 0 <= x < g[y].len() {
        g.update(y, g[y].update(x, c))
    } else {
        g
    }
}

/// The character at column `x` of row `y`, or a space outside the grid.
pub open spec fn cell(g: Grid, x: int, y: int) -> char {
    if 0 <= y < g.len() && 0 <= x < g[y].len() {
        g[y][x]
    } else {
        ' '
    }
}

/// The grid with the characters of `t` written from column `x0` of row `y`
/// on; characters that fall outside the grid are dropped.
pub open spec fn put_text(g: Grid, x0: int, y: int, t: Seq<char>) -> Grid
    decreases t.len(),
{
    if t.len() == 0 {
        g
    } else {
        put(put_text(g, x0, y, t.drop_last()), x0 + t.len() - 1, y, t.last())
    }
}

/// The grid with the characters of `t` written downwards from row `y0` of
/// column `x`; characters that fall outside the grid are dropped.
pub open spec fn put_vtext(g: Grid, x: int, y0: int, t: Seq<char>) -> Grid
    decreases t.len(),
{
    if t.len() == 0 {
        g
    } else {
        put(put_vtext(g, x, y0, t.drop_last()), x, y0 + t.len() - 1, t.last())
    }
}

/// The character at `(x, y)` of a `w` by `h` box: corners, dashes on the top
/// and bottom rows, bars on the sides, blank inside.
pub open spec fn frame_cell(x: int, y: int, w: int, h: int) -> char {
    if y == 0 {
        if x == 0 {
            '┌'
        } else if x == w - 1 {
            '┐'
        } else {
            '─'
        }
    } else if y == h - 1 {
        if x == 0 {
            '└'
        } else if x == w - 1 {
            '┘'
        } else {
            '─'
        }
    } else if x == 0 || x == w - 1 {
        '│'
    } else {
        ' '
    }
}

/// A `w` by `h` box.
pub open spec fn frame_grid(w: nat, h: nat) -> Grid {
    Seq::new(h, |y: int| Seq::new(w, |x: int| frame_cell(x, y, w as int, h as int)))
}

fn frame_cell_exec(x: usize, y: usize, w: usize, h: usize) -> (c: char)
    requires
        w >= 1,
        h >= 1,
    ensures
        c == frame_cell(x as int, y as int, w as int, h as int),
{
    if y == 0 {
        if x == 0 {
            '┌'
        } else if x == w - 1 {
            '┐'
        } else {
            '─'
        }
    } else if y == h - 1 {
        if x == 0 {
            '└'
        } else if x == w - 1 {
            '┘'
        } else {
            '─'
        }
    } else if x == 0 || x == w - 1 {
        '│'
    } else {
        ' '
    }
}

/// Where `draw_text_centered` starts a text of `n` characters centred on `x`.
pub open spec fn centered_start(x: int, n: int) -> int {
    if x >= n / 2 {
        x - n / 2
    } else {
        0
    }
}

/// All rows, each without trailing whitespace, joined by newlines.
pub open spec fn grid_text(g: Grid) -> Seq<char>
    decreases g.len(),
{
    if g.len() == 0 {
        Seq::empty()
    } else if g.len() == 1 {
        trim_end(g[0])
    } else {
        grid_text(g.drop_last()) + seq!['\n'] + trim_end(g.last())
    }
}

pub open spec fn grid_wf(g: Grid, w: nat) -> bool {
    forall|y: int| 0 <= y < g.len() ==> (#[trigger] g[y]).len() == w
}

pub proof fn lemma_put_text_wf(g: Grid, w: nat, x0: int, y: int, t: Seq<char>)
    requires
        grid_wf(g, w),
    ensures
        grid_wf(put_text(g, x0, y, t), w),
        put_text(g, x0, y, t).len() == g.len(),
    decreases t.len(),
{
    if t.len() > 0 {
        lemma_put_text_wf(g, w, x0, y, t.drop_last());
    }
}

/// Writing text keeps the number of rows and the length of each row.
pub proof fn lemma_put_text_shape(g: Grid, x0: int, y: int, t: Seq<char>)
    ensures
        put_text(g, x0, y, t).len() == g.len(),
        forall|r: int| 0 <= r < g.len() ==> (#[trigger] put_text(g, x0, y, t)[r]).len() == g[r].len(),
    decreases t.len(),
{
    if t.len() > 0 {
        lemma_put_text_shape(g, x0, y, t.drop_last());
    }
}

/// After writing `t` from column `x0` of row `y`, a cell of the grid on
/// that row and within the text holds the text's character there; every
/// other cell is as it was.
pub proof fn lemma_put_text_cell(g: Grid, x0: int, y: int, t: Seq<char>, x: int, yy: int)
    ensures
        cell(put_text(g, x0, y, t), x, yy) == if yy == y && x0 <= x < x0 + t.len() && 0 <= y < g.len()
            && 0 <= x < g[y].len() {
            t[x - x0]
        } else {
            cell(g, x, yy)
        },
    decreases t.len(),
{
    if t.len() > 0 {
        lemma_put_text_cell(g, x0, y, t.drop_last(), x, yy);
        lemma_put_text_shape(g, x0, y, t.drop_last());
    }
}

/// Text that starts right of every cell changes nothing.
pub proof fn lemma_put_text_off(g: Grid, x0: int, y: int, t: Seq<char>)
    requires
        forall|r: int| 0 <= r < g.len() ==> (#[trigger] g[r]).len() <= x0,
    ensures
        put_text(g, x0, y, t) == g,
    decreases t.len(),
{
    if t.len() > 0 {
        lemma_put_text_off(g, x0, y, t.drop_last());
    }
}

impl View for AsciiCanvas {
    type V = Grid;

    closed spec fn view(&self) -> Grid {
        self.rows@.map_values(|r: Vec<char>| r@)
    }
}

impl AsciiCanvas {
    pub closed spec fn wf(&self) -> bool {
        &&& self.rows@.len() == self.height
        &&& forall|y: int| 0 <= y < self.rows@.len() ==> (#[trigger] self.rows@[y])@.len()
            == self.width
    }

    pub closed spec fn spec_width(&self) -> nat {
        self.width as nat
    }

    pub closed spec fn spec_height(&self) -> nat {
        self.height as nat
    }

    pub proof fn lemma_view(&self)
        requires
            self.wf(),
        ensures
            self@.len() == self.spec_height(),
            grid_wf(self@, self.spec_width()),
            self.spec_width() <= usize::MAX,
            self.spec_height() <= usize::MAX,
    {
    }

    /// A canvas of `height` rows of `width` spaces.
    pub fn new(width: usize, height: usize) -> (c: AsciiCanvas)
        ensures
            c.wf(),
            c.spec_width() == width,
            c.spec_height() == height,
            c@ == blank_grid(width as nat, height as nat),
    {
        let mut rows: Vec<Vec<char>> = Vec::new();
        let mut y: usize = 0;
        while y < height
            invariant
                y <= height,
                rows@.len() == y,
                forall|j: int| 0 <= j < y ==> (#[trigger] rows@[j])@ == Seq::new(
                    width as nat,
                    |x: int| ' ',
                ),
            decreases height - y,
        {
            let mut row: Vec<char> = Vec::new();
            let mut x: usize = 0;
            while x < width
                invariant
                    x <= width,
                    row@ == Seq::new(x as nat, |i: int| ' '),
                decreases width - x,
            {
                row.push(' ');
                x = x + 1;
                assert(row@ =~= Seq::new(x as nat, |i: int| ' '));
            }
            rows.push(row);
            y = y + 1;
        }
        let c = AsciiCanvas { width, height, rows };
        assert(c@ =~= blank_grid(width as nat, height as nat));
        c
    }

    /// A canvas of `height` rows of `width` characters holding a box.
    pub fn framed(width: usize, height: usize) -> (c: AsciiCanvas)
        requires
            width >= 1,
            height >= 1,
        ensures
            c.wf(),
            c.spec_width() == width,
            c.spec_height() == height,
            c@ == frame_grid(width as nat, height as nat),
    {
        let mut rows: Vec<Vec<char>> = Vec::new();
        let mut y: usize = 0;
        while y < height
            invariant
                y <= height,
                width >= 1,
                height >= 1,
                rows@.len() == y,
                forall|j: int| 0 <= j < y ==> (#[trigger] rows@[j])@ == Seq::new(
                    width as nat,
                    |x: int| frame_cell(x, j, width as int, height as int),
                ),
            decreases height - y,
        {
            let mut row: Vec<char> = Vec::new();
            let mut x: usize = 0;
            while x < width
                invariant
                    x <= width,
                    y < height,
                    width >= 1,
                    height >= 1,
                    row@ == Seq::new(x as nat, |i: int| frame_cell(i, y as int, width as int, height as int)),
                decreases width - x,
            {
                row.push(frame_cell_exec(x, y, width, height));
                x = x + 1;
                assert(row@ =~= Seq::new(x as nat, |i: int| frame_cell(i, y as int, width as int, height as int)));
            }
            rows.push(row);
            y = y + 1;
        }
        let c = AsciiCanvas { width, height, rows };
        assert(c@ =~= frame_grid(width as nat, height as nat));
        c
    }

    pub fn width(&self) -> (w: usize)
        ensures
            w == self.spec_width(),
    {
        self.width
    }

    pub fn height(&self) -> (h: usize)
        ensures
            h == self.spec_height(),
    {
        self.height
    }

    /// The character at `(x, y)`, or a space outside the canvas.
    pub fn get_char(&self, x: usize, y: usize) -> (c: char)
        requires
            self.wf(),
        ensures
            c == cell(self@, x as int, y as int),
    {
        if y < self.height && x < self.width {
            self.rows[y][x]
        } else {
            ' '
        }
    }

    /// Writes `c` at `(x, y)`; does nothing outside the canvas.
    pub fn set_char(&mut self, x: usize, y: usize, c: char)
        requires
            old(self).wf(),
        ensures
            final(self).wf(),
            final(self).spec_width() == old(self).spec_width(),
            final(self).spec_height() == old(self).spec_height(),
            final(self)@ == put(old(self)@, x as int, y as int, c),
    {
        if y < self.height && x < self.width {
            let mut row: Vec<char> = Vec::new();
            std::mem::swap(&mut row, &mut self.rows[y]);
            row.set(x, c);
            self.rows.set(y, row);
            assert(self@ =~= put(old(self)@, x as int, y as int, c));
        }
    }

    /// Writes the characters of `t` from `(x0, y)` rightwards.
    pub fn draw_text(&mut self, x0: usize, y: usize, t: &Vec<char>)
        requires
            old(self).wf(),
        ensures
            final(self).wf(),
            final(self).spec_width() == old(self).spec_width(),
            final(self).spec_height() == old(self).spec_height(),
            final(self)@ == put_text(old(self)@, x0 as int, y as int, t@),
    {
        let mut i: usize = 0;
        while i < t.len()
            invariant
                self.wf(),
                self.spec_width() == old(self).spec_width(),
                self.spec_height() == old(self).spec_height(),
                i <= t.len(),
                self@ == put_text(old(self)@, x0 as int, y as int, t@.subrange(0, i as int)),
            decreases t.len() - i,
        {
            if x0 <= usize::MAX - i {
                self.set_char(x0 + i, y, t[i]);
            } else {
                // beyond the last column the canvas can have
                proof {
                    self.lemma_view();
                }
            }
            assert(t@.subrange(0, i + 1).drop_last() =~= t@.subrange(0, i as int));
            i = i + 1;
        }
        assert(t@.subrange(0, t.len() as int) =~= t@);
    }

    /// Writes the characters of `t` from `(x, y0)` downwards.
    pub fn draw_vertical(&mut self, x: usize, y0: usize, t: &Vec<char>)
        requires
            old(self).wf(),
        ensures
            final(self).wf(),
            final(self).spec_width() == old(self).spec_width(),
            final(self).spec_height() == old(self).spec_height(),
            final(self)@ == put_vtext(old(self)@, x as int, y0 as int, t@),
    {
        let mut i: usize = 0;
        while i < t.len()
            invariant
                self.wf(),
                self.spec_width() == old(self).spec_width(),
                self.spec_height() == old(self).spec_height(),
                i <= t.len(),
                self@ == put_vtext(old(self)@, x as int, y0 as int, t@.subrange(0, i as int)),
            decreases t.len() - i,
        {
            if y0 <= usize::MAX - i {
                self.set_char(x, y0 + i, t[i]);
            } else {
                // below the last row the canvas can have
                proof {
                    self.lemma_view();
                }
            }
            assert(t@.subrange(0, i + 1).drop_last() =~= t@.subrange(0, i as int));
            i = i + 1;
        }
        assert(t@.subrange(0, t.len() as int) =~= t@);
    }

    /// Writes `t` centred on column `x` of row `y`.
    pub fn draw_text_centered(&mut self, x: usize, y: usize, t: &Vec<char>)
        requires
            old(self).wf(),
        ensures
            final(self).wf(),
            final(self).spec_width() == old(self).spec_width(),
            final(self).spec_height() == old(self).spec_height(),
            final(self)@ == put_text(
                old(self)@,
                centered_start(x as int, t@.len() as int),
                y as int,
                t@,
            ),
    {
        let half = t.len() / 2;
        let start = if x >= half { x - half } else { 0 };
        self.draw_text(start, y, t);
    }

    /// The rows, each without trailing whitespace, joined by newlines.
    pub fn to_string(&self) -> (s: String)
        requires
            self.wf(),
        ensures
            s@ == grid_text(self@),
    {
        let mut out: Vec<char> = Vec::new();
        let mut y: usize = 0;
        while y < self.rows.len()
            invariant
                y <= self.rows@.len(),
                out@ == grid_text(self@.subrange(0, y as int)),
            decreases self.rows@.len() - y,
        {
            let line = trim_end_chars(&self.rows[y]);
            if y > 0 {
                out.push('\n');
            }
            crate::text::append_all(&mut out, &line);
            let ghost g1 = self@.subrange(0, y + 1);
            assert(g1.drop_last() =~= self@.subrange(0, y as int));
            y = y + 1;
        }
        assert(self@.subrange(0, self.rows@.len() as int) =~= self@);
        string_of(&out)
    }
}

} // verus!
