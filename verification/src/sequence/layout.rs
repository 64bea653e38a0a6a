//! Sequence diagram layout: where participants and messages go.
use vstd::prelude::*;

use super::database::{index_of, ArrowType, Message, Participant, SequenceDatabase};
use crate::diagram::DiagramError;

verus! {

/// Display width of `s` in terminal columns, as `unicode_width` computes it.
pub uninterp spec fn display_width(s: Seq<char>) -> usize;

/// `UnicodeWidthStr::width` of the `unicode-width` crate.
///
/// Trusted: the result is the crate's width of the string, which depends on the
/// string alone; nothing more is claimed of its value.
#[verifier::external_body]
fn str_width(s: &str) -> (w: usize)
    ensures
        w == display_width(s@),
{
    unicode_width::UnicodeWidthStr::width(s)
}

/// Participant placed on the canvas.
#[derive(Debug)]
pub struct PositionedParticipant {
    pub id: String,
    pub label: String,
    /// Column of the lifeline (centre of the box).
    pub x: usize,
    /// Width of the participant box.
    pub width: usize,
}

/// Message placed on the canvas.
#[derive(Debug)]
pub struct PositionedMessage {
    pub from_x: usize,
    pub to_x: usize,
    pub y: usize,
    pub label: String,
    pub arrow: ArrowType,
    pub depth: usize,
}

/// Everything the renderer needs to draw a sequence diagram.
#[derive(Debug)]
pub struct SequenceLayoutResult {
    pub participants: Vec<PositionedParticipant>,
    pub messages: Vec<PositionedMessage>,
    pub width: usize,
    pub height: usize,
    /// Row where lifelines begin (the last row of the participant boxes).
    pub lifeline_start_y: usize,
}

/// Sequence diagram layout algorithm.
pub struct SequenceLayoutAlgorithm {
    participant_padding: usize,
    participant_spacing: usize,
    message_height: usize,
    header_height: usize,
}

// ───────────────────────────── the model ─────────────────────────────

/// Sum of `s[lo..hi]`.
pub open spec fn sum(s: Seq<int>, lo: int, hi: int) -> int
    decreases hi - lo,
{
    if hi <= lo {
        0
    } else {
        sum(s, lo, hi - 1) + s[hi - 1]
    }
}

/// Box width of each participant: label width plus padding on both sides.
pub open spec fn box_widths(label_widths: Seq<usize>) -> Seq<int> {
    label_widths.map_values(|w: usize| w as int + 4)
}

/// Indices of the sender and the receiver of `m`.
pub open spec fn ends(ps: Seq<Participant>, m: Message) -> Option<(int, int)> {
    match (index_of(ps, m.from@), index_of(ps, m.to@)) {
        (Some(f), Some(t)) => Some((f, t)),
        _ => None,
    }
}

/// Horizontal room between the centres of participants `l < r`, as the
/// layout estimates it: half of each end box, the gaps and the boxes between.
pub open spec fn span(w: Seq<int>, sp: Seq<int>, l: int, r: int) -> int {
    w[l] / 2 + w[r] / 2 + sum(sp, l, r) + sum(w, l + 1, r)
}

/// `extra.div_ceil(slots)`.
pub open spec fn div_ceil(extra: int, slots: int) -> int {
    (extra + slots - 1) / slots
}

/// Gaps after each participant, room past the last one, and whether every
/// quantity computed so far fits in a `usize`.
pub struct Spacing {
    pub gaps: Seq<int>,
    pub right: int,
    pub ok: bool,
}

/// The gaps widened for one message from participant `f` to participant `t`
/// whose label is `mw` columns wide.
pub open spec fn widen(st: Spacing, w: Seq<int>, f: int, t: int, mw: int) -> Spacing {
    if f == t {
        // a self-message needs room for its marker and label right of its lifeline
        let extra = mw + 3;
        if f + 1 < w.len() {
            let v = if st.gaps[f] >= 4 + extra {
                st.gaps[f]
            } else {
                4 + extra
            };
            Spacing { gaps: st.gaps.update(f, v), right: st.right, ok: st.ok && 4 + extra <= usize::MAX }
        } else {
            let v = if st.right >= extra {
                st.right
            } else {
                extra
            };
            Spacing { gaps: st.gaps, right: v, ok: st.ok && extra <= usize::MAX }
        }
    } else {
        let l = if f < t { f } else { t };
        let r = if f < t { t } else { f };
        let need = mw + 4;
        let cur = span(w, st.gaps, l, r);
        if need > cur {
            let per = div_ceil(need - cur, r - l);
            Spacing {
                gaps: Seq::new(
                    st.gaps.len(),
                    |k: int|
                        if l <= k < r && st.gaps[k] < 4 + per {
                            4 + per
                        } else {
                            st.gaps[k]
                        },
                ),
                right: st.right,
                ok: st.ok && cur <= usize::MAX && 4 + per <= usize::MAX,
            }
        } else {
            Spacing { gaps: st.gaps, right: st.right, ok: st.ok && cur <= usize::MAX }
        }
    }
}

/// The spacing after the first `k` messages have widened it.
pub open spec fn spacing_after(
    ps: Seq<Participant>,
    ms: Seq<Message>,
    w: Seq<int>,
    mws: Seq<usize>,
    k: int,
) -> Spacing
    decreases k,
{
    if k <= 0 {
        Spacing { gaps: Seq::new(w.len(), |i: int| 4int), right: 0, ok: true }
    } else {
        let st = spacing_after(ps, ms, w, mws, k - 1);
        match ends(ps, ms[k - 1]) {
            Some((f, t)) => widen(st, w, f, t, mws[k - 1] as int),
            None => st,
        }
    }
}

/// Left edge of the box of participant `i`.
pub open spec fn box_left(w: Seq<int>, gaps: Seq<int>, i: int) -> int {
    2 + sum(w, 0, i) + sum(gaps, 0, i)
}

/// Lifeline column of participant `i`.
pub open spec fn center(w: Seq<int>, gaps: Seq<int>, i: int) -> int {
    box_left(w, gaps, i) + w[i] / 2
}

/// Canvas width: the last box, a right margin of 2, and room for trailing
/// self-message labels.
pub open spec fn total_width(w: Seq<int>, gaps: Seq<int>, right: int) -> int {
    box_left(w, gaps, w.len() - 1) + w[w.len() - 1] + 2 + right
}

/// Number of the first `k` messages whose ends are both participants.
pub open spec fn placed_count(ps: Seq<Participant>, ms: Seq<Message>, k: int) -> int
    decreases k,
{
    if k <= 0 {
        0
    } else {
        placed_count(ps, ms, k - 1) + if ends(ps, ms[k - 1]) is Some {
            1int
        } else {
            0int
        }
    }
}

/// The final spacing of a database.
pub open spec fn final_spacing(db: &SequenceDatabase, lws: Seq<usize>, mws: Seq<usize>) -> Spacing {
    spacing_after(
        db.spec_participants(),
        db.spec_messages(),
        box_widths(lws),
        mws,
        db.spec_messages().len() as int,
    )
}

/// Every width, gap and position of the layout fits in a `usize`.
pub open spec fn layout_fits(db: &SequenceDatabase, lws: Seq<usize>, mws: Seq<usize>) -> bool {
    let ps = db.spec_participants();
    let w = box_widths(lws);
    let st = final_spacing(db, lws, mws);
    ps.len() == 0 || {
        &&& forall|i: int| 0 <= i < w.len() ==> #[trigger] w[i] <= usize::MAX
        &&& st.ok
        &&& total_width(w, st.gaps, st.right) <= usize::MAX
        &&& 4 + 2 * placed_count(ps, db.spec_messages(), db.spec_messages().len() as int)
            <= usize::MAX
    }
}

/// The participants of the layout.
pub open spec fn layout_participants_ok(
    db: &SequenceDatabase,
    lws: Seq<usize>,
    mws: Seq<usize>,
    pp: Seq<PositionedParticipant>,
) -> bool {
    let ps = db.spec_participants();
    let w = box_widths(lws);
    let st = final_spacing(db, lws, mws);
    &&& pp.len() == ps.len()
    &&& forall|i: int|
        0 <= i < pp.len() ==> {
            &&& (#[trigger] pp[i]).id@ == ps[i].id@
            &&& pp[i].label@ == ps[i].label@
            &&& pp[i].width == w[i]
            &&& pp[i].x == center(w, st.gaps, i)
        }
}

/// The messages of the layout: the `j`-th placed message at row `3 + 2 * j`.
pub open spec fn layout_messages_ok(
    db: &SequenceDatabase,
    lws: Seq<usize>,
    mws: Seq<usize>,
    pm: Seq<PositionedMessage>,
    k: int,
) -> bool
    decreases k,
{
    let ps = db.spec_participants();
    let ms = db.spec_messages();
    let w = box_widths(lws);
    let st = final_spacing(db, lws, mws);
    if k <= 0 {
        pm.len() == 0
    } else {
        match ends(ps, ms[k - 1]) {
            Some((f, t)) => {
                &&& pm.len() >= 1
                &&& layout_messages_ok(db, lws, mws, pm.drop_last(), k - 1)
                &&& pm.last().from_x == center(w, st.gaps, f)
                &&& pm.last().to_x == center(w, st.gaps, t)
                &&& pm.last().y == 3 + 2 * (pm.len() - 1)
                &&& pm.last().label@ == ms[k - 1].label@
                &&& pm.last().arrow == ms[k - 1].arrow
                &&& pm.last().depth == ms[k - 1].depth
            },
            None => layout_messages_ok(db, lws, mws, pm, k - 1),
        }
    }
}

/// The layout of a database whose label widths are `lws` (participants) and
/// `mws` (messages).
pub open spec fn layout_ok(
    db: &SequenceDatabase,
    lws: Seq<usize>,
    mws: Seq<usize>,
    r: &SequenceLayoutResult,
) -> bool {
    let ps = db.spec_participants();
    let ms = db.spec_messages();
    let w = box_widths(lws);
    let st = final_spacing(db, lws, mws);
    if ps.len() == 0 {
        &&& r.participants@.len() == 0
        &&& r.messages@.len() == 0
        &&& r.width == 0
        &&& r.height == 0
        &&& r.lifeline_start_y == 0
    } else {
        &&& layout_participants_ok(db, lws, mws, r.participants@)
        &&& layout_messages_ok(db, lws, mws, r.messages@, ms.len() as int)
        &&& r.messages@.len() == placed_count(ps, ms, ms.len() as int)
        &&& r.width == total_width(w, st.gaps, st.right)
        &&& r.height == 4 + 2 * placed_count(ps, ms, ms.len() as int)
        &&& r.lifeline_start_y == 2
    }
}

// ───────────────────────────── lemmas ─────────────────────────────

pub open spec fn ints(v: Seq<usize>) -> Seq<int> {
    v.map_values(|x: usize| x as int)
}

pub proof fn lemma_sum_nonneg(s: Seq<int>, lo: int, hi: int)
    requires
        forall|i: int| lo <= i < hi ==> #[trigger] s[i] >= 0,
    ensures
        sum(s, lo, hi) >= 0,
    decreases hi - lo,
{
    if hi > lo {
        lemma_sum_nonneg(s, lo, hi - 1);
    }
}

/// A sum over a shorter range of non-negative terms is no larger.
pub proof fn lemma_sum_mono(s: Seq<int>, lo: int, mid: int, hi: int)
    requires
        lo <= mid <= hi,
        forall|i: int| lo <= i < hi ==> #[trigger] s[i] >= 0,
    ensures
        sum(s, lo, mid) <= sum(s, lo, hi),
    decreases hi - mid,
{
    if hi > mid {
        lemma_sum_mono(s, lo, mid, hi - 1);
    }
}

/// Splitting a sum at `mid`.
pub proof fn lemma_sum_split(s: Seq<int>, lo: int, mid: int, hi: int)
    requires
        lo <= mid <= hi,
    ensures
        sum(s, lo, hi) == sum(s, lo, mid) + sum(s, mid, hi),
    decreases hi - mid,
{
    if hi > mid {
        lemma_sum_split(s, lo, mid, hi - 1);
    }
}

/// Sums agree on sequences that agree on the range.
pub proof fn lemma_sum_ext(a: Seq<int>, b: Seq<int>, lo: int, hi: int)
    requires
        forall|i: int| lo <= i < hi ==> a[i] == b[i],
    ensures
        sum(a, lo, hi) == sum(b, lo, hi),
    decreases hi - lo,
{
    if hi > lo {
        lemma_sum_ext(a, b, lo, hi - 1);
    }
}

/// A sum grows when its terms do.
pub proof fn lemma_sum_le(a: Seq<int>, b: Seq<int>, lo: int, hi: int)
    requires
        forall|i: int| lo <= i < hi ==> a[i] <= b[i],
    ensures
        sum(a, lo, hi) <= sum(b, lo, hi),
    decreases hi - lo,
{
    if hi > lo {
        lemma_sum_le(a, b, lo, hi - 1);
    }
}

/// Widening never lets a gap shrink or become negative, keeps their number,
/// and an error once found stays.
pub proof fn lemma_widen_mono(st: Spacing, w: Seq<int>, f: int, t: int, mw: int)
    requires
        st.gaps.len() == w.len(),
        0 <= f < w.len(),
        0 <= t < w.len(),
        mw >= 0,
        st.right >= 0,
        forall|i: int| 0 <= i < st.gaps.len() ==> #[trigger] st.gaps[i] >= 4,
    ensures
        widen(st, w, f, t, mw).gaps.len() == w.len(),
        widen(st, w, f, t, mw).right >= st.right,
        forall|i: int|
            0 <= i < w.len() ==> #[trigger] widen(st, w, f, t, mw).gaps[i] >= st.gaps[i],
        widen(st, w, f, t, mw).ok ==> st.ok,
{
}

pub proof fn lemma_spacing_shape(
    ps: Seq<Participant>,
    ms: Seq<Message>,
    w: Seq<int>,
    mws: Seq<usize>,
    k: int,
)
    requires
        0 <= k <= ms.len(),
        mws.len() == ms.len(),
        forall|j: int|
            0 <= j < ms.len() ==> (#[trigger] ends(ps, ms[j]) matches Some((f, t)) ==> 0 <= f
                < w.len() && 0 <= t < w.len()),
    ensures
        spacing_after(ps, ms, w, mws, k).gaps.len() == w.len(),
        spacing_after(ps, ms, w, mws, k).right >= 0,
        forall|i: int|
            0 <= i < w.len() ==> #[trigger] spacing_after(ps, ms, w, mws, k).gaps[i] >= 4,
    decreases k,
{
    if k > 0 {
        lemma_spacing_shape(ps, ms, w, mws, k - 1);
        let st = spacing_after(ps, ms, w, mws, k - 1);
        if let Some((f, t)) = ends(ps, ms[k - 1]) {
            lemma_widen_mono(st, w, f, t, mws[k - 1] as int);
        }
    }
}

/// Once an error is found it stays, and gaps only grow.
pub proof fn lemma_spacing_mono(
    ps: Seq<Participant>,
    ms: Seq<Message>,
    w: Seq<int>,
    mws: Seq<usize>,
    k: int,
    m: int,
)
    requires
        0 <= k <= m <= ms.len(),
        mws.len() == ms.len(),
        forall|j: int|
            0 <= j < ms.len() ==> (#[trigger] ends(ps, ms[j]) matches Some((f, t)) ==> 0 <= f
                < w.len() && 0 <= t < w.len()),
    ensures
        spacing_after(ps, ms, w, mws, m).ok ==> spacing_after(ps, ms, w, mws, k).ok,
        spacing_after(ps, ms, w, mws, m).right >= spacing_after(ps, ms, w, mws, k).right,
        forall|i: int|
            0 <= i < w.len() ==> #[trigger] spacing_after(ps, ms, w, mws, m).gaps[i]
                >= spacing_after(ps, ms, w, mws, k).gaps[i],
    decreases m - k,
{
    if m > k {
        lemma_spacing_mono(ps, ms, w, mws, k, m - 1);
        lemma_spacing_shape(ps, ms, w, mws, m - 1);
        let st = spacing_after(ps, ms, w, mws, m - 1);
        if let Some((f, t)) = ends(ps, ms[m - 1]) {
            lemma_widen_mono(st, w, f, t, mws[m - 1] as int);
        }
    }
}

pub proof fn lemma_box_left_step(w: Seq<int>, gaps: Seq<int>, i: int)
    requires
        0 <= i,
    ensures
        box_left(w, gaps, i + 1) == box_left(w, gaps, i) + w[i] + gaps[i],
{
}

proof fn lemma_placed_mono(ps: Seq<Participant>, ms: Seq<Message>, k: int, m: int)
    requires
        0 <= k <= m,
    ensures
        placed_count(ps, ms, k) <= placed_count(ps, ms, m),
        placed_count(ps, ms, k) >= 0,
    decreases m - k,
{
    if m > k {
        lemma_placed_mono(ps, ms, k, m - 1);
    } else {
        lemma_placed_nonneg(ps, ms, k);
    }
}

proof fn lemma_placed_nonneg(ps: Seq<Participant>, ms: Seq<Message>, k: int)
    ensures
        placed_count(ps, ms, k) >= 0,
    decreases k,
{
    if k > 0 {
        lemma_placed_nonneg(ps, ms, k - 1);
    }
}

// ───────────────────────────── phases ─────────────────────────────

/// Box widths, when each fits in a `usize`.
fn box_widths_exec(lws: &Vec<usize>) -> (r: Option<Vec<usize>>)
    ensures
        match r {
            Some(w) => ints(w@) == box_widths(lws@),
            None => exists|i: int| 0 <= i < lws.len() && #[trigger] box_widths(lws@)[i] > usize::MAX,
        },
{
    let mut w: Vec<usize> = Vec::new();
    let mut i: usize = 0;
    while i < lws.len()
        invariant
            i <= lws.len(),
            ints(w@) == box_widths(lws@).subrange(0, i as int),
        decreases lws.len() - i,
    {
        if lws[i] > usize::MAX - 4 {
            assert(box_widths(lws@)[i as int] > usize::MAX);
            return None;
        }
        let ghost w0 = w@;
        w.push(lws[i] + 4);
        assert(ints(w@) =~= ints(w0).push(lws[i as int] as int + 4));
        i = i + 1;
        assert(ints(w@) =~= box_widths(lws@).subrange(0, i as int));
    }
    assert(ints(w@) =~= box_widths(lws@));
    Some(w)
}

/// `sum(v[lo..hi])`, when it fits in a `usize`.
fn sum_exec(v: &Vec<usize>, lo: usize, hi: usize) -> (r: Option<usize>)
    requires
        lo <= hi <= v.len(),
    ensures
        match r {
            Some(s) => s == sum(ints(v@), lo as int, hi as int),
            None => sum(ints(v@), lo as int, hi as int) > usize::MAX,
        },
{
    let mut acc: usize = 0;
    let mut i = lo;
    while i < hi
        invariant
            lo <= i <= hi <= v.len(),
            acc == sum(ints(v@), lo as int, i as int),
        decreases hi - i,
    {
        if acc > usize::MAX - v[i] {
            proof {
                assert forall|j: int| lo <= j < hi implies #[trigger] ints(v@)[j] >= 0 by {}
                lemma_sum_mono(ints(v@), lo as int, i + 1, hi as int);
            }
            return None;
        }
        acc = acc + v[i];
        i = i + 1;
    }
    Some(acc)
}

/// `span(w, gaps, l, r)`, when it fits in a `usize`.
fn span_exec(w: &Vec<usize>, gaps: &Vec<usize>, l: usize, r: usize) -> (res: Option<usize>)
    requires
        l < r < w.len(),
        gaps.len() == w.len(),
    ensures
        match res {
            Some(s) => s == span(ints(w@), ints(gaps@), l as int, r as int),
            None => span(ints(w@), ints(gaps@), l as int, r as int) > usize::MAX,
        },
{
    proof {
        assert forall|j: int| 0 <= j < gaps.len() implies #[trigger] ints(gaps@)[j] >= 0 by {}
        assert forall|j: int| 0 <= j < w.len() implies #[trigger] ints(w@)[j] >= 0 by {}
        lemma_sum_nonneg(ints(gaps@), l as int, r as int);
        lemma_sum_nonneg(ints(w@), l + 1, r as int);
    }
    let a = w[l] / 2;
    let b = w[r] / 2;
    if a > usize::MAX - b {
        return None;
    }
    let g = match sum_exec(gaps, l, r) {
        Some(g) => g,
        None => return None,
    };
    if a + b > usize::MAX - g {
        return None;
    }
    let m = match sum_exec(w, l + 1, r) {
        Some(m) => m,
        None => return None,
    };
    if a + b + g > usize::MAX - m {
        return None;
    }
    Some(a + b + g + m)
}

/// One widening step; `false` when a quantity of the step exceeds a `usize`.
fn widen_exec(
    gaps: &mut Vec<usize>,
    right: &mut usize,
    w: &Vec<usize>,
    f: usize,
    t: usize,
    mw: usize,
) -> (ok: bool)
    requires
        old(gaps).len() == w.len(),
        f < w.len(),
        t < w.len(),
    ensures
        ({
            let st = Spacing { gaps: ints(old(gaps)@), right: *old(right) as int, ok: true };
            let nx = widen(st, ints(w@), f as int, t as int, mw as int);
            &&& ok == nx.ok
            &&& ok ==> ints(final(gaps)@) == nx.gaps && *final(right) as int == nx.right
        }),
{
    let ghost st = Spacing { gaps: ints(gaps@), right: *right as int, ok: true };
    let ghost nx = widen(st, ints(w@), f as int, t as int, mw as int);
    if f == t {
        if f + 1 < w.len() {
            if mw > usize::MAX - 7 {
                return false;
            }
            let v = mw + 7;
            if gaps[f] < v {
                gaps.set(f, v);
            }
            assert(ints(gaps@) =~= nx.gaps);
            true
        } else {
            if mw > usize::MAX - 3 {
                return false;
            }
            let extra = mw + 3;
            if *right < extra {
                *right = extra;
            }
            true
        }
    } else {
        let l = if f < t { f } else { t };
        let r = if f < t { t } else { f };
        let cur = match span_exec(w, gaps, l, r) {
            Some(c) => c,
            None => return false,
        };
        let need: u128 = mw as u128 + 4;
        if need > cur as u128 {
            let extra: u128 = need - cur as u128;
            let slots: u128 = (r - l) as u128;
            let per: u128 = extra / slots + if extra % slots != 0 { 1u128 } else { 0u128 };
            assert(per == div_ceil(extra as int, slots as int)) by (nonlinear_arith)
                requires
                    slots >= 1,
                    extra >= 0,
                    per == extra / slots + if extra % slots != 0 { 1int } else { 0int },
            {
                let q = extra / slots;
                let rm = extra % slots;
                assert(extra == q * slots + rm);
                assert(0 <= rm < slots);
                if rm != 0 {
                    assert((extra + slots - 1) == (q + 1) * slots + (rm - 1));
                } else {
                    assert((extra + slots - 1) == q * slots + (slots - 1));
                }
            }
            if per > (usize::MAX - 4) as u128 {
                return false;
            }
            let v: usize = (per + 4) as usize;
            let ghost g0 = gaps@;
            let mut k = l;
            while k < r
                invariant
                    l <= k <= r < w.len(),
                    g0.len() == w.len(),
                    gaps@.len() == g0.len(),
                    forall|i: int|
                        0 <= i < g0.len() ==> #[trigger] gaps@[i] == if l <= i < k && g0[i] < v {
                            v
                        } else {
                            g0[i]
                        },
                decreases r - k,
            {
                if gaps[k] < v {
                    gaps.set(k, v);
                }
                k = k + 1;
            }
            assert(ints(gaps@) =~= nx.gaps);
        }
        true
    }
}

impl SequenceLayoutAlgorithm {
    /// The fixed padding, gap, message and header sizes.
    pub closed spec fn wf(&self) -> bool {
        &&& self.participant_padding == 2
        &&& self.participant_spacing == 4
        &&& self.message_height == 2
        &&& self.header_height == 3
    }

    pub fn new() -> (a: SequenceLayoutAlgorithm)
        ensures
            a.wf(),
    {
        SequenceLayoutAlgorithm {
            participant_padding: 2,
            participant_spacing: 4,
            message_height: 2,
            header_height: 3,
        }
    }

    /// The final gaps and right margin; `None` when a quantity exceeds a `usize`.
    fn spacing_exec(db: &SequenceDatabase, w: &Vec<usize>, mws: &Vec<usize>) -> (r: Option<(Vec<usize>, usize)>)
        requires
            db.wf(),
            w.len() == db.spec_participants().len(),
            mws.len() == db.spec_messages().len(),
        ensures
            ({
                let st = spacing_after(
                    db.spec_participants(),
                    db.spec_messages(),
                    ints(w@),
                    mws@,
                    db.spec_messages().len() as int,
                );
                match r {
                    Some((g, right)) => st.ok && ints(g@) == st.gaps && right == st.right,
                    None => !st.ok,
                }
            }),
    {
        let ghost ps = db.spec_participants();
        let ghost ms = db.spec_messages();
        let ghost wi = ints(w@);
        let msgs = db.messages();
        let mut gaps: Vec<usize> = Vec::new();
        let mut i: usize = 0;
        while i < w.len()
            invariant
                i <= w.len(),
                gaps@.len() == i,
                forall|j: int| 0 <= j < i ==> gaps@[j] == 4,
            decreases w.len() - i,
        {
            gaps.push(4);
            i = i + 1;
        }
        assert(ints(gaps@) =~= spacing_after(ps, ms, wi, mws@, 0).gaps);
        let mut right: usize = 0;
        let mut k: usize = 0;
        proof {
            assert forall|j: int|
                0 <= j < ms.len() implies (#[trigger] ends(ps, ms[j]) matches Some((f, t)) ==> 0
                <= f < wi.len() && 0 <= t < wi.len()) by {
                if let Some((f, t)) = ends(ps, ms[j]) {
                    let a = choose|a: int| crate::sequence::database::has_id(ps, ms[j].from@, a);
                    let b = choose|b: int| crate::sequence::database::has_id(ps, ms[j].to@, b);
                }
            }
        }
        while k < msgs.len()
            invariant
                db.wf(),
                ps == db.spec_participants(),
                ms == db.spec_messages(),
                msgs@ == ms,
                wi == ints(w@),
                w.len() == ps.len(),
                mws.len() == ms.len(),
                k <= ms.len(),
                forall|j: int|
                    0 <= j < ms.len() ==> (#[trigger] ends(ps, ms[j]) matches Some((f, t)) ==> 0
                        <= f < wi.len() && 0 <= t < wi.len()),
                spacing_after(ps, ms, wi, mws@, k as int).ok,
                ints(gaps@) == spacing_after(ps, ms, wi, mws@, k as int).gaps,
                right == spacing_after(ps, ms, wi, mws@, k as int).right,
            decreases ms.len() - k,
        {
            proof {
                lemma_spacing_shape(ps, ms, wi, mws@, k as int);
            }
            let m = &msgs[k];
            let fi = db.participant_index(&m.from);
            let ti = db.participant_index(&m.to);
            match (fi, ti) {
                (Some(f), Some(t)) => {
                    if !widen_exec(&mut gaps, &mut right, w, f, t, mws[k]) {
                        proof {
                            lemma_spacing_mono(ps, ms, wi, mws@, k + 1, ms.len() as int);
                        }
                        return None;
                    }
                },
                _ => {},
            }
            k = k + 1;
        }
        Some((gaps, right))
    }
}

proof fn lemma_box_left_mono(w: Seq<int>, g: Seq<int>, i: int, j: int)
    requires
        0 <= i <= j <= w.len(),
        j <= g.len(),
        forall|k: int| 0 <= k < w.len() ==> #[trigger] w[k] >= 0,
        forall|k: int| 0 <= k < g.len() ==> #[trigger] g[k] >= 0,
    ensures
        box_left(w, g, i) <= box_left(w, g, j),
{
    lemma_sum_mono(w, 0, i, j);
    lemma_sum_mono(g, 0, i, j);
}

/// The positioned participants and the canvas width; `None` when the width
/// exceeds a `usize`.
fn place_participants(
    ps: &Vec<Participant>,
    w: &Vec<usize>,
    gaps: &Vec<usize>,
    right: usize,
) -> (r: Option<(Vec<PositionedParticipant>, usize)>)
    requires
        ps.len() > 0,
        w.len() == ps.len(),
        gaps.len() == ps.len(),
    ensures
        ({
            let wi = ints(w@);
            let gi = ints(gaps@);
            match r {
                Some((pp, total)) => {
                    &&& total == total_width(wi, gi, right as int)
                    &&& pp@.len() == ps.len()
                    &&& forall|i: int|
                        0 <= i < pp@.len() ==> {
                            &&& (#[trigger] pp@[i]).id@ == ps@[i].id@
                            &&& pp@[i].label@ == ps@[i].label@
                            &&& pp@[i].width == wi[i]
                            &&& pp@[i].x == center(wi, gi, i)
                        }
                },
                None => total_width(wi, gi, right as int) > usize::MAX,
            }
        }),
{
    let ghost wi = ints(w@);
    let ghost gi = ints(gaps@);
    let n = ps.len();
    proof {
        assert forall|k: int| 0 <= k < wi.len() implies #[trigger] wi[k] >= 0 by {}
        assert forall|k: int| 0 <= k < gi.len() implies #[trigger] gi[k] >= 0 by {}
    }
    let mut pp: Vec<PositionedParticipant> = Vec::new();
    let mut x: usize = 2;
    let mut i: usize = 0;
    while i < n
        invariant
            n == ps.len() == w.len() == gaps.len(),
            wi == ints(w@),
            gi == ints(gaps@),
            forall|k: int| 0 <= k < wi.len() ==> #[trigger] wi[k] >= 0,
            forall|k: int| 0 <= k < gi.len() ==> #[trigger] gi[k] >= 0,
            i <= n,
            i < n ==> x == box_left(wi, gi, i as int),
            i == n ==> x == box_left(wi, gi, n - 1) + wi[n - 1],
            pp@.len() == i,
            forall|j: int|
                0 <= j < i ==> {
                    &&& (#[trigger] pp@[j]).id@ == ps@[j].id@
                    &&& pp@[j].label@ == ps@[j].label@
                    &&& pp@[j].width == wi[j]
                    &&& pp@[j].x == center(wi, gi, j)
                },
        decreases n - i,
    {
        proof {
            lemma_box_left_mono(wi, gi, i as int, n - 1);
            if i + 1 < n {
                lemma_box_left_step(wi, gi, i as int);
                lemma_box_left_mono(wi, gi, i + 1, n - 1);
            }
        }
        let width = w[i];
        if x > usize::MAX - width {
            return None;
        }
        let cx = x + width / 2;
        pp.push(
            PositionedParticipant {
                id: ps[i].id.clone(),
                label: ps[i].label.clone(),
                x: cx,
                width,
            },
        );
        if i + 1 < n {
            if x + width > usize::MAX - gaps[i] {
                return None;
            }
            x = x + width + gaps[i];
        } else {
            x = x + width;
        }
        i = i + 1;
    }
    if x > usize::MAX - 2 || x + 2 > usize::MAX - right {
        return None;
    }
    Some((pp, x + 2 + right))
}

impl SequenceLayoutAlgorithm {
    /// The layout, or `None` exactly when a width, gap or position of it
    /// exceeds a `usize`.
    fn layout_checked(
        &self,
        db: &SequenceDatabase,
        lws: &Vec<usize>,
        mws: &Vec<usize>,
    ) -> (r: Option<SequenceLayoutResult>)
        requires
            self.wf(),
            db.wf(),
            lws.len() == db.spec_participants().len(),
            mws.len() == db.spec_messages().len(),
        ensures
            r is Some <==> layout_fits(db, lws@, mws@),
            r matches Some(res) ==> layout_ok(db, lws@, mws@, &res),
    {
        let ps = db.participants();
        let msgs = db.messages();
        let ghost pss = db.spec_participants();
        let ghost ms = db.spec_messages();
        if ps.len() == 0 {
            return Some(
                SequenceLayoutResult {
                    participants: Vec::new(),
                    messages: Vec::new(),
                    width: 0,
                    height: 0,
                    lifeline_start_y: 0,
                },
            );
        }
        let w = match box_widths_exec(lws) {
            Some(w) => w,
            None => return None,
        };
        let ghost wi = ints(w@);
        assert(wi.len() == w@.len());
        assert(box_widths(lws@).len() == lws@.len());
        let (gaps, right) = match Self::spacing_exec(db, &w, mws) {
            Some(p) => p,
            None => return None,
        };
        let ghost gi = ints(gaps@);
        proof {
            assert(wi =~= box_widths(lws@));
            assert forall|j: int|
                0 <= j < ms.len() implies (#[trigger] ends(pss, ms[j]) matches Some((f, t)) ==> 0
                <= f < wi.len() && 0 <= t < wi.len()) by {
                if let Some((f, t)) = ends(pss, ms[j]) {
                    let a = choose|a: int| crate::sequence::database::has_id(pss, ms[j].from@, a);
                    let b = choose|b: int| crate::sequence::database::has_id(pss, ms[j].to@, b);
                }
            }
            lemma_spacing_shape(pss, ms, wi, mws@, ms.len() as int);
            assert(gi.len() == gaps@.len());
        }
        let (pp, total) = match place_participants(ps, &w, &gaps, right) {
            Some(p) => p,
            None => return None,
        };
        // messages, one row pair each
        let mut pm: Vec<PositionedMessage> = Vec::new();
        let mut y: usize = 3;
        let mut k: usize = 0;
        while k < msgs.len()
            invariant
                db.wf(),
                pss == db.spec_participants(),
                ms == db.spec_messages(),
                msgs@ == ms,
                ps@ == pss,
                pss.len() > 0,
                wi == box_widths(lws@),
                gi == final_spacing(db, lws@, mws@).gaps,
                pp@.len() == pss.len(),
                forall|i: int| 0 <= i < pp@.len() ==> (#[trigger] pp@[i]).x == center(wi, gi, i),
                k <= ms.len(),
                pm@.len() == placed_count(pss, ms, k as int),
                y == 3 + 2 * placed_count(pss, ms, k as int),
                layout_messages_ok(db, lws@, mws@, pm@, k as int),
            decreases ms.len() - k,
        {
            let m = &msgs[k];
            let fi = db.participant_index(&m.from);
            let ti = db.participant_index(&m.to);
            let ghost pm0 = pm@;
            match (fi, ti) {
                (Some(f), Some(t)) => {
                    if y > usize::MAX - 2 {
                        proof {
                            lemma_placed_mono(pss, ms, k + 1, ms.len() as int);
                        }
                        return None;
                    }
                    let ghost fj = choose|a: int| crate::sequence::database::has_id(pss, ms[k as int].from@, a);
                    let ghost tj = choose|a: int| crate::sequence::database::has_id(pss, ms[k as int].to@, a);
                    pm.push(
                        PositionedMessage {
                            from_x: pp[f].x,
                            to_x: pp[t].x,
                            y,
                            label: m.label.clone(),
                            arrow: m.arrow,
                            depth: m.depth,
                        },
                    );
                    y = y + 2;
                    assert(pm@.drop_last() =~= pm0);
                },
                _ => {},
            }
            k = k + 1;
        }
        if y > usize::MAX - 1 {
            return None;
        }
        Some(
            SequenceLayoutResult {
                participants: pp,
                messages: pm,
                width: total,
                height: y + 1,
                lifeline_start_y: 2,
            },
        )
    }

    /// The layout of `database` whose participant labels are `label_widths`
    /// columns wide and whose message labels are `message_widths` columns wide.
    pub fn layout_with_widths(
        &self,
        database: &SequenceDatabase,
        label_widths: &Vec<usize>,
        message_widths: &Vec<usize>,
    ) -> (r: SequenceLayoutResult)
        requires
            self.wf(),
            database.wf(),
            label_widths.len() == database.spec_participants().len(),
            message_widths.len() == database.spec_messages().len(),
            layout_fits(database, label_widths@, message_widths@),
        ensures
            layout_ok(database, label_widths@, message_widths@, &r),
    {
        match self.layout_checked(database, label_widths, message_widths) {
            Some(r) => r,
            None => {
                assert(false);
                SequenceLayoutResult {
                    participants: Vec::new(),
                    messages: Vec::new(),
                    width: 0,
                    height: 0,
                    lifeline_start_y: 0,
                }
            },
        }
    }

    /// Lays out `database`: participants left to right in the order they were
    /// added, wide enough for their labels and for the labels of the messages
    /// between them, and one message every second row below the boxes.
    pub fn layout(&self, database: &SequenceDatabase) -> (r: Result<
        SequenceLayoutResult,
        DiagramError,
    >)
        requires
            self.wf(),
            database.wf(),
        ensures
            ({
                let lws = label_widths(database.spec_participants());
                let mws = message_widths(database.spec_messages());
                match r {
                    Ok(res) => layout_fits(database, lws, mws) && layout_ok(database, lws, mws, &res),
                    Err(e) => !layout_fits(database, lws, mws) && e == DiagramError::Overflow,
                }
            }),
    {
        let ps = database.participants();
        let ms = database.messages();
        let mut lws: Vec<usize> = Vec::new();
        let mut i: usize = 0;
        while i < ps.len()
            invariant
                ps@ == database.spec_participants(),
                i <= ps.len(),
                lws@ == label_widths(ps@).subrange(0, i as int),
            decreases ps.len() - i,
        {
            lws.push(str_width(ps[i].label.as_str()));
            i = i + 1;
            assert(lws@ =~= label_widths(ps@).subrange(0, i as int));
        }
        assert(lws@ =~= label_widths(ps@));
        let mut mws: Vec<usize> = Vec::new();
        let mut k: usize = 0;
        while k < ms.len()
            invariant
                ms@ == database.spec_messages(),
                k <= ms.len(),
                mws@ == message_widths(ms@).subrange(0, k as int),
            decreases ms.len() - k,
        {
            mws.push(str_width(ms[k].label.as_str()));
            k = k + 1;
            assert(mws@ =~= message_widths(ms@).subrange(0, k as int));
        }
        assert(mws@ =~= message_widths(ms@));
        match self.layout_checked(database, &lws, &mws) {
            Some(r) => Ok(r),
            None => Err(DiagramError::Overflow),
        }
    }
}

/// Display widths of the participant labels.
pub open spec fn label_widths(ps: Seq<Participant>) -> Seq<usize> {
    ps.map_values(|p: Participant| display_width(p.label@))
}

/// Display widths of the message labels.
pub open spec fn message_widths(ms: Seq<Message>) -> Seq<usize> {
    ms.map_values(|m: Message| display_width(m.label@))
}

impl Default for SequenceLayoutAlgorithm {
    fn default() -> (a: SequenceLayoutAlgorithm)
        ensures
            a.wf(),
    {
        SequenceLayoutAlgorithm::new()
    }
}

// ───────────────────────────── laws ─────────────────────────────

proof fn lemma_ends_in_range(ps: Seq<Participant>, ms: Seq<Message>, n: int)
    requires
        ps.len() == n,
    ensures
        forall|j: int|
            0 <= j < ms.len() ==> (#[trigger] ends(ps, ms[j]) matches Some((f, t)) ==> 0 <= f < n
                && 0 <= t < n),
{
    assert forall|j: int|
        0 <= j < ms.len() implies (#[trigger] ends(ps, ms[j]) matches Some((f, t)) ==> 0 <= f < n
        && 0 <= t < n) by {
        if let Some((f, t)) = ends(ps, ms[j]) {
            let a = choose|a: int| crate::sequence::database::has_id(ps, ms[j].from@, a);
            let b = choose|b: int| crate::sequence::database::has_id(ps, ms[j].to@, b);
        }
    }
}

/// Participants stand left to right, in the order they were added.
pub proof fn lemma_participants_left_to_right(
    db: &SequenceDatabase,
    lws: Seq<usize>,
    mws: Seq<usize>,
    r: &SequenceLayoutResult,
    i: int,
    j: int,
)
    requires
        lws.len() == db.spec_participants().len(),
        mws.len() == db.spec_messages().len(),
        layout_ok(db, lws, mws, r),
        0 <= i < j < r.participants@.len(),
    ensures
        r.participants@[i].x < r.participants@[j].x,
{
    let ps = db.spec_participants();
    let ms = db.spec_messages();
    let w = box_widths(lws);
    lemma_ends_in_range(ps, ms, w.len() as int);
    lemma_spacing_shape(ps, ms, w, mws, ms.len() as int);
    let g = final_spacing(db, lws, mws).gaps;
    assert forall|k: int| 0 <= k < w.len() implies #[trigger] w[k] >= 0 by {}
    lemma_box_left_step(w, g, i);
    lemma_box_left_mono(w, g, i + 1, j);
}

proof fn lemma_rows_of(db: &SequenceDatabase, lws: Seq<usize>, mws: Seq<usize>, pm: Seq<PositionedMessage>, k: int)
    requires
        layout_messages_ok(db, lws, mws, pm, k),
    ensures
        forall|j: int| 0 <= j < pm.len() ==> (#[trigger] pm[j]).y == 3 + 2 * j,
    decreases k,
{
    if k > 0 {
        match ends(db.spec_participants(), db.spec_messages()[k - 1]) {
            Some(_) => {
                lemma_rows_of(db, lws, mws, pm.drop_last(), k - 1);
                assert forall|j: int| 0 <= j < pm.len() implies (#[trigger] pm[j]).y == 3 + 2 * j by {
                    if j < pm.len() - 1 {
                        assert(pm[j] == pm.drop_last()[j]);
                    }
                }
            },
            None => {
                lemma_rows_of(db, lws, mws, pm, k - 1);
            },
        }
    }
}

/// The `j`-th placed message is on row `3 + 2 * j`: just below the
/// participant boxes, then every second row.
pub proof fn lemma_message_rows(
    db: &SequenceDatabase,
    lws: Seq<usize>,
    mws: Seq<usize>,
    r: &SequenceLayoutResult,
    j: int,
)
    requires
        layout_ok(db, lws, mws, r),
        0 <= j < r.messages@.len(),
    ensures
        r.messages@[j].y == 3 + 2 * j,
        r.messages@[j].y < r.height,
{
    if db.spec_participants().len() > 0 {
        lemma_rows_of(db, lws, mws, r.messages@, db.spec_messages().len() as int);
    }
}

/// A self-message has room for its marker and label right of its lifeline:
/// before the next lifeline, or, on the last participant, before the right
/// edge of the canvas.
pub proof fn lemma_self_message_room(
    db: &SequenceDatabase,
    lws: Seq<usize>,
    mws: Seq<usize>,
    r: &SequenceLayoutResult,
    k: int,
    f: int,
)
    requires
        lws.len() == db.spec_participants().len(),
        mws.len() == db.spec_messages().len(),
        layout_ok(db, lws, mws, r),
        0 <= k < db.spec_messages().len(),
        ends(db.spec_participants(), db.spec_messages()[k]) == Some((f, f)),
    ensures
        f + 1 < r.participants@.len() ==> r.participants@[f + 1].x >= r.participants@[f].x
            + mws[k] + 7,
        f + 1 == r.participants@.len() ==> r.width >= r.participants@[f].x + mws[k] + 5,
{
    let ps = db.spec_participants();
    let ms = db.spec_messages();
    let w = box_widths(lws);
    let n = ps.len() as int;
    lemma_ends_in_range(ps, ms, n);
    assert(0 <= f < n);
    lemma_spacing_shape(ps, ms, w, mws, k);
    lemma_spacing_mono(ps, ms, w, mws, k + 1, ms.len() as int);
    let fin = final_spacing(db, lws, mws);
    let st = spacing_after(ps, ms, w, mws, k);
    let nx = spacing_after(ps, ms, w, mws, k + 1);
    assert(nx == widen(st, w, f, f, mws[k] as int));
    if f + 1 < n {
        assert(nx.gaps[f] >= mws[k] + 7);
        lemma_box_left_step(w, fin.gaps, f);
    }
}

/// Every box lies inside the canvas, and so does every lifeline.
pub proof fn lemma_boxes_within(
    db: &SequenceDatabase,
    lws: Seq<usize>,
    mws: Seq<usize>,
    r: &SequenceLayoutResult,
    i: int,
)
    requires
        lws.len() == db.spec_participants().len(),
        mws.len() == db.spec_messages().len(),
        layout_ok(db, lws, mws, r),
        0 <= i < r.participants@.len(),
    ensures
        r.participants@[i].width >= 4,
        r.participants@[i].x >= r.participants@[i].width / 2,
        r.participants@[i].x - r.participants@[i].width / 2 + r.participants@[i].width <= r.width,
        r.participants@[i].x < r.width,
{
    let ps = db.spec_participants();
    let ms = db.spec_messages();
    let w = box_widths(lws);
    let n = ps.len() as int;
    lemma_ends_in_range(ps, ms, n);
    lemma_spacing_shape(ps, ms, w, mws, ms.len() as int);
    let fin = final_spacing(db, lws, mws);
    assert forall|k: int| 0 <= k < w.len() implies #[trigger] w[k] >= 0 by {}
    lemma_box_left_mono(w, fin.gaps, i, n - 1);
    lemma_box_left_mono(w, fin.gaps, 0, i);
    if i < n - 1 {
        lemma_box_left_step(w, fin.gaps, i);
        lemma_box_left_mono(w, fin.gaps, i + 1, n - 1);
    }
}

proof fn lemma_message_ends_of(
    db: &SequenceDatabase,
    lws: Seq<usize>,
    mws: Seq<usize>,
    pm: Seq<PositionedMessage>,
    k: int,
)
    requires
        lws.len() == db.spec_participants().len(),
        mws.len() == db.spec_messages().len(),
        k <= db.spec_messages().len(),
        layout_messages_ok(db, lws, mws, pm, k),
    ensures
        forall|j: int|
            0 <= j < pm.len() ==> exists|f: int, t: int|
                0 <= f < lws.len() && 0 <= t < lws.len() && (#[trigger] pm[j]).from_x == center(
                    box_widths(lws),
                    final_spacing(db, lws, mws).gaps,
                    f,
                ) && pm[j].to_x == center(box_widths(lws), final_spacing(db, lws, mws).gaps, t),
    decreases k,
{
    let ps = db.spec_participants();
    let ms = db.spec_messages();
    if k > 0 {
        lemma_ends_in_range(ps, ms, ps.len() as int);
        match ends(ps, ms[k - 1]) {
            Some((f, t)) => {
                lemma_message_ends_of(db, lws, mws, pm.drop_last(), k - 1);
                assert forall|j: int| 0 <= j < pm.len() implies exists|f: int, t: int|
                    0 <= f < lws.len() && 0 <= t < lws.len() && (#[trigger] pm[j]).from_x
                        == center(box_widths(lws), final_spacing(db, lws, mws).gaps, f)
                        && pm[j].to_x == center(
                        box_widths(lws),
                        final_spacing(db, lws, mws).gaps,
                        t,
                    ) by {
                    if j < pm.len() - 1 {
                        assert(pm[j] == pm.drop_last()[j]);
                    }
                }
            },
            None => {
                lemma_message_ends_of(db, lws, mws, pm, k - 1);
            },
        }
    }
}

/// Every message arrow starts and ends on a lifeline inside the canvas.
pub proof fn lemma_messages_within(
    db: &SequenceDatabase,
    lws: Seq<usize>,
    mws: Seq<usize>,
    r: &SequenceLayoutResult,
    j: int,
)
    requires
        lws.len() == db.spec_participants().len(),
        mws.len() == db.spec_messages().len(),
        layout_ok(db, lws, mws, r),
        0 <= j < r.messages@.len(),
    ensures
        r.messages@[j].from_x < r.width,
        r.messages@[j].to_x < r.width,
{
    let ps = db.spec_participants();
    if ps.len() > 0 {
        lemma_message_ends_of(db, lws, mws, r.messages@, db.spec_messages().len() as int);
        let (f, t) = choose|f: int, t: int|
            0 <= f < lws.len() && 0 <= t < lws.len() && r.messages@[j].from_x == center(
                box_widths(lws),
                final_spacing(db, lws, mws).gaps,
                f,
            ) && r.messages@[j].to_x == center(box_widths(lws), final_spacing(db, lws, mws).gaps, t);
        lemma_boxes_within(db, lws, mws, r, f);
        lemma_boxes_within(db, lws, mws, r, t);
    }
}

} // verus!
