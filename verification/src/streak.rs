//! One falling streak: a lane, a head that moves down a row per tick, and
//! the cells the streak uncovers on its way.

use crate::message::{
    blank_cell, blanks, law_closed_queue_never_runs_dry, law_pops_add_up, popped, popped_times,
    some_cells, ColorChar, ColorString, MessageQueue, MessageView, BLANK,
};
use crate::roll::{RollSource, ThreadRolls};
use vstd::math::{max, min};
use vstd::prelude::*;

verus! {

/// One cell to put on the screen.
#[derive(Clone, Copy, Debug, PartialEq, Eq, Structural)]
pub struct Draw {
    pub row: i32,
    pub col: i32,
    pub cell: ColorChar,
}

/// What a streak is: its lane, the row of its head, how many rows of it
/// show, and the cell it holds for each row of the screen.
pub ghost struct StreakView {
    pub lane: int,
    pub head_row: int,
    pub length: int,
    pub cells: Seq<ColorChar>,
}

/// A streak while it is being put together from the queue.
pub ghost struct Fill {
    /// The cells gathered so far.
    pub cells: Seq<ColorChar>,
    /// What is left in the queue.
    pub queue: Seq<MessageView>,
    /// Whether the streak is complete.
    pub full: bool,
}

/// `cells`, followed by as many blanks as it takes to reach `h` cells.
pub open spec fn padded(cells: Seq<ColorChar>, h: int) -> Seq<ColorChar> {
    cells + blanks(h - cells.len())
}

/// The top of a streak: what the first message gives a screen of `h` rows
/// when the opening roll is `roll`. A roll below the length of the message
/// less one cuts the cells off its front that the roll falls short by, so
/// that at least its last cell is left; a higher roll puts blanks before
/// the whole message. What is left of the message follows as far as the
/// screen has room: the top never exceeds `h` cells.
pub open spec fn lead_in(first: Seq<ColorChar>, roll: int, h: int) -> Seq<ColorChar> {
    let start = roll - first.len() + 1;
    if start > 0 {
        let pad = min(start, h);
        blanks(pad) + first.take(min(h - pad, first.len() as int))
    } else if -start < first.len() && 0 <= h {
        first.subrange(-start, min(first.len() as int, -start + h))
    } else {
        Seq::empty()
    }
}

/// One more round of filling, with a gap of `gap` blanks: the gap, then the
/// next message of the queue. The streak is complete as soon as it holds
/// `h` cells or the queue has nothing to give.
pub open spec fn fill_step(f: Fill, gap: int, closed: bool, h: int) -> Fill {
    if f.cells.len() + gap >= h || f.queue.len() == 0 {
        Fill { cells: padded(f.cells, h), queue: f.queue, full: true }
    } else {
        let spaced = f.cells + blanks(gap);
        let next = f.queue[0].contents;
        let room = h - spaced.len();
        if next.len() >= room {
            Fill { cells: spaced + next.take(room), queue: popped(f.queue, closed), full: true }
        } else {
            Fill { cells: spaced + next, queue: popped(f.queue, closed), full: false }
        }
    }
}

/// Filling from `f` on, one round for each gap of `gaps` until the streak
/// is complete.
pub open spec fn fill_run(f: Fill, gaps: Seq<int>, closed: bool, h: int) -> Fill
    decreases gaps.len(),
{
    if gaps.len() == 0 {
        f
    } else {
        let before = fill_run(f, gaps.drop_last(), closed, h);
        if before.full {
            before
        } else {
            fill_step(before, gaps.last(), closed, h)
        }
    }
}

/// The streak that a queue holding `q` gives a screen of `h` rows when the
/// opening roll is `roll` and the gaps rolled are `gaps`.
///
/// An empty queue gives blanks. Else the first message makes the top (no
/// roll is made, and the top is empty, where the message is empty and no
/// padding is allowed). A recycling queue none of whose messages shows a
/// cell could only add blanks for ever: the streak is then padded at once.
pub open spec fn spawn_model(
    q: Seq<MessageView>,
    closed: bool,
    roll: int,
    gaps: Seq<int>,
    h: int,
    max_padding: int,
) -> Fill {
    if q.len() == 0 {
        Fill { cells: blanks(h), queue: q, full: true }
    } else {
        let first = q[0].contents;
        let rest = popped(q, closed);
        let top = if first.len() + max_padding > 0 {
            lead_in(first, roll, h)
        } else {
            Seq::empty()
        };
        if top.len() >= h {
            Fill { cells: top, queue: rest, full: true }
        } else if closed && !some_cells(rest) {
            Fill { cells: padded(top, h), queue: rest, full: true }
        } else {
            fill_run(Fill { cells: top, queue: rest, full: false }, gaps, closed, h)
        }
    }
}

/// The rolls that a source may have given: the opening roll lies below the
/// length of the first message plus `max_padding`, each gap below
/// `max_padding`, and a gap is 0 where no padding is allowed.
pub open spec fn rolls_allowed(
    q: Seq<MessageView>,
    roll: int,
    gaps: Seq<int>,
    max_padding: int,
) -> bool {
    &&& q.len() > 0 && q[0].contents.len() + max_padding > 0 ==> 0 <= roll < q[0].contents.len()
        + max_padding
    &&& forall|i: int| 0 <= i < gaps.len() ==> 0 <= #[trigger] gaps[i] < max(max_padding, 1)
}

/// `cells` and `after` are the streak and the queue that `q` gives for the
/// rolls `roll` and `gaps`, and a source may have given those rolls.
pub open spec fn spawn_outcome(
    q: Seq<MessageView>,
    closed: bool,
    roll: int,
    gaps: Seq<int>,
    h: int,
    max_padding: int,
    cells: Seq<ColorChar>,
    after: Seq<MessageView>,
) -> bool {
    &&& rolls_allowed(q, roll, gaps, max_padding)
    &&& spawn_model(q, closed, roll, gaps, h, max_padding) == (Fill {
        cells,
        queue: after,
        full: true,
    })
}

/// The numbers that a source gives while a streak is made from `q` with the
/// opening roll `roll` and the gaps `gaps`: the opening roll, where one is
/// made, then the gaps, where padding is allowed.
pub open spec fn spawn_rolls(
    q: Seq<MessageView>,
    roll: int,
    gaps: Seq<int>,
    max_padding: int,
) -> Seq<int> {
    let opening = if q.len() > 0 && q[0].contents.len() + max_padding > 0 {
        seq![roll]
    } else {
        Seq::empty()
    };
    if max_padding > 0 {
        opening + gaps
    } else {
        opening
    }
}

/// `cells` and `after` are the streak and the queue that `q` gives for the
/// rolls `roll` and `gaps`, and these rolls are what the source gave: the
/// numbers it has given grew from `given_before` to `given_after` by
/// exactly them.
pub open spec fn spawn_from(
    q: Seq<MessageView>,
    closed: bool,
    roll: int,
    gaps: Seq<int>,
    h: int,
    max_padding: int,
    cells: Seq<ColorChar>,
    after: Seq<MessageView>,
    given_before: Seq<int>,
    given_after: Seq<int>,
) -> bool {
    &&& spawn_outcome(q, closed, roll, gaps, h, max_padding, cells, after)
    &&& given_after == given_before + spawn_rolls(q, roll, gaps, max_padding)
}

/// The head of `v` stands on or below the first row and can still move,
/// and the length of `v` counts rows.
pub open spec fn view_wf(v: StreakView) -> bool {
    &&& 0 <= v.head_row < i32::MAX
    &&& 0 <= v.length <= i32::MAX
    &&& i32::MIN <= v.lane <= i32::MAX
}

/// `v` has left a screen of `h` rows: the row above its tail is `h` or below.
pub open spec fn view_finished(v: StreakView, h: int) -> bool {
    v.head_row - v.length >= h
}

/// The rows of clearance that `v` leaves at the top of its lane.
pub open spec fn view_top_space(v: StreakView) -> int {
    v.head_row - v.length + 1
}

/// `v` one tick later: its head one row further down.
pub open spec fn view_advanced(v: StreakView) -> StreakView {
    StreakView { head_row: v.head_row + 1, ..v }
}

/// The row that `v` is about to leave behind.
pub open spec fn trail_row(v: StreakView) -> int {
    v.head_row - v.length - 1
}

/// The rows `lo..hi` of the screen, in order, each with the cell that `v`
/// holds for it.
pub open spec fn rows_drawn(v: StreakView, lo: int, hi: int) -> Seq<Draw> {
    Seq::new(
        if hi > lo {
            (hi - lo) as nat
        } else {
            0
        },
        |k: int| Draw { row: (lo + k) as i32, col: v.lane as i32, cell: v.cells[lo + k] },
    )
}

/// What `v` shows on a screen of `h` rows: its rows from the one it is
/// about to leave down to the one above its head, as far as they lie on
/// the screen.
pub open spec fn view_rendered(v: StreakView, h: int) -> Seq<Draw> {
    rows_drawn(v, max(trail_row(v), 0), min(v.head_row, h))
}

/// The blank that wipes the row which `v` is about to leave behind.
pub open spec fn view_derendered(v: StreakView, attr: u32) -> Draw {
    Draw {
        row: trail_row(v) as i32,
        col: v.lane as i32,
        cell: ColorChar { data: BLANK, attr },
    }
}

/// How many messages stand before the first one of `q` that shows a cell.
spec fn first_cells(q: Seq<MessageView>) -> nat
    decreases q.len(),
{
    if q.len() == 0 || q[0].contents.len() > 0 {
        0
    } else {
        1 + first_cells(q.drop_first())
    }
}

/// How many rounds of filling can pass without a cell from the queue.
spec fn idle_rounds(q: Seq<MessageView>, closed: bool) -> nat {
    if closed {
        first_cells(q)
    } else {
        q.len()
    }
}

/// A message put behind a queue that shows a cell stands behind that cell.
proof fn lemma_first_cells_push(q: Seq<MessageView>, m: MessageView)
    requires
        some_cells(q),
    ensures
        first_cells(q.push(m)) == first_cells(q),
    decreases q.len(),
{
    let i = choose|i: int| 0 <= i < q.len() && (#[trigger] q[i]).contents.len() > 0;
    assert(q.push(m)[0] == q[0]);
    if q[0].contents.len() == 0 {
        assert(q.drop_first()[i - 1] == q[i]);
        assert(q.push(m).drop_first() =~= q.drop_first().push(m));
        lemma_first_cells_push(q.drop_first(), m);
    }
}

/// A recycling queue that shows a cell still shows one after a pop, and
/// where its front message was empty the first cell has come one nearer.
proof fn lemma_turn(q: Seq<MessageView>)
    requires
        q.len() > 0,
        some_cells(q),
    ensures
        some_cells(popped(q, true)),
        q[0].contents.len() == 0 ==> first_cells(popped(q, true)) + 1 == first_cells(q),
{
    let i = choose|i: int| 0 <= i < q.len() && (#[trigger] q[i]).contents.len() > 0;
    let turned = popped(q, true);
    if i == 0 {
        assert(turned[q.len() - 1] == q[0]);
    } else {
        assert(turned[i - 1] == q[i]);
        assert(q.drop_first()[i - 1] == q[i]);
    }
    if q[0].contents.len() == 0 {
        lemma_first_cells_push(q.drop_first(), q[0]);
    }
}

/// Filling keeps a streak within the screen, completes it at exactly `h`
/// cells, and leaves the queue as some number of pops leave it.
proof fn lemma_fill_run(f: Fill, gaps: Seq<int>, closed: bool, h: int)
    requires
        0 <= h,
        f.full ==> f.cells.len() == h,
        !f.full ==> f.cells.len() < h,
        forall|i: int| 0 <= i < gaps.len() ==> 0 <= #[trigger] gaps[i],
    ensures
        fill_run(f, gaps, closed, h).full ==> fill_run(f, gaps, closed, h).cells.len() == h,
        !fill_run(f, gaps, closed, h).full ==> fill_run(f, gaps, closed, h).cells.len() < h,
        exists|k: nat| fill_run(f, gaps, closed, h).queue == popped_times(f.queue, closed, k),
    decreases gaps.len(),
{
    if gaps.len() == 0 {
        assert(f.queue == popped_times(f.queue, closed, 0));
    } else {
        let earlier = gaps.drop_last();
        assert forall|i: int| 0 <= i < earlier.len() implies 0 <= #[trigger] earlier[i] by {
            assert(earlier[i] == gaps[i]);
        }
        lemma_fill_run(f, earlier, closed, h);
        let before = fill_run(f, earlier, closed, h);
        let k = choose|k: nat| before.queue == popped_times(f.queue, closed, k);
        let after = fill_run(f, gaps, closed, h);
        if after.queue == before.queue {
            assert(after.queue == popped_times(f.queue, closed, k));
        } else {
            assert(after.queue == popped(before.queue, closed));
            assert(after.queue == popped_times(f.queue, closed, k + 1));
        }
    }
}

/// Filling only adds behind what a streak holds.
proof fn lemma_fill_keeps(f: Fill, gaps: Seq<int>, closed: bool, h: int)
    ensures
        fill_run(f, gaps, closed, h).cells.len() >= f.cells.len(),
        fill_run(f, gaps, closed, h).cells.take(f.cells.len() as int) == f.cells,
    decreases gaps.len(),
{
    if gaps.len() == 0 {
        assert(f.cells.take(f.cells.len() as int) =~= f.cells);
    } else {
        lemma_fill_keeps(f, gaps.drop_last(), closed, h);
        let before = fill_run(f, gaps.drop_last(), closed, h);
        let after = fill_run(f, gaps, closed, h);
        assert(after.cells.len() >= before.cells.len());
        assert(after.cells.take(before.cells.len() as int) =~= before.cells);
        assert(after.cells.take(f.cells.len() as int) =~= before.cells.take(
            f.cells.len() as int,
        ));
    }
}

/// The first message shows at the top of `cells`: `pad` blanks, no more
/// than `max_padding`, then the cell `cut` of the message; and the message
/// is either padded or cut, never both.
pub open spec fn first_shows(
    first: Seq<ColorChar>,
    cells: Seq<ColorChar>,
    pad: int,
    cut: int,
    max_padding: int,
) -> bool {
    &&& 0 <= pad <= max_padding
    &&& 0 <= cut < first.len()
    &&& pad == 0 || cut == 0
    &&& pad < cells.len()
    &&& forall|i: int| 0 <= i < pad ==> cells[i] == blank_cell()
    &&& cells[pad] == first[cut]
}

/// A cell of the first message always shows: where the queue gives a
/// message of at least one cell and the padding allowed is below the
/// height of the screen, the streak begins with no more blanks than the
/// padding allowed, and a cell of that message follows them, whatever the
/// rolls.
pub proof fn law_first_message_shows(
    q: Seq<MessageView>,
    closed: bool,
    roll: int,
    gaps: Seq<int>,
    h: int,
    max_padding: int,
    cells: Seq<ColorChar>,
    after: Seq<MessageView>,
)
    requires
        q.len() > 0,
        q[0].contents.len() >= 1,
        0 <= max_padding < h,
        spawn_outcome(q, closed, roll, gaps, h, max_padding, cells, after),
    ensures
        exists|pad: int, cut: int| first_shows(q[0].contents, cells, pad, cut, max_padding),
{
    let first = q[0].contents;
    let rest = popped(q, closed);
    let top = lead_in(first, roll, h);
    let start = roll - first.len() + 1;
    let pad = if start > 0 {
        start
    } else {
        0
    };
    let cut = if start > 0 {
        0
    } else {
        -start
    };
    assert(first_shows(first, top, pad, cut, max_padding));
    if top.len() < h && !(closed && !some_cells(rest)) {
        lemma_fill_keeps(Fill { cells: top, queue: rest, full: false }, gaps, closed, h);
    }
    assert(cells.take(top.len() as int) =~= top);
    assert forall|i: int| 0 <= i <= pad implies cells[i] == top[i] by {
        assert(cells.take(top.len() as int)[i] == cells[i]);
    }
    assert(first_shows(first, cells, pad, cut, max_padding));
}

/// Once a streak is complete no further gap changes it: the gaps rolled
/// up to its completion decide it.
pub proof fn law_complete_stays(f: Fill, gaps: Seq<int>, more: Seq<int>, closed: bool, h: int)
    requires
        fill_run(f, gaps, closed, h).full,
    ensures
        fill_run(f, gaps + more, closed, h) == fill_run(f, gaps, closed, h),
    decreases more.len(),
{
    if more.len() == 0 {
        assert(gaps + more =~= gaps);
    } else {
        law_complete_stays(f, gaps, more.drop_last(), closed, h);
        assert((gaps + more).drop_last() =~= gaps + more.drop_last());
    }
}

/// Whatever the rolls, a streak holds exactly one cell for each row of the
/// screen, and the queue is left as some number of pops leave it: no
/// message is lost or moved but by being shown, and a queue that recycles
/// holds as many messages as before.
pub proof fn law_spawn(
    q: Seq<MessageView>,
    closed: bool,
    roll: int,
    gaps: Seq<int>,
    h: int,
    max_padding: int,
    cells: Seq<ColorChar>,
    after: Seq<MessageView>,
)
    requires
        0 <= h,
        0 <= max_padding,
        spawn_outcome(q, closed, roll, gaps, h, max_padding, cells, after),
    ensures
        cells.len() == h,
        exists|k: nat| after == popped_times(q, closed, k),
        closed ==> after.len() == q.len(),
{
    if q.len() == 0 {
        assert(after == popped_times(q, closed, 0));
    } else {
        let first = q[0].contents;
        let rest = popped(q, closed);
        assert(rest == popped_times(q, closed, 1)) by {
            assert(q == popped_times(q, closed, 0));
        }
        let top = if first.len() + max_padding > 0 {
            lead_in(first, roll, h)
        } else {
            Seq::empty()
        };
        assert(top.len() <= h);
        if top.len() < h && !(closed && !some_cells(rest)) {
            let start = Fill { cells: top, queue: rest, full: false };
            lemma_fill_run(start, gaps, closed, h);
            let k = choose|k: nat| after == popped_times(rest, closed, k);
            law_pops_add_up(q, closed, 1, k);
        }
    }
    if closed {
        let k = choose|k: nat| after == popped_times(q, closed, k);
        law_closed_queue_never_runs_dry(q, k);
    }
}

/// Appends `n` blank cells to `out`.
fn pad_blanks(out: &mut ColorString, n: usize)
    ensures
        final(out)@ == old(out)@ + blanks(n as int),
{
    let mut i: usize = 0;
    while i < n
        invariant
            i <= n,
            out@ == old(out)@ + blanks(i as int),
        decreases n - i,
    {
        out.push(ColorChar::new(BLANK, 0));
        i += 1;
        assert(out@ =~= old(out)@ + blanks(i as int));
    }
}

/// Appends the cells `from..to` of `src` to `out`.
fn push_cells(out: &mut ColorString, src: &ColorString, from: usize, to: usize)
    requires
        from <= to <= src.len(),
    ensures
        final(out)@ == old(out)@ + src@.subrange(from as int, to as int),
{
    let mut i: usize = from;
    while i < to
        invariant
            from <= i <= to <= src.len(),
            out@ == old(out)@ + src@.subrange(from as int, i as int),
        decreases to - i,
    {
        out.push(src[i]);
        i += 1;
        assert(out@ =~= old(out)@ + src@.subrange(from as int, i as int));
    }
}

/// The top of a streak on a screen of `h` rows, for the opening roll `roll`.
fn open_streak(first: &ColorString, roll: i128, h: usize) -> (top: ColorString)
    requires
        0 <= roll,
    ensures
        top@ == lead_in(first@, roll as int, h as int),
        top@.len() <= h,
{
    let mut top: ColorString = Vec::new();
    let len = first.len();
    if roll >= len as i128 {
        // The roll reaches past the message: blanks come first.
        let over: i128 = roll - len as i128;
        let pad: usize = if over >= h as i128 {
            h
        } else {
            (over + 1) as usize
        };
        pad_blanks(&mut top, pad);
        let room = h - pad;
        let take: usize = if room < len {
            room
        } else {
            len
        };
        push_cells(&mut top, first, 0, take);
        assert(first@.subrange(0, take as int) =~= first@.take(take as int));
    } else {
        let skip: usize = (len as i128 - 1 - roll) as usize;
        let upto: usize = if len - skip > h {
            skip + h
        } else {
            len
        };
        push_cells(&mut top, first, skip, upto);
    }
    top
}

/// One falling streak. Its cells are fixed when it is made, one for each
/// row of the screen; only its head moves.
#[derive(Debug)]
pub struct Streak {
    head_x: i32,
    head_y: i32,
    length: i32,
    inner_text: ColorString,
}

impl View for Streak {
    type V = StreakView;

    closed spec fn view(&self) -> StreakView {
        StreakView {
            lane: self.head_x as int,
            head_row: self.head_y as int,
            length: self.length as int,
            cells: self.inner_text@,
        }
    }
}

impl Streak {
    /// The head stands on or below the first row and can still move, and
    /// the length counts rows.
    pub open spec fn wf(&self) -> bool {
        view_wf(self@)
    }

    /// The lane the streak falls down.
    pub fn lane(&self) -> (x: i32)
        ensures
            x == self@.lane,
    {
        self.head_x
    }

    /// The row the head stands on.
    pub fn head_row(&self) -> (y: i32)
        ensures
            y == self@.head_row,
    {
        self.head_y
    }

    /// How many rows of the streak show at a time.
    pub fn length(&self) -> (n: i32)
        ensures
            n == self@.length,
    {
        self.length
    }

    /// The cells of the streak, one for each row of the screen.
    pub fn cells(&self) -> (cells: &ColorString)
        ensures
            cells@ == self@.cells,
    {
        &self.inner_text
    }

    /// The draws that show the streak on a screen of `screen_height` rows.
    pub fn render(&self, screen_height: i32) -> (draws: Vec<Draw>)
        requires
            self.wf(),
            screen_height <= self@.cells.len(),
        ensures
            draws@ == view_rendered(self@, screen_height as int),
    {
        let mut draws: Vec<Draw> = Vec::new();
        let top: i32 = self.head_y - self.length - 1;
        let lo: i32 = if top < 0 {
            0
        } else {
            top
        };
        let hi: i32 = if self.head_y < screen_height {
            self.head_y
        } else {
            screen_height
        };
        let mut i: i32 = lo;
        while i < hi
            invariant
                0 <= lo <= i,
                hi <= screen_height <= self@.cells.len(),
                lo < hi ==> i <= hi,
                lo >= hi ==> i == lo,
                draws@ == rows_drawn(self@, lo as int, i as int),
            decreases hi - i,
        {
            draws.push(Draw { row: i, col: self.head_x, cell: self.inner_text[i as usize] });
            i += 1;
            assert(draws@ =~= rows_drawn(self@, lo as int, i as int));
        }
        assert(draws@ =~= rows_drawn(self@, lo as int, hi as int));
        draws
    }

    /// The draw that wipes, with a blank of the attribute `attr`, the row
    /// which the streak leaves behind at its next move.
    pub fn derender(&self, attr: u32) -> (draw: Draw)
        requires
            self.wf(),
        ensures
            draw == view_derendered(self@, attr),
    {
        Draw {
            row: self.head_y - self.length - 1,
            col: self.head_x,
            cell: ColorChar::new(BLANK, attr),
        }
    }

    /// Moves the head one row down.
    pub fn advance(&mut self)
        requires
            old(self).wf(),
            old(self)@.head_row + 1 < i32::MAX,
        ensures
            final(self).wf(),
            final(self)@ == view_advanced(old(self)@),
    {
        self.head_y += 1;
    }

    /// Whether the streak has left a screen of `screen_height` rows. With a
    /// length and a height fixed, this is false while the head stands above
    /// row `length + screen_height`, and true from that row on.
    pub fn finished(&self, screen_height: i32) -> (b: bool)
        requires
            self.wf(),
        ensures
            b == view_finished(self@, screen_height as int),
            b <==> self@.head_row >= self@.length + screen_height,
    {
        self.head_y - self.length >= screen_height
    }

    /// The rows of clearance above the streak.
    pub fn top_space(&self) -> (rows: i32)
        requires
            self.wf(),
        ensures
            rows == view_top_space(self@),
    {
        self.head_y - self.length + 1
    }

    /// A streak for the lane `head_x` of a screen of `screen_height` rows,
    /// showing `length` rows at a time, with its head on the first row. Its
    /// cells come from `queue`, with blanks between the messages as `rolls`
    /// decides: see `spawn_model`. The opening roll and the gaps are the
    /// numbers that `rolls` gives during the call, in that order, and no
    /// other number is drawn. A streak whose length counts rows is well
    /// formed.
    #[verifier::loop_isolation(false)]
    pub fn new_with_source<R: RollSource>(
        queue: &mut MessageQueue,
        rolls: &mut R,
        head_x: i32,
        length: i32,
        screen_height: i32,
        max_padding: i32,
    ) -> (s: Streak)
        requires
            0 <= screen_height,
            0 <= max_padding,
        ensures
            0 <= length ==> s.wf(),
            s@.lane == head_x,
            s@.head_row == 0,
            s@.length == length,
            s@.cells.len() == screen_height,
            final(queue).is_closed() == old(queue).is_closed(),
            old(queue)@.len() == 0 ==> s@.cells == blanks(screen_height as int) && final(queue)@
                == old(queue)@,
            exists|roll: int, gaps: Seq<int>|
                spawn_from(
                    old(queue)@,
                    old(queue).is_closed(),
                    roll,
                    gaps,
                    screen_height as int,
                    max_padding as int,
                    s@.cells,
                    final(queue)@,
                    old(rolls).given(),
                    final(rolls).given(),
                ),
    {
        let h: usize = screen_height as usize;
        let closed = queue.recycles();
        let ghost q0 = queue@;
        let ghost g0 = rolls.given();
        let ghost hh = screen_height as int;
        let ghost pp = max_padding as int;
        let first = match queue.pop() {
            Some(m) => m,
            None => {
                let mut text: ColorString = Vec::new();
                pad_blanks(&mut text, h);
                let s = Streak { head_x, head_y: 0, length, inner_text: text };
                assert(g0 + spawn_rolls(q0, 0, Seq::empty(), pp) =~= rolls.given());
                assert(spawn_from(
                    q0,
                    closed,
                    0,
                    Seq::empty(),
                    hh,
                    pp,
                    s@.cells,
                    queue@,
                    g0,
                    rolls.given(),
                ));
                return s;
            },
        };
        let ghost mut roll: int = 0;
        let span: i128 = first.contents.len() as i128 + max_padding as i128;
        let mut text: ColorString = Vec::new();
        if span > 0 {
            let r = rolls.roll(0, span);
            proof {
                roll = r as int;
            }
            text = open_streak(&first.contents, r, h);
        }
        let ghost top = text@;
        let ghost rest = queue@;
        if text.len() >= h {
            let s = Streak { head_x, head_y: 0, length, inner_text: text };
            assert(g0 + spawn_rolls(q0, roll, Seq::empty(), pp) =~= rolls.given());
            assert(spawn_from(
                q0,
                closed,
                roll,
                Seq::empty(),
                hh,
                pp,
                s@.cells,
                queue@,
                g0,
                rolls.given(),
            ));
            return s;
        }
        if closed && !queue.has_cells() {
            let missing = h - text.len();
            pad_blanks(&mut text, missing);
            let s = Streak { head_x, head_y: 0, length, inner_text: text };
            assert(g0 + spawn_rolls(q0, roll, Seq::empty(), pp) =~= rolls.given());
            assert(spawn_from(
                q0,
                closed,
                roll,
                Seq::empty(),
                hh,
                pp,
                s@.cells,
                queue@,
                g0,
                rolls.given(),
            ));
            return s;
        }
        let ghost start = Fill { cells: top, queue: rest, full: false };
        let ghost mut gaps: Seq<int> = Seq::empty();
        loop
            invariant
                text@.len() < h,
                queue.is_closed() == closed,
                closed ==> some_cells(queue@),
                rolls_allowed(q0, roll, gaps, pp),
                rolls.given() == g0 + spawn_rolls(q0, roll, gaps, pp),
                fill_run(start, gaps, closed, hh) == (Fill {
                    cells: text@,
                    queue: queue@,
                    full: false,
                }),
            decreases h - text.len(), idle_rounds(queue@, closed),
        {
            let gap: i128 = if max_padding > 0 {
                rolls.roll(0, max_padding as i128)
            } else {
                0
            };
            let ghost before = Fill { cells: text@, queue: queue@, full: false };
            let ghost earlier = gaps;
            proof {
                gaps = gaps.push(gap as int);
                assert(gaps.drop_last() =~= earlier);
                assert(rolls.given() =~= g0 + spawn_rolls(q0, roll, gaps, pp));
                assert(fill_run(start, gaps, closed, hh) == fill_step(
                    before,
                    gap as int,
                    closed,
                    hh,
                ));
            }
            if gap >= (h - text.len()) as i128 {
                let missing = h - text.len();
                pad_blanks(&mut text, missing);
                let s = Streak { head_x, head_y: 0, length, inner_text: text };
                assert(g0 + spawn_rolls(q0, roll, gaps, pp) =~= rolls.given());
                assert(spawn_from(
                    q0,
                    closed,
                    roll,
                    gaps,
                    hh,
                    pp,
                    s@.cells,
                    queue@,
                    g0,
                    rolls.given(),
                ));
                return s;
            }
            match queue.pop() {
                None => {
                    let missing = h - text.len();
                    pad_blanks(&mut text, missing);
                    let s = Streak { head_x, head_y: 0, length, inner_text: text };
                    assert(g0 + spawn_rolls(q0, roll, gaps, pp) =~= rolls.given());
                    assert(spawn_from(
                        q0,
                        closed,
                        roll,
                        gaps,
                        hh,
                        pp,
                        s@.cells,
                        queue@,
                        g0,
                        rolls.given(),
                    ));
                    return s;
                },
                Some(next) => {
                    proof {
                        if closed {
                            lemma_turn(before.queue);
                        }
                    }
                    pad_blanks(&mut text, gap as usize);
                    let room = h - text.len();
                    if next.contents.len() >= room {
                        push_cells(&mut text, &next.contents, 0, room);
                        assert(next@.contents.subrange(0, room as int) =~= next@.contents.take(
                            room as int,
                        ));
                        let s = Streak { head_x, head_y: 0, length, inner_text: text };
                        assert(g0 + spawn_rolls(q0, roll, gaps, pp) =~= rolls.given());
                        assert(spawn_from(
                            q0,
                            closed,
                            roll,
                            gaps,
                            hh,
                            pp,
                            s@.cells,
                            queue@,
                            g0,
                            rolls.given(),
                        ));
                        return s;
                    }
                    push_cells(&mut text, &next.contents, 0, next.contents.len());
                    assert(next@.contents.subrange(0, next@.contents.len() as int)
                        =~= next@.contents);
                },
            }
        }
    }

    /// A streak as `new_with_source` makes it, with the rolls drawn from the
    /// calling thread's random generator.
    pub fn new_with_queue(
        queue: &mut MessageQueue,
        head_x: i32,
        length: i32,
        screen_height: i32,
        max_padding: i32,
    ) -> (s: Streak)
        requires
            0 <= screen_height,
            0 <= max_padding,
        ensures
            0 <= length ==> s.wf(),
            s@.lane == head_x,
            s@.head_row == 0,
            s@.length == length,
            s@.cells.len() == screen_height,
            final(queue).is_closed() == old(queue).is_closed(),
            old(queue)@.len() == 0 ==> s@.cells == blanks(screen_height as int) && final(queue)@
                == old(queue)@,
            exists|roll: int, gaps: Seq<int>|
                spawn_outcome(
                    old(queue)@,
                    old(queue).is_closed(),
                    roll,
                    gaps,
                    screen_height as int,
                    max_padding as int,
                    s@.cells,
                    final(queue)@,
                ),
    {
        let mut rolls = ThreadRolls::new();
        Streak::new_with_source(queue, &mut rolls, head_x, length, screen_height, max_padding)
    }
}

} // verus!
