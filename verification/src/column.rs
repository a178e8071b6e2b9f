//! One lane of the screen: the streaks falling down it, and what one tick
//! does to them.

use crate::message::{popped_times, MessageQueue, MessageView};
use crate::roll::RollSource;
use crate::streak::{
    law_spawn, spawn_from, spawn_rolls, view_advanced, view_derendered, view_finished,
    view_rendered, view_top_space, Draw, Streak, StreakView,
};
use vstd::prelude::*;

verus! {

/// The tallest screen the engine takes: three times its height still fits
/// the row numbers.
pub const MAX_HEIGHT: i32 = 715_827_882;

/// The rows of clearance a lane needs above each of its streaks before
/// another streak may start.
pub const CLEARANCE: i32 = 5;

/// One thing for the terminal to do.
#[derive(Clone, Copy, Debug, PartialEq, Eq, Structural)]
pub enum ScreenOp {
    /// Put a cell on the screen.
    Put(Draw),
    /// Bring the terminal up to date with what was put.
    Refresh,
    /// Wipe the whole screen.
    Erase,
    /// Register the color pair `pair` as `fg` on `bg`.
    InitPair { pair: i16, fg: i16, bg: i16 },
    /// Tell the terminal its new size.
    ResizeTerm { height: i32, width: i32 },
    /// Give the terminal back.
    EndWin,
}

/// What a lane is: its live streaks, oldest first, and whether it ever had
/// one.
pub ghost struct ColumnView {
    pub streaks: Seq<StreakView>,
    pub touched: bool,
}

/// The views of `streaks`, in order.
pub open spec fn streak_views(streaks: Seq<Streak>) -> Seq<StreakView> {
    Seq::new(streaks.len(), |i: int| streaks[i]@)
}

/// `v` belongs to the lane `lane` of a screen of `h` rows and is still on
/// it: it has a cell for each row, shows fewer than `2 * h` rows, and has
/// not left the screen.
pub open spec fn streak_fits(v: StreakView, lane: int, h: int) -> bool {
    &&& v.lane == lane
    &&& v.cells.len() == h
    &&& 0 <= v.length < 2 * h
    &&& 0 <= v.head_row < v.length + h
}

/// Each streak of `streaks` fits the lane `lane` of a screen of `h` rows.
pub open spec fn all_fit(streaks: Seq<StreakView>, lane: int, h: int) -> bool {
    forall|k: int| 0 <= k < streaks.len() ==> streak_fits(#[trigger] streaks[k], lane, h)
}

/// The streaks of `streaks` that are still on a screen of `h` rows after
/// each has moved one row down, in their order.
pub open spec fn survivors(streaks: Seq<StreakView>, h: int) -> Seq<StreakView>
    decreases streaks.len(),
{
    if streaks.len() == 0 {
        Seq::empty()
    } else {
        let rest = survivors(streaks.drop_last(), h);
        let moved = view_advanced(streaks.last());
        if view_finished(moved, h) {
            rest
        } else {
            rest.push(moved)
        }
    }
}

/// Each streak of `streaks` leaves more than `CLEARANCE` rows free above
/// it, so that another streak may start; so it is where there is none.
pub open spec fn has_room(streaks: Seq<StreakView>) -> bool {
    forall|k: int| 0 <= k < streaks.len() ==> view_top_space(#[trigger] streaks[k]) > CLEARANCE
}

/// For each streak of `streaks`, in order, the blank that wipes the row it
/// is about to leave.
pub open spec fn wipes(streaks: Seq<StreakView>, attr: u32) -> Seq<ScreenOp> {
    Seq::new(streaks.len(), |k: int| ScreenOp::Put(view_derendered(streaks[k], attr)))
}

/// `draws` as things for the terminal to do.
pub open spec fn puts(draws: Seq<Draw>) -> Seq<ScreenOp> {
    Seq::new(draws.len(), |k: int| ScreenOp::Put(draws[k]))
}

/// For each streak of `streaks`, in order, what it shows on a screen of
/// `h` rows.
pub open spec fn shows(streaks: Seq<StreakView>, h: int) -> Seq<ScreenOp>
    decreases streaks.len(),
{
    if streaks.len() == 0 {
        Seq::empty()
    } else {
        shows(streaks.drop_last(), h) + puts(view_rendered(streaks.last(), h))
    }
}

/// The bound below which the length of a new streak is drawn on a screen of
/// `h` rows: the height for the first streak of a lane, twice the height
/// for every later one.
pub open spec fn longest(h: int, touched: bool) -> int {
    if touched {
        2 * h
    } else {
        h
    }
}

/// The numbers that a source gives before a new streak is made in a lane:
/// the trial that the streak was won on, which is 0, where the lane never
/// had a streak, and then the length of the streak.
pub open spec fn lane_rolls(touched: bool, length: int) -> Seq<int> {
    if touched {
        seq![length]
    } else {
        seq![0int, length]
    }
}

/// One tick takes the lane `lane` from `before` to `after`, and the queue
/// from `q_before` to `q_after`, on a screen of `h` rows, when `untouched`
/// lanes had no streak yet as the tick began and the numbers that the
/// source of rolls has given grow from `g_before` to `g_after`.
///
/// The streaks move down and those that leave the screen go. Where one
/// that stays leaves no room, nothing more happens and no number is
/// drawn. Where each leaves room, a lane that had a streak before gets a
/// new one; a lane that never had one draws a trial below `untouched` and
/// gets a new streak if the trial is 0. A new streak stands last, with its
/// head on the first row. Its length is the next number drawn: at least
/// `h / 10`, and below `longest(h, touched)`, so that the first streak of a
/// lane is shorter than the screen and a later one shorter than twice the
/// screen. Its cells come from the queue, by the rolls drawn after that.
/// Nothing else touches the queue or draws a number.
pub open spec fn lane_step(
    before: ColumnView,
    after: ColumnView,
    q_before: Seq<MessageView>,
    q_after: Seq<MessageView>,
    closed: bool,
    lane: int,
    h: int,
    max_padding: int,
    untouched: int,
    g_before: Seq<int>,
    g_after: Seq<int>,
) -> bool {
    let kept = survivors(before.streaks, h);
    ||| {
        &&& after.streaks == kept
        &&& after.touched == before.touched
        &&& q_after == q_before
        &&& if has_room(kept) {
            &&& !before.touched
            &&& g_after.len() == g_before.len() + 1
            &&& g_after.drop_last() == g_before
            &&& 0 < g_after.last() < untouched
        } else {
            g_after == g_before
        }
    }
    ||| {
        &&& has_room(kept)
        &&& after.touched
        &&& after.streaks.len() == kept.len() + 1
        &&& after.streaks.drop_last() == kept
        &&& after.streaks.last().lane == lane
        &&& after.streaks.last().head_row == 0
        &&& h / 10 <= after.streaks.last().length < longest(h, before.touched)
        &&& exists|roll: int, gaps: Seq<int>|
            spawn_from(
                q_before,
                closed,
                roll,
                gaps,
                h,
                max_padding,
                after.streaks.last().cells,
                q_after,
                g_before + lane_rolls(before.touched, after.streaks.last().length),
                g_after,
            )
    }
}

/// The streaks that stay on the screen still fit their lane.
proof fn lemma_survivors_fit(streaks: Seq<StreakView>, lane: int, h: int)
    requires
        all_fit(streaks, lane, h),
    ensures
        all_fit(survivors(streaks, h), lane, h),
        survivors(streaks, h).len() <= streaks.len(),
    decreases streaks.len(),
{
    if streaks.len() > 0 {
        let front = streaks.drop_last();
        assert forall|k: int| 0 <= k < front.len() implies streak_fits(
            #[trigger] front[k],
            lane,
            h,
        ) by {
            assert(front[k] == streaks[k]);
        }
        lemma_survivors_fit(front, lane, h);
        assert(streak_fits(streaks.last(), lane, h));
    }
}

/// A step of a lane whose streaks fit leaves streaks that fit: each has a
/// cell for each row of the screen, stands in its lane and has not left
/// the screen. A lane that had a streak stays touched, no lane gains more
/// than one streak, and the queue is left as some number of pops leave it.
pub proof fn law_lane_step(
    before: ColumnView,
    after: ColumnView,
    q_before: Seq<MessageView>,
    q_after: Seq<MessageView>,
    closed: bool,
    lane: int,
    h: int,
    max_padding: int,
    untouched: int,
    g_before: Seq<int>,
    g_after: Seq<int>,
)
    requires
        1 <= h,
        0 <= max_padding,
        all_fit(before.streaks, lane, h),
        lane_step(
            before,
            after,
            q_before,
            q_after,
            closed,
            lane,
            h,
            max_padding,
            untouched,
            g_before,
            g_after,
        ),
    ensures
        all_fit(after.streaks, lane, h),
        before.touched ==> after.touched,
        after.streaks.len() > 0 ==> after.touched || before.streaks.len() > 0,
        after.streaks.len() <= before.streaks.len() + 1,
        exists|k: nat| q_after == popped_times(q_before, closed, k),
{
    let kept = survivors(before.streaks, h);
    lemma_survivors_fit(before.streaks, lane, h);
    if after.streaks == kept && q_after == q_before {
        assert(q_after == popped_times(q_before, closed, 0));
    } else {
        let new = after.streaks.last();
        let (roll, gaps) = choose|roll: int, gaps: Seq<int>|
            spawn_from(
                q_before,
                closed,
                roll,
                gaps,
                h,
                max_padding,
                new.cells,
                q_after,
                g_before + lane_rolls(before.touched, new.length),
                g_after,
            );
        law_spawn(q_before, closed, roll, gaps, h, max_padding, new.cells, q_after);
        assert forall|k: int| 0 <= k < after.streaks.len() implies streak_fits(
            #[trigger] after.streaks[k],
            lane,
            h,
        ) by {
            if k < kept.len() {
                assert(after.streaks[k] == after.streaks.drop_last()[k]);
            }
        }
    }
}

/// Appends `draws` to `ops`, as things for the terminal to do.
fn push_puts(ops: &mut Vec<ScreenOp>, draws: &Vec<Draw>)
    ensures
        final(ops)@ == old(ops)@ + puts(draws@),
{
    let mut k: usize = 0;
    while k < draws.len()
        invariant
            k <= draws.len(),
            ops@ == old(ops)@ + puts(draws@.take(k as int)),
        decreases draws.len() - k,
    {
        ops.push(ScreenOp::Put(draws[k]));
        k += 1;
        assert(ops@ =~= old(ops)@ + puts(draws@.take(k as int)));
    }
    assert(draws@.take(k as int) == draws@);
}

/// One lane of the screen.
#[derive(Debug)]
pub struct Column {
    streaks: Vec<Streak>,
    touched: bool,
}

impl View for Column {
    type V = ColumnView;

    closed spec fn view(&self) -> ColumnView {
        ColumnView { streaks: streak_views(self.streaks@), touched: self.touched }
    }
}

impl Column {
    /// A lane that never had a streak.
    pub fn new() -> (c: Column)
        ensures
            c@ == (ColumnView { streaks: Seq::empty(), touched: false }),
    {
        let c = Column { streaks: Vec::new(), touched: false };
        assert(c@.streaks =~= Seq::empty());
        c
    }

    /// Puts `streak` behind the streaks of the lane; the lane has had a
    /// streak from now on.
    pub fn add_streak(&mut self, streak: Streak)
        ensures
            final(self)@ == (ColumnView {
                streaks: old(self)@.streaks.push(streak@),
                touched: true,
            }),
    {
        self.streaks.push(streak);
        self.touched = true;
        assert(self@.streaks =~= old(self)@.streaks.push(streak@));
    }

    /// Whether the lane ever had a streak.
    pub fn touched(&self) -> (b: bool)
        ensures
            b == self@.touched,
    {
        self.touched
    }

    /// The live streaks of the lane, oldest first.
    pub fn streaks(&self) -> (streaks: &Vec<Streak>)
        ensures
            streak_views(streaks@) == self@.streaks,
    {
        &self.streaks
    }

    /// One tick of the lane `lane`: see `lane_step`. The blanks that wipe
    /// behind the streaks as they were, and then what the streaks show as
    /// they are now, are added to `ops`.
    pub fn tick<R: RollSource>(
        &mut self,
        queue: &mut MessageQueue,
        rolls: &mut R,
        lane: i32,
        height: i32,
        max_padding: i32,
        wipe: u32,
        untouched: usize,
        ops: &mut Vec<ScreenOp>,
    )
        requires
            1 <= height <= MAX_HEIGHT,
            0 <= max_padding,
            all_fit(old(self)@.streaks, lane as int, height as int),
            !old(self)@.touched ==> untouched >= 1,
        ensures
            all_fit(final(self)@.streaks, lane as int, height as int),
            final(queue).is_closed() == old(queue).is_closed(),
            lane_step(
                old(self)@,
                final(self)@,
                old(queue)@,
                final(queue)@,
                old(queue).is_closed(),
                lane as int,
                height as int,
                max_padding as int,
                untouched as int,
                old(rolls).given(),
                final(rolls).given(),
            ),
            final(ops)@ == old(ops)@ + wipes(old(self)@.streaks, wipe) + shows(
                final(self)@.streaks,
                height as int,
            ),
    {
        let ghost h = height as int;
        let mut moving: Vec<Streak> = Vec::new();
        core::mem::swap(&mut self.streaks, &mut moving);
        let ghost all = moving@;
        let ghost before = streak_views(all);
        assert(before == old(self)@.streaks);
        let mut kept: Vec<Streak> = Vec::new();
        for s in it: moving
            invariant
                it.seq() == all,
                before == streak_views(all),
                all_fit(before, lane as int, h),
                1 <= height <= MAX_HEIGHT,
                h == height,
                streak_views(kept@) == survivors(before.take(it.index() as int), h),
                all_fit(streak_views(kept@), lane as int, h),
                ops@ == old(ops)@ + wipes(before.take(it.index() as int), wipe),
        {
            let mut s = s;
            let ghost idx = it.index() as int;
            let ghost was = s@;
            assert(was == before[idx]);
            assert(streak_fits(was, lane as int, h));
            ops.push(ScreenOp::Put(s.derender(wipe)));
            s.advance();
            let gone = s.finished(height);
            let ghost earlier = streak_views(kept@);
            if !gone {
                kept.push(s);
            }
            proof {
                assert(before.take(idx + 1).drop_last() =~= before.take(idx));
                assert(before.take(idx + 1).last() == was);
                if !gone {
                    assert(streak_views(kept@) =~= earlier.push(view_advanced(was)));
                }
                assert(ops@ =~= old(ops)@ + wipes(before.take(idx + 1), wipe));
            }
        }
        assert(before.take(all.len() as int) == before);
        let ghost stay = streak_views(kept@);

        let mut room = true;
        let mut k: usize = 0;
        while k < kept.len()
            invariant
                k <= kept.len(),
                stay == streak_views(kept@),
                all_fit(stay, lane as int, h),
                1 <= height <= MAX_HEIGHT,
                h == height,
                room == has_room(stay.take(k as int)),
            decreases kept.len() - k,
        {
            assert(streak_fits(stay[k as int], lane as int, h));
            let space = kept[k].top_space();
            proof {
                let upto = stay.take(k as int + 1);
                assert(upto[k as int] == stay[k as int]);
                assert forall|j: int| 0 <= j < k implies upto[j] == stay.take(k as int)[j] by {}
                if space > CLEARANCE && room {
                    assert(has_room(upto));
                }
                if !room {
                    let j = choose|j: int|
                        0 <= j < k && !(view_top_space(#[trigger] stay.take(k as int)[j])
                            > CLEARANCE);
                    assert(upto[j] == stay.take(k as int)[j]);
                }
            }
            if space <= CLEARANCE {
                room = false;
            }
            k += 1;
        }
        assert(stay.take(k as int) == stay);

        let ghost g0 = rolls.given();
        if room {
            let spawn = if self.touched {
                true
            } else {
                rolls.roll(0, untouched as i128) == 0
            };
            if spawn {
                let bound: i32 = if self.touched {
                    height * 2
                } else {
                    height
                };
                let length = rolls.roll((height / 10) as i128, bound as i128) as i32;
                assert(rolls.given() =~= g0 + lane_rolls(self.touched, length as int));
                let streak = Streak::new_with_source(
                    queue,
                    rolls,
                    lane,
                    length,
                    height,
                    max_padding,
                );
                kept.push(streak);
                self.touched = true;
                proof {
                    assert(streak_views(kept@) =~= stay.push(streak@));
                    assert(streak_views(kept@).drop_last() =~= stay);
                }
            } else {
                assert(rolls.given().drop_last() =~= g0);
            }
        }
        let ghost now = streak_views(kept@);
        let ghost wiped = ops@;

        let mut k: usize = 0;
        while k < kept.len()
            invariant
                k <= kept.len(),
                now == streak_views(kept@),
                all_fit(now, lane as int, h),
                1 <= height <= MAX_HEIGHT,
                h == height,
                ops@ == wiped + shows(now.take(k as int), h),
            decreases kept.len() - k,
        {
            assert(streak_fits(now[k as int], lane as int, h));
            let draws = kept[k].render(height);
            push_puts(ops, &draws);
            proof {
                assert(now.take(k as int + 1).drop_last() =~= now.take(k as int));
                assert(now.take(k as int + 1).last() == now[k as int]);
                assert(ops@ =~= wiped + shows(now.take(k as int + 1), h));
            }
            k += 1;
        }
        assert(now.take(k as int) == now);
        self.streaks = kept;
        assert(self@.streaks == now);
    }
}

} // verus!
