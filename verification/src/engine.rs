//! The animation engine: the grid of lanes, the queue that feeds them, and
//! the commands that drive them. The engine decides; whoever owns the
//! terminal and the clock hands it what arrived and the time, and does on
//! the terminal what the engine answers.

use crate::column::{
    all_fit, lane_step, law_lane_step, shows, wipes, Column, ColumnView, ScreenOp, MAX_HEIGHT,
};
use crate::message::{
    law_pops_add_up, popped_times, upserted, upserted_all, views, Message, MessageQueue,
    MessageView,
};
use crate::roll::RollSource;
use vstd::prelude::*;

verus! {

/// A command for the engine.
#[derive(Debug)]
pub enum ThreadMsg {
    /// Give the terminal back and stop.
    Kill,
    /// Begin to animate.
    Start,
    /// Queue a message.
    Push(Message),
    /// Replace the queued message of the same identity, or queue this one.
    PushUpdate(Message),
    /// Queue messages, in order.
    Append(Vec<Message>),
    /// Upsert messages, in order.
    AppendUpdate(Vec<Message>),
    /// Register the color pair `.0` as the color `.1` on the color `.2`.
    ColorPair(i16, i16, i16),
}

/// What a handle sends for a command it is asked to pass on: the command
/// while the engine is alive, and nothing once the engine has ended. A
/// program may go on calling after the user has quit; its commands are
/// then dropped in silence.
pub fn outgoing(alive: bool, msg: ThreadMsg) -> (sent: Option<ThreadMsg>)
    ensures
        alive ==> sent == Some(msg),
        !alive ==> sent is None,
{
    if alive {
        Some(msg)
    } else {
        None
    }
}

/// What a look at the command channel gave.
#[derive(Debug)]
pub enum Received {
    /// No command waits.
    Empty,
    /// Every sender is gone.
    Disconnected,
    /// The next command.
    Message(ThreadMsg),
}

/// What a look at the keyboard gave.
#[derive(Clone, Copy, Debug, PartialEq, Eq, Structural)]
pub enum Key {
    /// No key waits.
    Nothing,
    /// A character key.
    Character(char),
    /// The delete key.
    Delete,
    /// The terminal has a new size.
    Resize,
    /// Any other input.
    Other,
}

/// What the loop around the engine is to do about a key.
#[derive(Clone, Copy, Debug, PartialEq, Eq, Structural)]
pub enum KeyAction {
    /// Go on.
    GoOn,
    /// End the engine, give the terminal back, and stop.
    Quit,
    /// Stop as things are.
    Stop,
    /// Ask the terminal for its size and hand it to the engine.
    Resize,
    /// Fail: the key is one that the loop has no answer to.
    Fail,
}

/// The character that quits the animation.
pub const QUIT_KEY: char = 'q';

/// What the loop is to do about `key`: the quit key quits, the delete key
/// stops, a new size is taken, other characters and no key at all change
/// nothing, and any other input is a failure.
pub open spec fn key_meaning(key: Key) -> KeyAction {
    match key {
        Key::Nothing => KeyAction::GoOn,
        Key::Character(c) => if c == QUIT_KEY {
            KeyAction::Quit
        } else {
            KeyAction::GoOn
        },
        Key::Delete => KeyAction::Stop,
        Key::Resize => KeyAction::Resize,
        Key::Other => KeyAction::Fail,
    }
}

/// What the loop around the engine is to do about `key`.
pub fn key_action(key: Key) -> (action: KeyAction)
    ensures
        action == key_meaning(key),
{
    match key {
        Key::Nothing => KeyAction::GoOn,
        Key::Character(c) => if c == QUIT_KEY {
            KeyAction::Quit
        } else {
            KeyAction::GoOn
        },
        Key::Delete => KeyAction::Stop,
        Key::Resize => KeyAction::Resize,
        Key::Other => KeyAction::Fail,
    }
}

/// Where the engine stands in its life.
#[derive(Clone, Copy, Debug, PartialEq, Eq, Structural)]
pub enum Phase {
    /// Made, not yet started: commands are taken, nothing moves.
    Uninitialized,
    /// Started: the streaks move when a tick is due.
    Running,
    /// The terminal is given back; nothing happens any more.
    Terminated,
}

/// What the engine answers to one look at the channel.
#[derive(Debug)]
pub struct Turn {
    /// What the terminal is to do, in order.
    pub ops: Vec<ScreenOp>,
    /// Whether the loop around the engine goes on.
    pub running: bool,
}

/// What an engine is.
pub ghost struct SceneView {
    /// The lanes, left to right.
    pub columns: Seq<ColumnView>,
    /// The rows of the screen.
    pub height: int,
    /// The messages waiting.
    pub queue: Seq<MessageView>,
    /// Whether the queue recycles.
    pub closed: bool,
    /// The bound on the blanks between two messages of a streak.
    pub max_padding: int,
    /// Where the engine stands in its life.
    pub phase: Phase,
    /// The time from one tick to the next.
    pub speed: int,
    /// The time of the last tick, or of the start.
    pub last_updated: int,
    /// The attribute of the blanks that wipe behind a streak.
    pub wipe: u32,
}

/// The engine can tick: its screen has a row and is no taller than
/// `MAX_HEIGHT`, and each streak fits its lane.
pub open spec fn scene_wf(v: SceneView) -> bool {
    &&& 1 <= v.height <= MAX_HEIGHT
    &&& 0 <= v.max_padding <= i32::MAX
    &&& v.columns.len() <= i32::MAX
    &&& forall|i: int|
        0 <= i < v.columns.len() ==> all_fit((#[trigger] v.columns[i]).streaks, i, v.height)
}

/// How many lanes of `columns` never had a streak.
pub open spec fn untouched_count(columns: Seq<ColumnView>) -> nat
    decreases columns.len(),
{
    if columns.len() == 0 {
        0
    } else {
        untouched_count(columns.drop_last()) + if columns.last().touched {
            0nat
        } else {
            1nat
        }
    }
}

/// `width` lanes that never had a streak.
pub open spec fn fresh_columns(width: int) -> Seq<ColumnView> {
    Seq::new(
        if width < 0 {
            0
        } else {
            width as nat
        },
        |i: int| ColumnView { streaks: Seq::empty(), touched: false },
    )
}

/// What one tick tells the terminal: lane by lane, the blanks that wipe
/// behind the streaks of `before`, then what the streaks of `after` show.
pub open spec fn frame_ops(
    before: Seq<ColumnView>,
    after: Seq<ColumnView>,
    wipe: u32,
    h: int,
) -> Seq<ScreenOp>
    decreases before.len(),
{
    if before.len() == 0 || after.len() != before.len() {
        Seq::empty()
    } else {
        frame_ops(before.drop_last(), after.drop_last(), wipe, h) + wipes(
            before.last().streaks,
            wipe,
        ) + shows(after.last().streaks, h)
    }
}

/// One tick takes the engine from `before` to `after`, the queue being
/// `qs[i]`, and the numbers that the source of rolls has given `gs[i]`, as
/// the tick reaches lane `i`: each lane takes its step, in order, and hands
/// the queue and the source on to the next; nothing but the lanes and the
/// queue changes.
pub open spec fn tick_outcome(
    before: SceneView,
    after: SceneView,
    qs: Seq<Seq<MessageView>>,
    gs: Seq<Seq<int>>,
) -> bool {
    &&& after == (SceneView { columns: after.columns, queue: after.queue, ..before })
    &&& after.columns.len() == before.columns.len()
    &&& qs.len() == before.columns.len() + 1
    &&& gs.len() == before.columns.len() + 1
    &&& qs[0] == before.queue
    &&& qs.last() == after.queue
    &&& forall|i: int|
        0 <= i < before.columns.len() ==> lane_step(
            #[trigger] before.columns[i],
            after.columns[i],
            qs[i],
            qs[i + 1],
            before.closed,
            i,
            before.height,
            before.max_padding,
            untouched_count(before.columns) as int,
            gs[i],
            gs[i + 1],
        )
}

/// A tick that takes the engine from `before` to `after` while the numbers
/// that the source of rolls has given grow from `given_before` to
/// `given_after`.
pub open spec fn ticked(
    before: SceneView,
    after: SceneView,
    given_before: Seq<int>,
    given_after: Seq<int>,
) -> bool {
    exists|qs: Seq<Seq<MessageView>>, gs: Seq<Seq<int>>|
        #![trigger tick_outcome(before, after, qs, gs)]
        tick_outcome(before, after, qs, gs) && gs[0] == given_before && gs.last() == given_after
}

/// The engine `v` once it has taken what the channel gave at the time
/// `now`, before any tick.
pub open spec fn commanded(v: SceneView, received: Received, now: int) -> SceneView {
    match received {
        Received::Empty => v,
        Received::Disconnected => SceneView { phase: Phase::Terminated, ..v },
        Received::Message(msg) => match msg {
            ThreadMsg::Kill => SceneView { phase: Phase::Terminated, ..v },
            ThreadMsg::Start => SceneView { phase: Phase::Running, last_updated: now, ..v },
            ThreadMsg::Push(m) => SceneView { queue: v.queue.push(m@), ..v },
            ThreadMsg::PushUpdate(m) => SceneView { queue: upserted(v.queue, m@), ..v },
            ThreadMsg::Append(ms) => SceneView { queue: v.queue + views(ms@), ..v },
            ThreadMsg::AppendUpdate(ms) => SceneView {
                queue: upserted_all(v.queue, views(ms@)),
                ..v
            },
            ThreadMsg::ColorPair(_, _, _) => v,
        },
    }
}

/// What the terminal is to do for what the channel gave.
pub open spec fn command_ops(received: Received) -> Seq<ScreenOp> {
    match received {
        Received::Disconnected => seq![ScreenOp::EndWin],
        Received::Message(ThreadMsg::Kill) => seq![ScreenOp::EndWin],
        Received::Message(ThreadMsg::Start) => seq![ScreenOp::Refresh],
        Received::Message(ThreadMsg::ColorPair(pair, fg, bg)) => seq![
            ScreenOp::InitPair { pair, fg, bg },
        ],
        _ => Seq::empty(),
    }
}

/// A tick is due at the time `now`: the engine runs, and since its last
/// tick at least the time between two ticks has passed.
pub open spec fn tick_due(v: SceneView, now: int) -> bool {
    &&& v.phase == Phase::Running
    &&& v.speed <= if now >= v.last_updated {
        now - v.last_updated
    } else {
        0
    }
}

/// The engine `before`, given `received` at the time `now`, becomes
/// `after` and answers `ops` and `running`, while the numbers that the
/// source of rolls has given go from `given_before` to `given_after`.
///
/// A terminated engine stays as it is and answers nothing. Else the
/// command is taken first. `Kill`, or a channel without senders, ends the
/// engine. Else the loop goes on, and where a tick is due after the
/// command, the engine notes the time and ticks. Only a tick draws
/// numbers.
pub open spec fn update_outcome(
    before: SceneView,
    received: Received,
    now: int,
    after: SceneView,
    ops: Seq<ScreenOp>,
    running: bool,
    given_before: Seq<int>,
    given_after: Seq<int>,
) -> bool {
    let mid = commanded(before, received, now);
    let ready = SceneView { last_updated: now, ..mid };
    if before.phase == Phase::Terminated {
        &&& after == before
        &&& ops == Seq::<ScreenOp>::empty()
        &&& !running
        &&& given_after == given_before
    } else if mid.phase == Phase::Terminated {
        &&& after == mid
        &&& ops == command_ops(received)
        &&& !running
        &&& given_after == given_before
    } else if tick_due(mid, now) {
        &&& running
        &&& ticked(ready, after, given_before, given_after)
        &&& ops == command_ops(received) + frame_ops(
            ready.columns,
            after.columns,
            ready.wipe,
            ready.height,
        ).push(ScreenOp::Refresh)
    } else {
        &&& after == mid
        &&& ops == command_ops(received)
        &&& running
        &&& given_after == given_before
    }
}

/// As a tick reaches lane `i`, the queue is as some number of pops have
/// left it.
proof fn lemma_tick_pops(
    before: SceneView,
    after: SceneView,
    qs: Seq<Seq<MessageView>>,
    gs: Seq<Seq<int>>,
    i: int,
)
    requires
        scene_wf(before),
        tick_outcome(before, after, qs, gs),
        0 <= i <= before.columns.len(),
    ensures
        exists|k: nat| qs[i] == popped_times(before.queue, before.closed, k),
    decreases i,
{
    if i == 0 {
        assert(qs[0] == popped_times(before.queue, before.closed, 0));
    } else {
        lemma_tick_pops(before, after, qs, gs, i - 1);
        let q_then = qs[i - 1];
        let q_next = qs[i];
        let k = choose|k: nat| q_then == popped_times(before.queue, before.closed, k);
        assert(all_fit((#[trigger] before.columns[i - 1]).streaks, i - 1, before.height));
        law_lane_step(
            before.columns[i - 1],
            after.columns[i - 1],
            qs[i - 1],
            qs[i - 1 + 1],
            before.closed,
            i - 1,
            before.height,
            before.max_padding,
            untouched_count(before.columns) as int,
            gs[i - 1],
            gs[i - 1 + 1],
        );
        let j = choose|j: nat| q_next == popped_times(q_then, before.closed, j);
        law_pops_add_up(before.queue, before.closed, k, j);
    }
}

/// A tick leaves an engine that can tick again: each streak has a cell for
/// each row of the screen and has not left it. A lane that had a streak
/// stays touched, and the queue is left as some number of pops leave it.
pub proof fn law_tick(
    before: SceneView,
    after: SceneView,
    qs: Seq<Seq<MessageView>>,
    gs: Seq<Seq<int>>,
)
    requires
        scene_wf(before),
        tick_outcome(before, after, qs, gs),
    ensures
        scene_wf(after),
        forall|i: int|
            0 <= i < before.columns.len() && (#[trigger] before.columns[i]).touched
                ==> after.columns[i].touched,
        exists|k: nat| after.queue == popped_times(before.queue, before.closed, k),
{
    assert forall|i: int| 0 <= i < before.columns.len() implies all_fit(
        (#[trigger] after.columns[i]).streaks,
        i,
        before.height,
    ) && (before.columns[i].touched ==> after.columns[i].touched) by {
        assert(all_fit((#[trigger] before.columns[i]).streaks, i, before.height));
        law_lane_step(
            before.columns[i],
            after.columns[i],
            qs[i],
            qs[i + 1],
            before.closed,
            i,
            before.height,
            before.max_padding,
            untouched_count(before.columns) as int,
            gs[i],
            gs[i + 1],
        );
    }
    lemma_tick_pops(before, after, qs, gs, before.columns.len() as int);
}

/// Once the engine has ended nothing is taken any more: whatever is given
/// to an engine that took `Kill`, or found its channel without senders,
/// the engine stays as it is, answers nothing for the terminal, and tells
/// the loop to stop.
pub proof fn law_nothing_after_the_end(
    before: SceneView,
    end: Received,
    ended_at: int,
    ended: SceneView,
    end_ops: Seq<ScreenOp>,
    end_running: bool,
    later: Received,
    now: int,
    after: SceneView,
    ops: Seq<ScreenOp>,
    running: bool,
    given: Seq<Seq<int>>,
)
    requires
        end == Received::Disconnected || end == Received::Message(ThreadMsg::Kill),
        given.len() == 3,
        update_outcome(before, end, ended_at, ended, end_ops, end_running, given[0], given[1]),
        update_outcome(ended, later, now, after, ops, running, given[1], given[2]),
    ensures
        ended.phase == Phase::Terminated,
        !end_running,
        after == ended,
        ops == Seq::<ScreenOp>::empty(),
        !running,
        given[2] == given[0],
{
}

/// An update sent after a push of the same identity, before any tick,
/// supersedes it: the queue is as if the later message had been pushed in
/// place of the earlier one, at the same place.
pub proof fn law_update_after_push(v: SceneView, m1: Message, m2: Message, t1: int, t2: int)
    requires
        m1@.id == m2@.id,
    ensures
        commanded(
            commanded(v, Received::Message(ThreadMsg::Push(m1)), t1),
            Received::Message(ThreadMsg::PushUpdate(m2)),
            t2,
        ).queue == v.queue.push(m2@),
{
    crate::message::law_update_supersedes_push(v.queue, m1@, m2@);
}

/// The views of `columns`, in order.
pub open spec fn column_views(columns: Seq<Column>) -> Seq<ColumnView> {
    Seq::new(columns.len(), |i: int| columns[i]@)
}

/// A lane that never had a streak is counted among the untouched.
proof fn lemma_untouched_counted(columns: Seq<ColumnView>, i: int)
    requires
        0 <= i < columns.len(),
        !columns[i].touched,
    ensures
        untouched_count(columns) >= 1,
    decreases columns.len(),
{
    if i < columns.len() - 1 {
        lemma_untouched_counted(columns.drop_last(), i);
    }
}

/// The engine: the side of the animation that owns the lanes and the queue.
pub struct ForkedScene {
    columns: Vec<Column>,
    height: i32,
    queue: MessageQueue,
    max_padding: i32,
    phase: Phase,
    speed: u128,
    last_updated: u128,
    wipe: u32,
}

impl View for ForkedScene {
    type V = SceneView;

    closed spec fn view(&self) -> SceneView {
        SceneView {
            columns: column_views(self.columns@),
            height: self.height as int,
            queue: self.queue@,
            closed: self.queue.is_closed(),
            max_padding: self.max_padding as int,
            phase: self.phase,
            speed: self.speed as int,
            last_updated: self.last_updated as int,
            wipe: self.wipe,
        }
    }
}

/// `width` lanes that never had a streak.
fn make_columns(width: i32) -> (columns: Vec<Column>)
    requires
        0 <= width,
    ensures
        column_views(columns@) == fresh_columns(width as int),
{
    let mut columns: Vec<Column> = Vec::with_capacity(width as usize);
    let mut i: i32 = 0;
    while i < width
        invariant
            0 <= i <= width,
            column_views(columns@) == fresh_columns(i as int),
        decreases width - i,
    {
        let ghost earlier = column_views(columns@);
        let column = Column::new();
        columns.push(column);
        i += 1;
        assert(column_views(columns@) =~= earlier.push(column@));
    }
    columns
}

impl ForkedScene {
    /// The engine can tick: see `scene_wf`.
    pub open spec fn wf(&self) -> bool {
        scene_wf(self@)
    }

    /// An engine for a screen of `height` rows and `width` lanes, made at
    /// the time `now`: not yet started, with an empty queue that recycles
    /// if `is_closed`, and no streak in any lane. A tick is due `speed`
    /// after the last; `wipe` is the attribute of the blanks that wipe
    /// behind a streak.
    pub fn new(
        max_padding: i32,
        wipe: u32,
        is_closed: bool,
        speed: u128,
        now: u128,
        height: i32,
        width: i32,
    ) -> (scene: ForkedScene)
        requires
            0 <= max_padding,
            1 <= height <= MAX_HEIGHT,
            0 <= width,
        ensures
            scene.wf(),
            scene@ == (SceneView {
                columns: fresh_columns(width as int),
                height: height as int,
                queue: Seq::empty(),
                closed: is_closed,
                max_padding: max_padding as int,
                phase: Phase::Uninitialized,
                speed: speed as int,
                last_updated: now as int,
                wipe,
            }),
    {
        ForkedScene {
            columns: make_columns(width),
            height,
            queue: MessageQueue::new(width as usize, is_closed),
            max_padding,
            phase: Phase::Uninitialized,
            speed,
            last_updated: now,
            wipe,
        }
    }

    /// Where the engine stands in its life.
    pub fn phase(&self) -> (phase: Phase)
        ensures
            phase == self@.phase,
    {
        self.phase
    }

    /// The rows of the screen.
    pub fn height(&self) -> (height: i32)
        ensures
            height == self@.height,
    {
        self.height
    }

    /// The lanes, left to right.
    pub fn columns(&self) -> (columns: &Vec<Column>)
        ensures
            column_views(columns@) == self@.columns,
    {
        &self.columns
    }

    /// The queue of messages waiting.
    pub fn queue(&self) -> (queue: &MessageQueue)
        ensures
            queue@ == self@.queue,
            queue.is_closed() == self@.closed,
    {
        &self.queue
    }

    /// Ends the engine; the terminal is to be given back.
    pub fn kill(&mut self) -> (op: ScreenOp)
        ensures
            op == ScreenOp::EndWin,
            final(self)@ == (SceneView { phase: Phase::Terminated, ..old(self)@ }),
    {
        self.phase = Phase::Terminated;
        ScreenOp::EndWin
    }

    /// Starts the engine at the time `now`; the terminal is to show what
    /// it holds.
    fn start(&mut self, now: u128) -> (op: ScreenOp)
        ensures
            op == ScreenOp::Refresh,
            final(self)@ == (SceneView {
                phase: Phase::Running,
                last_updated: now as int,
                ..old(self)@
            }),
    {
        self.last_updated = now;
        self.phase = Phase::Running;
        ScreenOp::Refresh
    }

    /// One tick: each lane takes its step, in order from the left, and the
    /// terminal is told what to wipe, what to show, and at last to refresh.
    pub fn advance<R: RollSource>(&mut self, rolls: &mut R) -> (ops: Vec<ScreenOp>)
        requires
            old(self).wf(),
        ensures
            final(self).wf(),
            ticked(old(self)@, final(self)@, old(rolls).given(), final(rolls).given()),
            ops@ == frame_ops(
                old(self)@.columns,
                final(self)@.columns,
                old(self)@.wipe,
                old(self)@.height,
            ).push(ScreenOp::Refresh),
    {
        let ghost start = self@;
        let ghost h = self.height as int;
        let untouched = self.untouched();
        let mut ops: Vec<ScreenOp> = Vec::new();
        let mut lanes: Vec<Column> = Vec::new();
        core::mem::swap(&mut self.columns, &mut lanes);
        let ghost all = lanes@;
        let ghost before = column_views(all);
        assert(before == start.columns);
        let mut done: Vec<Column> = Vec::new();
        let ghost mut qs: Seq<Seq<MessageView>> = seq![self.queue@];
        let ghost mut gs: Seq<Seq<int>> = seq![rolls.given()];
        for column in it: lanes
            invariant
                it.seq() == all,
                before == column_views(all),
                before == start.columns,
                scene_wf(start),
                h == start.height == self.height,
                start.max_padding == self.max_padding,
                start.wipe == self.wipe,
                start.phase == self.phase,
                start.speed == self.speed,
                start.last_updated == self.last_updated,
                start.closed == self.queue.is_closed(),
                untouched == untouched_count(before),
                done@.len() == it.index(),
                qs.len() == it.index() + 1,
                qs[0] == start.queue,
                qs.last() == self.queue@,
                gs.len() == it.index() + 1,
                gs[0] == old(rolls).given(),
                gs.last() == rolls.given(),
                forall|i: int|
                    0 <= i < it.index() ==> all_fit(
                        (#[trigger] column_views(done@)[i]).streaks,
                        i,
                        h,
                    ),
                forall|i: int|
                    0 <= i < it.index() ==> lane_step(
                        #[trigger] before[i],
                        column_views(done@)[i],
                        qs[i],
                        qs[i + 1],
                        start.closed,
                        i,
                        h,
                        start.max_padding,
                        untouched as int,
                        gs[i],
                        gs[i + 1],
                    ),
                ops@ == frame_ops(
                    before.take(it.index() as int),
                    column_views(done@),
                    start.wipe,
                    h,
                ),
        {
            let mut column = column;
            let ghost idx = it.index() as int;
            let ghost was = column@;
            let ghost earlier = column_views(done@);
            let ghost earlier_qs = qs;
            let ghost earlier_gs = gs;
            let lane = done.len() as i32;
            proof {
                assert(was == before[idx]);
                assert(all_fit(start.columns[idx].streaks, idx, h));
                if !was.touched {
                    lemma_untouched_counted(before, idx);
                }
            }
            column.tick(
                &mut self.queue,
                rolls,
                lane,
                self.height,
                self.max_padding,
                self.wipe,
                untouched,
                &mut ops,
            );
            proof {
                qs = qs.push(self.queue@);
                gs = gs.push(rolls.given());
            }
            let ghost now = column@;
            done.push(column);
            proof {
                let later = column_views(done@);
                assert(later =~= earlier.push(now));
                assert(later.drop_last() =~= earlier);
                assert(before.take(idx + 1).drop_last() =~= before.take(idx));
                assert(before.take(idx + 1).last() == was);
                assert forall|i: int| 0 <= i < idx + 1 implies lane_step(
                    #[trigger] before[i],
                    later[i],
                    qs[i],
                    qs[i + 1],
                    start.closed,
                    i,
                    h,
                    start.max_padding,
                    untouched as int,
                    gs[i],
                    gs[i + 1],
                ) by {
                    if i < idx {
                        assert(later[i] == earlier[i]);
                        assert(qs[i] == earlier_qs[i]);
                        assert(qs[i + 1] == earlier_qs[i + 1]);
                        assert(gs[i] == earlier_gs[i]);
                        assert(gs[i + 1] == earlier_gs[i + 1]);
                    }
                }
                assert forall|i: int| 0 <= i < idx + 1 implies all_fit(
                    (#[trigger] later[i]).streaks,
                    i,
                    h,
                ) by {
                    if i < idx {
                        assert(later[i] == earlier[i]);
                    }
                }
            }
        }
        assert(before.take(all.len() as int) == before);
        self.columns = done;
        ops.push(ScreenOp::Refresh);
        assert(tick_outcome(start, self@, qs, gs));
        ops
    }

    /// One turn of the loop around the engine: takes what the channel gave
    /// at the time `now`, and ticks where a tick is due. See
    /// `update_outcome`. A running engine cannot be started again.
    pub fn update<R: RollSource>(&mut self, received: Received, now: u128, rolls: &mut R) -> (turn:
        Turn)
        requires
            old(self).wf(),
            received == Received::Message(ThreadMsg::Start) ==> old(self)@.phase
                != Phase::Running,
        ensures
            final(self).wf(),
            update_outcome(
                old(self)@,
                received,
                now as int,
                final(self)@,
                turn.ops@,
                turn.running,
                old(rolls).given(),
                final(rolls).given(),
            ),
    {
        let mut ops: Vec<ScreenOp> = Vec::new();
        if self.phase == Phase::Terminated {
            return Turn { ops, running: false };
        }
        match received {
            Received::Empty => {},
            Received::Disconnected => {
                ops.push(self.kill());
                assert(ops@ =~= command_ops(received));
                return Turn { ops, running: false };
            },
            Received::Message(msg) => match msg {
                ThreadMsg::Kill => {
                    ops.push(self.kill());
                    assert(ops@ =~= command_ops(received));
                    return Turn { ops, running: false };
                },
                ThreadMsg::Start => {
                    ops.push(self.start(now));
                },
                ThreadMsg::Push(message) => {
                    self.queue.push(message);
                },
                ThreadMsg::PushUpdate(message) => {
                    self.queue.push_update(message);
                },
                ThreadMsg::Append(messages) => {
                    self.queue.append(messages);
                },
                ThreadMsg::AppendUpdate(messages) => {
                    self.queue.append_update(messages);
                },
                ThreadMsg::ColorPair(pair, fg, bg) => {
                    ops.push(ScreenOp::InitPair { pair, fg, bg });
                },
            },
        }
        assert(ops@ =~= command_ops(received));
        assert(self@ == commanded(old(self)@, received, now as int));
        let elapsed: u128 = if now >= self.last_updated {
            now - self.last_updated
        } else {
            0
        };
        if self.phase == Phase::Running && elapsed >= self.speed {
            self.last_updated = now;
            let mut frame = self.advance(rolls);
            ops.append(&mut frame);
        }
        Turn { ops, running: true }
    }

    /// Takes the new size of the screen: `height` rows and `width` lanes.
    /// Every streak is dropped and each lane is as if it never had one; the
    /// queue keeps what it holds. The terminal is to take the size, wipe
    /// the screen and refresh.
    pub fn resize(&mut self, height: i32, width: i32) -> (ops: Vec<ScreenOp>)
        requires
            old(self).wf(),
            1 <= height <= MAX_HEIGHT,
            0 <= width,
        ensures
            final(self).wf(),
            final(self)@ == (SceneView {
                columns: fresh_columns(width as int),
                height: height as int,
                ..old(self)@
            }),
            ops@ == seq![ScreenOp::ResizeTerm { height, width }, ScreenOp::Erase, ScreenOp::Refresh],
    {
        self.height = height;
        let mut ops: Vec<ScreenOp> = Vec::new();
        ops.push(ScreenOp::ResizeTerm { height, width });
        ops.push(ScreenOp::Erase);
        ops.push(ScreenOp::Refresh);
        let drained = self.queue.drain();
        self.queue.append(drained);
        assert(self.queue@ =~= old(self)@.queue);
        self.columns = make_columns(width);
        ops
    }

    /// How many lanes never had a streak.
    fn untouched(&self) -> (n: usize)
        ensures
            n == untouched_count(self@.columns),
    {
        let mut n: usize = 0;
        let mut i: usize = 0;
        while i < self.columns.len()
            invariant
                i <= self.columns.len(),
                n == untouched_count(self@.columns.take(i as int)),
                n <= i,
            decreases self.columns.len() - i,
        {
            assert(self@.columns.take(i as int + 1).drop_last() =~= self@.columns.take(i as int));
            if !self.columns[i].touched() {
                n += 1;
            }
            i += 1;
        }
        assert(self@.columns.take(i as int) == self@.columns);
        n
    }
}

} // verus!
