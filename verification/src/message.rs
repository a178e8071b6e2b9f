//! Display cells, messages and the recycling message queue.

use std::collections::VecDeque;
use vstd::prelude::*;
use vstd::string::StringSliceAdditionalSpecFns;

verus! {

/// The code point of the blank cell.
pub const BLANK: u32 = 32;

/// The attribute bits that mark a cell as bold.
pub const BOLD: u32 = 0x20_0000;

/// One printable cell: a code point and the attribute it is drawn with.
#[derive(Clone, Copy, Debug, PartialEq, Eq, Structural)]
pub struct ColorChar {
    pub data: u32,
    pub attr: u32,
}

/// The cells of one message, in display order.
pub type ColorString = Vec<ColorChar>;

impl ColorChar {
    /// A cell holding `data`, drawn with `attr`.
    pub fn new(data: u32, attr: u32) -> (c: ColorChar)
        ensures
            c == (ColorChar { data, attr }),
    {
        ColorChar { data, attr }
    }
}

/// The blank cell: a space with no attribute.
pub open spec fn blank_cell() -> ColorChar {
    ColorChar { data: BLANK, attr: 0 }
}

/// `n` blank cells.
pub open spec fn blanks(n: int) -> Seq<ColorChar> {
    Seq::new(
        if n < 0 {
            0
        } else {
            n as nat
        },
        |i: int| blank_cell(),
    )
}

/// The cells that stand for `bytes`, one cell per byte, all drawn with `attr`.
pub open spec fn cells_of(bytes: Seq<u8>, attr: u32) -> Seq<ColorChar> {
    Seq::new(bytes.len(), |i: int| ColorChar { data: bytes[i] as u32, attr })
}

/// What a message is: who it is and what it shows.
pub ghost struct MessageView {
    pub id: Seq<char>,
    pub contents: Seq<ColorChar>,
}

/// A unit of content: the cells to show, and the identity by which a later
/// message can replace them while the message waits in a queue.
#[derive(Debug)]
pub struct Message {
    pub contents: ColorString,
    pub id: String,
}

impl View for Message {
    type V = MessageView;

    open spec fn view(&self) -> MessageView {
        MessageView { id: self.id@, contents: self.contents@ }
    }
}

/// Appends to `out` one cell per byte of `text`, each drawn with `attr`.
fn push_text(out: &mut ColorString, text: &str, attr: u32)
    ensures
        final(out)@ == old(out)@ + cells_of(text.spec_bytes(), attr),
{
    let bytes = text.as_bytes();
    let mut i: usize = 0;
    while i < bytes.len()
        invariant
            i <= bytes.len(),
            bytes@ == text.spec_bytes(),
            out@ == old(out)@ + cells_of(bytes@.take(i as int), attr),
        decreases bytes.len() - i,
    {
        out.push(ColorChar::new(bytes[i] as u32, attr));
        i += 1;
    }
    assert(bytes@.take(i as int) == bytes@);
}

/// A copy of `cells`.
pub fn copy_cells(cells: &ColorString) -> (out: ColorString)
    ensures
        out@ == cells@,
{
    let mut out: ColorString = Vec::with_capacity(cells.len());
    let mut i: usize = 0;
    while i < cells.len()
        invariant
            i <= cells.len(),
            out@ == cells@.take(i as int),
        decreases cells.len() - i,
    {
        out.push(cells[i]);
        i += 1;
    }
    assert(cells@.take(i as int) == cells@);
    out
}

/// `ncurses::A_BOLD`: the attribute bits of bold text. The crate computes
/// them as 1 shifted left by 13 places and by the 8 more that every
/// attribute is shifted by, which is bit 21.
#[verifier::external_body]
fn bold_bits() -> (bits: u32)
    ensures
        bits == BOLD,
{
    ncurses::A_BOLD()
}

impl Message {
    /// A message showing `contents` under the identity `id`.
    pub fn new(contents: ColorString, id: &str) -> (m: Message)
        ensures
            m@ == (MessageView { id: id@, contents: contents@ }),
    {
        Message { contents, id: id.to_owned() }
    }

    /// A message showing the bytes of `string`, all drawn with `color`.
    pub fn new_simple(string: &str, color: u32, id: &str) -> (m: Message)
        ensures
            m@ == (MessageView { id: id@, contents: cells_of(string.spec_bytes(), color) }),
    {
        let mut contents: ColorString = Vec::with_capacity(string.len());
        push_text(&mut contents, string, color);
        Message::new(contents, id)
    }

    /// A message showing the bytes of `title` in bold, drawn with `color`
    /// and the bold bits together, followed by the bytes of `body`, drawn
    /// with `color` alone.
    pub fn new_with_title(title: &str, body: &str, color: u32, id: &str) -> (m: Message)
        ensures
            m@ == (MessageView {
                id: id@,
                contents: cells_of(title.spec_bytes(), color | BOLD) + cells_of(
                    body.spec_bytes(),
                    color,
                ),
            }),
    {
        let mut contents: ColorString = Vec::new();
        push_text(&mut contents, title, color | bold_bits());
        push_text(&mut contents, body, color);
        Message::new(contents, id)
    }

    /// The number of cells the message shows.
    pub fn len(&self) -> (n: usize)
        ensures
            n == self@.contents.len(),
    {
        self.contents.len()
    }
}

impl Clone for Message {
    fn clone(&self) -> (m: Message)
        ensures
            m@ == self@,
    {
        Message { contents: copy_cells(&self.contents), id: self.id.clone() }
    }
}

/// The views of `messages`, in order.
pub open spec fn views(messages: Seq<Message>) -> Seq<MessageView> {
    Seq::new(messages.len(), |i: int| messages[i]@)
}

/// `i` is the place of the entry of `q` pushed last among those that carry
/// the identity `id`.
pub open spec fn is_last_match(q: Seq<MessageView>, id: Seq<char>, i: int) -> bool {
    &&& 0 <= i < q.len()
    &&& q[i].id == id
    &&& forall|j: int| i < j < q.len() ==> (#[trigger] q[j]).id != id
}

/// Some entry of `q` carries the identity `id`.
pub open spec fn has_id(q: Seq<MessageView>, id: Seq<char>) -> bool {
    exists|i: int| is_last_match(q, id, i)
}

/// The place of the entry of `q` pushed last among those that carry `id`.
pub open spec fn last_match(q: Seq<MessageView>, id: Seq<char>) -> int {
    choose|i: int| is_last_match(q, id, i)
}

/// `q` after an upsert of `m`: the entry pushed last among those with the
/// identity of `m` now shows what `m` shows and keeps its place; where no
/// entry has that identity, `m` stands at the tail.
pub open spec fn upserted(q: Seq<MessageView>, m: MessageView) -> Seq<MessageView> {
    if has_id(q, m.id) {
        q.update(last_match(q, m.id), m)
    } else {
        q.push(m)
    }
}

/// `q` after an upsert of each message of `ms`, in order.
pub open spec fn upserted_all(q: Seq<MessageView>, ms: Seq<MessageView>) -> Seq<MessageView>
    decreases ms.len(),
{
    if ms.len() == 0 {
        q
    } else {
        upserted(upserted_all(q, ms.drop_last()), ms.last())
    }
}

/// `q` after one pop: the front entry has left, and where the queue
/// recycles a copy of it stands at the tail.
pub open spec fn popped(q: Seq<MessageView>, closed: bool) -> Seq<MessageView> {
    if q.len() == 0 {
        q
    } else if closed {
        q.drop_first().push(q[0])
    } else {
        q.drop_first()
    }
}

/// Some entry of `q` shows at least one cell.
pub open spec fn some_cells(q: Seq<MessageView>) -> bool {
    exists|i: int| 0 <= i < q.len() && (#[trigger] q[i]).contents.len() > 0
}

/// Messages waiting to be shown, first in first out. A closed queue
/// recycles: each message popped is queued again behind the others.
pub struct MessageQueue {
    data: VecDeque<Message>,
    closed: bool,
}

impl View for MessageQueue {
    type V = Seq<MessageView>;

    closed spec fn view(&self) -> Seq<MessageView> {
        views(self.data@)
    }
}

impl MessageQueue {
    /// Whether the queue recycles what is popped from it.
    pub closed spec fn is_closed(&self) -> bool {
        self.closed
    }

    /// An empty queue with room for `capacity` messages.
    pub fn new(capacity: usize, closed: bool) -> (q: MessageQueue)
        ensures
            q@ == Seq::<MessageView>::empty(),
            q.is_closed() == closed,
    {
        MessageQueue { data: VecDeque::with_capacity(capacity), closed }
    }

    /// Whether the queue recycles what is popped from it.
    pub fn recycles(&self) -> (b: bool)
        ensures
            b == self.is_closed(),
    {
        self.closed
    }

    /// The number of messages waiting.
    pub fn len(&self) -> (n: usize)
        ensures
            n == self@.len(),
    {
        self.data.len()
    }

    /// The message that the next pop gives, left where it is.
    pub fn front(&self) -> (front: Option<&Message>)
        ensures
            self@.len() == 0 <==> front is None,
            front matches Some(m) ==> m@ == self@[0],
    {
        if self.data.len() == 0 {
            None
        } else {
            Some(&self.data[0])
        }
    }

    /// Whether any waiting message shows at least one cell.
    pub fn has_cells(&self) -> (b: bool)
        ensures
            b == some_cells(self@),
    {
        let mut i: usize = 0;
        while i < self.data.len()
            invariant
                i <= self.data.len(),
                forall|j: int| 0 <= j < i ==> (#[trigger] self@[j]).contents.len() == 0,
            decreases self.data.len() - i,
        {
            if self.data[i].contents.len() > 0 {
                assert(self@[i as int].contents.len() > 0);
                return true;
            }
            i += 1;
        }
        false
    }

    /// Takes the front message. A closed queue puts a copy of it at the
    /// tail first, so such a queue never runs dry once it holds a message.
    pub fn pop(&mut self) -> (front: Option<Message>)
        ensures
            final(self).is_closed() == old(self).is_closed(),
            final(self)@ == popped(old(self)@, old(self).is_closed()),
            old(self)@.len() == 0 <==> front is None,
            front matches Some(m) ==> m@ == old(self)@[0],
    {
        if self.data.len() == 0 {
            return None;
        }
        if self.closed {
            let copy = self.data[0].clone();
            self.data.push_back(copy);
        }
        let ghost held = self.data@;
        let front = self.data.pop_front();
        proof {
            assert(held[0]@ == old(self)@[0]);
            assert forall|i: int| 0 <= i < self@.len() implies self@[i] == popped(
                old(self)@,
                old(self).is_closed(),
            )[i] by {
                assert(self.data@[i] == held[i + 1]);
            }
            assert(self@ =~= popped(old(self)@, old(self).is_closed()));
        }
        front
    }

    /// Puts `message` at the tail.
    pub fn push(&mut self, message: Message)
        ensures
            final(self).is_closed() == old(self).is_closed(),
            final(self)@ == old(self)@.push(message@),
    {
        self.data.push_back(message);
        assert(self@ =~= old(self)@.push(message@));
    }

    /// Replaces what the entry with the identity of `message` shows, or
    /// queues `message` where no entry has that identity. Of several such
    /// entries the one pushed last is replaced.
    pub fn push_update(&mut self, message: Message)
        ensures
            final(self).is_closed() == old(self).is_closed(),
            final(self)@ == upserted(old(self)@, message@),
    {
        let mut i: usize = self.data.len();
        while i > 0
            invariant
                i <= self.data.len(),
                *self == *old(self),
                forall|j: int| i <= j < self@.len() ==> (#[trigger] self@[j]).id != message@.id,
            decreases i,
        {
            i -= 1;
            if self.data[i].id == message.id {
                assert(is_last_match(self@, message@.id, i as int));
                let entry = self.data.remove(i);
                match entry {
                    Some(found) => {
                        let renewed = Message { contents: message.contents, id: found.id };
                        self.data.insert(i, renewed);
                    },
                    None => {},
                }
                assert(self@ =~= old(self)@.update(i as int, message@));
                return ;
            }
        }
        assert(!has_id(self@, message@.id));
        self.push(message);
    }

    /// Puts each of `messages` at the tail, in order.
    pub fn append(&mut self, messages: Vec<Message>)
        ensures
            final(self).is_closed() == old(self).is_closed(),
            final(self)@ == old(self)@ + views(messages@),
    {
        let ghost all = messages@;
        for m in it: messages
            invariant
                it.seq() == all,
                self.is_closed() == old(self).is_closed(),
                self@ == old(self)@ + views(all.take(it.index() as int)),
        {
            self.push(m);
            assert(self@ =~= old(self)@ + views(all.take(it.index() + 1)));
        }
        assert(all.take(all.len() as int) == all);
    }

    /// Upserts each of `messages`, in order.
    pub fn append_update(&mut self, messages: Vec<Message>)
        ensures
            final(self).is_closed() == old(self).is_closed(),
            final(self)@ == upserted_all(old(self)@, views(messages@)),
    {
        let ghost all = messages@;
        for m in it: messages
            invariant
                it.seq() == all,
                self.is_closed() == old(self).is_closed(),
                self@ == upserted_all(old(self)@, views(all.take(it.index() as int))),
        {
            self.push_update(m);
            proof {
                let next = views(all.take(it.index() + 1));
                assert(next.drop_last() =~= views(all.take(it.index() as int)));
                assert(next.last() == m@);
            }
        }
        assert(all.take(all.len() as int) == all);
    }

    /// Takes every waiting message out, in order.
    pub fn drain(&mut self) -> (out: Vec<Message>)
        ensures
            final(self).is_closed() == old(self).is_closed(),
            final(self)@ == Seq::<MessageView>::empty(),
            views(out@) == old(self)@,
    {
        let mut out: Vec<Message> = Vec::new();
        while self.data.len() > 0
            invariant
                self.is_closed() == old(self).is_closed(),
                views(out@) + self@ == old(self)@,
            decreases self.data.len(),
        {
            let ghost before = self@;
            let ghost taken = views(out@);
            match self.data.pop_front() {
                Some(m) => {
                    out.push(m);
                    assert(views(out@) =~= taken.push(before[0]));
                    assert(self@ =~= before.drop_first());
                    assert(views(out@) + self@ =~= taken + before);
                },
                None => {},
            }
        }
        assert(views(out@) + self@ =~= views(out@));
        out
    }
}

/// `q` after `k` pops.
pub open spec fn popped_times(q: Seq<MessageView>, closed: bool, k: nat) -> Seq<MessageView>
    decreases k,
{
    if k == 0 {
        q
    } else {
        popped(popped_times(q, closed, (k - 1) as nat), closed)
    }
}

/// `q` after a push of each message of `ms`, in order.
pub open spec fn pushed_all(q: Seq<MessageView>, ms: Seq<MessageView>) -> Seq<MessageView>
    decreases ms.len(),
{
    if ms.len() == 0 {
        q
    } else {
        pushed_all(q, ms.drop_last()).push(ms.last())
    }
}

/// Pushes queue the messages behind what is there, in the order pushed.
pub proof fn law_pushes_queue_in_order(q: Seq<MessageView>, ms: Seq<MessageView>)
    ensures
        pushed_all(q, ms) == q + ms,
    decreases ms.len(),
{
    if ms.len() == 0 {
        assert(q + ms =~= q);
    } else {
        law_pushes_queue_in_order(q, ms.drop_last());
        assert((q + ms.drop_last()).push(ms.last()) =~= q + ms);
    }
}

/// First in, first out, each once: after the messages `ms` were pushed on
/// an empty queue that does not recycle, the pop that follows `k` pops
/// gives `ms[k]` and leaves what was pushed after it, as long as `k` is
/// below the number pushed; after as many pops as pushes nothing is left,
/// and nothing comes back.
pub proof fn law_fifo(ms: Seq<MessageView>, k: nat)
    ensures
        k < ms.len() ==> popped_times(pushed_all(Seq::empty(), ms), false, k).len() > 0
            && popped_times(pushed_all(Seq::empty(), ms), false, k)[0] == ms[k as int],
        k <= ms.len() ==> popped_times(pushed_all(Seq::empty(), ms), false, k) == ms.skip(
            k as int,
        ),
        k >= ms.len() ==> popped_times(pushed_all(Seq::empty(), ms), false, k).len() == 0,
    decreases k,
{
    law_pushes_queue_in_order(Seq::empty(), ms);
    assert(Seq::<MessageView>::empty() + ms =~= ms);
    if k == 0 {
        assert(ms.skip(0) =~= ms);
    } else {
        law_fifo(ms, (k - 1) as nat);
        if k <= ms.len() {
            assert(ms.skip(k - 1).drop_first() =~= ms.skip(k as int));
        }
    }
}

/// `j` pops after `i` pops are `i + j` pops.
pub proof fn law_pops_add_up(q: Seq<MessageView>, closed: bool, i: nat, j: nat)
    ensures
        popped_times(popped_times(q, closed, i), closed, j) == popped_times(q, closed, i + j),
    decreases j,
{
    if j > 0 {
        law_pops_add_up(q, closed, i, (j - 1) as nat);
    }
}

/// A queue that recycles never runs dry: however often it is popped, it
/// holds as many messages as before, and a queue of one message holds
/// that message for ever.
pub proof fn law_closed_queue_never_runs_dry(q: Seq<MessageView>, k: nat)
    ensures
        popped_times(q, true, k).len() == q.len(),
        q.len() == 1 ==> popped_times(q, true, k) == q,
    decreases k,
{
    if k > 0 {
        law_closed_queue_never_runs_dry(q, (k - 1) as nat);
        if q.len() == 1 {
            assert(popped(q, true) =~= q);
        }
    }
}

/// An identity is in the queue exactly where some entry carries it.
pub proof fn law_has_id(q: Seq<MessageView>, id: Seq<char>)
    ensures
        has_id(q, id) <==> exists|i: int| 0 <= i < q.len() && (#[trigger] q[i]).id == id,
    decreases q.len(),
{
    if exists|i: int| 0 <= i < q.len() && (#[trigger] q[i]).id == id {
        if q.last().id == id {
            assert(is_last_match(q, id, q.len() - 1));
        } else {
            let i = choose|i: int| 0 <= i < q.len() && (#[trigger] q[i]).id == id;
            let front = q.drop_last();
            assert(front[i].id == id);
            law_has_id(front, id);
            let j = choose|j: int| is_last_match(front, id, j);
            assert forall|k: int| j < k < q.len() implies (#[trigger] q[k]).id != id by {
                if k < front.len() {
                    assert(front[k].id != id);
                }
            }
            assert(is_last_match(q, id, j));
        }
    }
}

/// An upsert supersedes a push of the same identity made just before it:
/// the queue is as if the later message had been pushed in place of the
/// earlier one.
pub proof fn law_update_supersedes_push(q: Seq<MessageView>, m1: MessageView, m2: MessageView)
    requires
        m1.id == m2.id,
    ensures
        upserted(q.push(m1), m2) == q.push(m2),
{
    let pushed = q.push(m1);
    assert(is_last_match(pushed, m2.id, q.len() as int));
    let i = last_match(pushed, m2.id);
    assert(i == q.len()) by {
        if i < q.len() {
            assert(pushed[q.len() as int].id != m2.id);
        }
    }
    assert(pushed.update(i, m2) =~= q.push(m2));
}

/// An upsert of a message whose identity is in the queue changes neither
/// the length of the queue nor the place or identity of any entry: the
/// entry pushed last among those of that identity shows what the message
/// shows, and every other entry is as it was. An upsert of a message whose
/// identity is not in the queue puts the message at the tail.
pub proof fn law_upsert(q: Seq<MessageView>, m: MessageView)
    ensures
        has_id(q, m.id) ==> {
            &&& upserted(q, m).len() == q.len()
            &&& is_last_match(q, m.id, last_match(q, m.id))
            &&& upserted(q, m)[last_match(q, m.id)] == m
            &&& forall|i: int|
                0 <= i < q.len() ==> (#[trigger] upserted(q, m)[i]).id == q[i].id
            &&& forall|i: int|
                0 <= i < q.len() && i != last_match(q, m.id) ==> #[trigger] upserted(q, m)[i]
                    == q[i]
        },
        !has_id(q, m.id) ==> upserted(q, m) == q.push(m),
{
}

} // verus!
