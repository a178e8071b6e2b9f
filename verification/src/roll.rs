//! Where the animation gets its chance from.

use rand::Rng;
use vstd::prelude::*;

verus! {

/// A source of whole numbers drawn from a range. The engine and the streaks
/// take every random decision from one, so that a run can be replayed.
pub trait RollSource {
    /// The numbers that the source has given so far, in the order given.
    spec fn given(&self) -> Seq<int>;

    /// A number in `low..high`. It is the last of the numbers given.
    fn roll(&mut self, low: i128, high: i128) -> (r: i128)
        requires
            low < high,
        ensures
            low <= r < high,
            final(self).given() == old(self).given().push(r as int),
    ;
}

/// `rand::rngs::ThreadRng`: the handle on a thread's random generator,
/// carried as it is.
#[verifier::external_type_specification]
#[verifier::external_body]
pub struct ExThreadRng(rand::rngs::ThreadRng);

/// `rand::thread_rng`: the calling thread's generator. Nothing is claimed
/// of it.
pub assume_specification[ rand::thread_rng ]() -> (rng: rand::rngs::ThreadRng)
;

/// `rand::Rng::gen_range` on the thread's generator: the number drawn lies
/// in `low..high`. The call panics on an empty range, which `requires`
/// leaves out.
#[verifier::external_body]
fn thread_range(rng: &mut rand::rngs::ThreadRng, low: i128, high: i128) -> (r: i128)
    requires
        low < high,
    ensures
        low <= r < high,
{
    rng.gen_range(low, high)
}

/// The source that draws from the calling thread's random generator.
pub struct ThreadRolls {
    rng: rand::rngs::ThreadRng,
    given: Ghost<Seq<int>>,
}

impl ThreadRolls {
    /// A source on the calling thread's generator, which has given no
    /// number yet. Nothing is known of the generator but that it is there.
    pub fn new() -> (rolls: ThreadRolls)
        ensures
            rolls.given() == Seq::<int>::empty(),
    {
        ThreadRolls { rng: rand::thread_rng(), given: Ghost(Seq::empty()) }
    }
}

impl RollSource for ThreadRolls {
    closed spec fn given(&self) -> Seq<int> {
        self.given@
    }

    /// A number in `low..high` as the thread's generator draws it. Which
    /// one is chance: of the number only its range is known.
    fn roll(&mut self, low: i128, high: i128) -> (r: i128) {
        let r = thread_range(&mut self.rng, low, high);
        self.given = Ghost(self.given@.push(r as int));
        r
    }
}

/// What a scripted source answers to a request for a number in
/// `low..high` when `wish` is the next number of its script: the wish where
/// it lies in the range, else `low`.
pub open spec fn granted(wish: int, low: int, high: int) -> int {
    if low <= wish < high {
        wish
    } else {
        low
    }
}

/// What a scripted source answers to a request for a number in
/// `low..high` when `pending` is what is left of its script: what the next
/// number of the script grants, and `low` once the script has run out.
pub open spec fn answer(pending: Seq<i128>, low: int, high: int) -> int {
    if pending.len() == 0 {
        low
    } else {
        granted(pending[0] as int, low, high)
    }
}

/// What is left of a script of which `pending` was left, after one more
/// request: the next number is used up.
pub open spec fn rest(pending: Seq<i128>) -> Seq<i128> {
    if pending.len() == 0 {
        pending
    } else {
        pending.drop_first()
    }
}

/// A source that plays back a script: each request is answered with the
/// next number of the script where that lies in the range asked for, and
/// with the low end of the range where it does not or the script has run
/// out.
pub struct ScriptedRolls {
    script: Vec<i128>,
    next: usize,
    given: Ghost<Seq<int>>,
}

impl ScriptedRolls {
    /// The numbers of the script not yet played.
    pub closed spec fn pending(&self) -> Seq<i128> {
        if self.next <= self.script@.len() {
            self.script@.skip(self.next as int)
        } else {
            Seq::empty()
        }
    }

    /// A source that will play `script` from its start, and has given no
    /// number yet.
    pub fn new(script: Vec<i128>) -> (rolls: ScriptedRolls)
        ensures
            rolls.pending() == script@,
            rolls.given() == Seq::<int>::empty(),
    {
        ScriptedRolls { script, next: 0, given: Ghost(Seq::empty()) }
    }

    /// A number in `low..high`, taken from the script as far as it goes.
    pub fn draw(&mut self, low: i128, high: i128) -> (r: i128)
        requires
            low < high,
        ensures
            low <= r < high,
            r == answer(old(self).pending(), low as int, high as int),
            final(self).pending() == rest(old(self).pending()),
            final(self).given() == old(self).given().push(r as int),
    {
        let r = if self.next < self.script.len() {
            let wish = self.script[self.next];
            self.next += 1;
            assert(self.pending() =~= old(self).pending().drop_first());
            if low <= wish && wish < high {
                wish
            } else {
                low
            }
        } else {
            low
        };
        self.given = Ghost(self.given@.push(r as int));
        r
    }
}

impl RollSource for ScriptedRolls {
    closed spec fn given(&self) -> Seq<int> {
        self.given@
    }

    /// A number in `low..high`, taken from the script as far as it goes:
    /// what `draw` gives.
    fn roll(&mut self, low: i128, high: i128) -> (r: i128)
        ensures
            r == answer(old(self).pending(), low as int, high as int),
            final(self).pending() == rest(old(self).pending()),
    {
        self.draw(low, high)
    }
}

} // verus!
