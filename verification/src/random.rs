//! The source of randomness that grid construction draws from.
//!
//! A [`RandomSource`] hands out a bounded number of draws. Every loop in this
//! crate that waits for a lucky draw spends at least one draw per turn, so it
//! ends on every source: either with its result or because the source ran dry.
//!
//! In contracts a source is described by three things: the draws it has
//! answered so far (`drawn`), how many draws it has left (`remaining`), and,
//! for a fixed sequence, the values still to be replayed (`script`). What a
//! function of this crate returns is stated in terms of the draws it made: a
//! [`Draw`] records what was asked for and what came back.

use vstd::prelude::*;

verus! {

/// `rand::rngs::ThreadRng`, the handle to rand's thread-local generator.
/// Nothing inside it is visible to the verifier.
#[verifier::external_type_specification]
#[verifier::external_body]
pub struct ExThreadRng(rand::rngs::ThreadRng);

/// Calls `rand::thread_rng`, which hands back a handle to the calling
/// thread's generator, seeded by the operating system. Nothing is claimed
/// about the handle.
#[verifier::external_body]
fn thread_generator() -> rand::rngs::ThreadRng {
    rand::thread_rng()
}

/// Calls `rand::Rng::gen_range` with the half-open range `0..bound`.
/// rand documents that the value lies in the given range and that the call
/// panics on an empty range, which `bound > 0` rules out. Which value of the
/// range comes back is left open.
#[verifier::external_body]
fn generate_below(generator: &mut rand::rngs::ThreadRng, bound: usize) -> (value: usize)
    requires
        bound > 0,
    ensures
        value < bound,
{
    rand::Rng::gen_range(generator, 0..bound)
}

/// Calls `rand::Rng::gen_ratio`, a coin that shows `true` with probability
/// `numerator / denominator`. rand documents a panic for a zero denominator
/// and for a numerator above the denominator, that the result is always
/// `true` when both are equal, and always `false` when the numerator is zero.
/// In between the outcome is left open.
#[verifier::external_body]
fn generate_ratio(generator: &mut rand::rngs::ThreadRng, numerator: u32, denominator: u32) -> (hit:
    bool)
    requires
        0 < denominator,
        numerator <= denominator,
    ensures
        numerator == denominator ==> hit,
        numerator == 0 ==> !hit,
{
    rand::Rng::gen_ratio(generator, numerator, denominator)
}

/// One draw: what was asked of the source and what it answered.
pub enum Draw {
    /// A number below `bound` was asked for and `value` was handed out.
    Number { bound: nat, value: nat },
    /// A coin that shows `true` `numerator` times out of `denominator` was
    /// tossed and showed `hit`.
    Coin { numerator: nat, denominator: nat, hit: bool },
}

impl Draw {
    /// The draw that asked for a number below `bound` and got `value`.
    pub open spec fn number(bound: nat, value: nat) -> Draw {
        Draw::Number { bound, value }
    }

    /// The toss of a coin that shows `true` `numerator` times out of
    /// `denominator`, which showed `hit`.
    pub open spec fn coin(numerator: nat, denominator: nat, hit: bool) -> Draw {
        Draw::Coin { numerator, denominator, hit }
    }

    /// The draw asked for a number below `bound` and got one.
    pub open spec fn is_number_below(self, bound: nat) -> bool {
        self matches Draw::Number { bound: asked, value } && asked == bound && value < bound
    }

    /// The number handed out; for a coin, 1 for `true` and 0 for `false`.
    pub open spec fn value(self) -> nat {
        match self {
            Draw::Number { value, .. } => value,
            Draw::Coin { hit, .. } => if hit {
                1
            } else {
                0
            },
        }
    }

    /// The draw is the answer of a fixed source whose next value is `raw`:
    /// a number is `raw` reduced modulo the bound, and a coin shows `true`
    /// when `raw` reduced modulo the denominator is below the numerator.
    pub open spec fn replays(self, raw: nat) -> bool {
        match self {
            Draw::Number { bound, value } => bound > 0 && value == raw % bound,
            Draw::Coin { numerator, denominator, hit } => denominator > 0 && hit == (raw
                % denominator < numerator),
        }
    }
}

/// The failure of an operation that needed more draws than its source had
/// left.
#[derive(Clone, Copy, Debug, PartialEq, Eq, Structural)]
pub struct SourceExhausted;

/// A supply of random draws with a fixed budget.
///
/// Two kinds exist. A *thread* source asks rand's thread-local generator and
/// stops after `limit` draws. A *fixed* source replays a given sequence of
/// numbers once, reducing each to the range asked for; it is what
/// deterministic tests use.
pub struct RandomSource {
    generator: Option<rand::rngs::ThreadRng>,
    limit: u64,
    values: Vec<usize>,
    next: usize,
    drawn: Ghost<Seq<Draw>>,
}

impl RandomSource {
    /// Every draw answered so far, oldest first.
    pub closed spec fn drawn(&self) -> Seq<Draw> {
        self.drawn@
    }

    /// For a fixed source, the values not replayed yet; `None` for a thread
    /// source.
    pub closed spec fn script(&self) -> Option<Seq<usize>> {
        if self.generator is Some {
            None
        } else if self.next <= self.values@.len() {
            Some(self.values@.skip(self.next as int))
        } else {
            Some(Seq::empty())
        }
    }

    /// How many draws the source can still hand out.
    pub closed spec fn remaining(&self) -> nat {
        if self.generator is Some {
            self.limit as nat
        } else if self.next <= self.values@.len() {
            (self.values@.len() - self.next) as nat
        } else {
            0
        }
    }

    /// The draws answered since the source was in the state `before`.
    pub open spec fn spent(&self, before: &RandomSource) -> Seq<Draw> {
        self.drawn().skip(before.drawn().len() as int)
    }

    /// `self` is what `before` becomes by answering draws: the record of
    /// draws grew at its end, and the budget shrank by as many. A fixed
    /// source answered them from the head of its script, one value each, and
    /// keeps the rest.
    pub open spec fn follows(&self, before: &RandomSource) -> bool {
        &&& before.drawn().len() <= self.drawn().len()
        &&& self.drawn().take(before.drawn().len() as int) == before.drawn()
        &&& self.remaining() + self.spent(before).len() == before.remaining()
        &&& match before.script() {
            Some(s) => {
                &&& s.len() >= self.spent(before).len()
                &&& self.script() == Some(s.skip(self.spent(before).len() as int))
                &&& forall|i: int|
                    0 <= i < self.spent(before).len() ==> (#[trigger] self.spent(
                        before,
                    )[i]).replays(s[i] as nat)
            },
            None => self.script() is None,
        }
    }

    /// A source that asks rand's thread-local generator, for at most `limit`
    /// draws.
    pub fn thread(limit: u64) -> (source: RandomSource)
        ensures
            source.remaining() == limit,
            source.drawn() == Seq::<Draw>::empty(),
            source.script() is None,
    {
        RandomSource {
            generator: Some(thread_generator()),
            limit,
            values: Vec::new(),
            next: 0,
            drawn: Ghost(Seq::empty()),
        }
    }

    /// A source that replays `values` in order, once.
    pub fn fixed(values: Vec<usize>) -> (source: RandomSource)
        ensures
            source.remaining() == values@.len(),
            source.drawn() == Seq::<Draw>::empty(),
            source.script() == Some(values@),
    {
        RandomSource { generator: None, limit: 0, values, next: 0, drawn: Ghost(Seq::empty()) }
    }

    /// How many draws are left.
    pub fn draws_left(&self) -> (left: u64)
        ensures
            left == self.remaining(),
    {
        match &self.generator {
            Some(_) => self.limit,
            None => if self.next <= self.values.len() {
                (self.values.len() - self.next) as u64
            } else {
                0
            },
        }
    }

    /// Whether no draw is left.
    pub fn is_exhausted(&self) -> (dry: bool)
        ensures
            dry == (self.remaining() == 0),
    {
        match &self.generator {
            Some(_) => self.limit == 0,
            None => self.next >= self.values.len(),
        }
    }

    /// Draws a number below `bound`.
    ///
    /// `None` means that the source is exhausted; it is then unchanged.
    /// Otherwise one draw is spent. A fixed source hands out its next value
    /// reduced modulo `bound`; a thread source hands out a number that rand
    /// picks uniformly.
    pub fn below(&mut self, bound: usize) -> (draw: Option<usize>)
        requires
            bound > 0,
        ensures
            draw is None <==> old(self).remaining() == 0,
            draw is None ==> *final(self) == *old(self),
            draw is Some ==> final(self).follows(old(self)),
            draw matches Some(v) ==> v < bound,
            draw matches Some(v) ==> final(self).spent(old(self)) == seq![
                Draw::number(bound as nat, v as nat),
            ],
    {
        let ghost before = *self;
        let value: usize;
        match &mut self.generator {
            Some(generator) => {
                if self.limit == 0 {
                    return None;
                }
                value = generate_below(generator, bound);
                self.limit = self.limit - 1;
            },
            None => {
                if self.next >= self.values.len() {
                    return None;
                }
                value = self.values[self.next] % bound;
                self.next = self.next + 1;
            },
        }
        proof {
            let draw = Draw::Number { bound: bound as nat, value: value as nat };
            self.drawn@ = self.drawn@.push(draw);
            assert(self.drawn().take(before.drawn().len() as int) == before.drawn());
            if before.script() is Some {
                let s = before.script()->0;
                assert(self.script()->0 == s.skip(1));
            }
        }
        Some(value)
    }

    /// Tosses a coin that shows `true` with probability
    /// `numerator / denominator`.
    ///
    /// `None` means that the source is exhausted; it is then unchanged.
    /// Otherwise one draw is spent. A fixed source answers whether its next
    /// value, reduced modulo `denominator`, is below `numerator`.
    pub fn chance(&mut self, numerator: u32, denominator: u32) -> (toss: Option<bool>)
        requires
            0 < denominator,
            numerator <= denominator,
        ensures
            toss is None <==> old(self).remaining() == 0,
            toss is None ==> *final(self) == *old(self),
            toss is Some ==> final(self).follows(old(self)),
            toss matches Some(hit) ==> final(self).spent(old(self)) == seq![
                Draw::coin(numerator as nat, denominator as nat, hit),
            ],
            numerator == denominator ==> toss != Some(false),
            numerator == 0 ==> toss != Some(true),
    {
        let ghost before = *self;
        let hit: bool;
        match &mut self.generator {
            Some(generator) => {
                if self.limit == 0 {
                    return None;
                }
                hit = generate_ratio(generator, numerator, denominator);
                self.limit = self.limit - 1;
            },
            None => {
                if self.next >= self.values.len() {
                    return None;
                }
                hit = self.values[self.next] % (denominator as usize) < numerator as usize;
                self.next = self.next + 1;
            },
        }
        proof {
            let draw = Draw::Coin {
                numerator: numerator as nat,
                denominator: denominator as nat,
                hit,
            };
            self.drawn@ = self.drawn@.push(draw);
            assert(self.drawn().take(before.drawn().len() as int) == before.drawn());
            if before.script() is Some {
                let s = before.script()->0;
                assert(self.script()->0 == s.skip(1));
            }
        }
        Some(hit)
    }
}

/// Handing out draws composes: if `mid` follows `before` and `after` follows
/// `mid`, then `after` follows `before`, and what was spent in between is the
/// two parts joined, the earlier part first.
pub proof fn lemma_follows_trans(before: &RandomSource, mid: &RandomSource, after: &RandomSource)
    requires
        mid.follows(before),
        after.follows(mid),
    ensures
        after.follows(before),
        after.spent(before) == mid.spent(before) + after.spent(mid),
        after.spent(before).take(mid.spent(before).len() as int) == mid.spent(before),
        after.spent(before).skip(mid.spent(before).len() as int) == after.spent(mid),
{
    let a = before.drawn().len() as int;
    let b = mid.drawn().len() as int;
    assert(after.drawn().take(a) == after.drawn().take(b).take(a));
    assert(after.spent(before) =~= mid.spent(before) + after.spent(mid));
    if before.script() is Some {
        let s = before.script()->0;
        let m = mid.spent(before).len() as int;
        let n = after.spent(mid).len() as int;
        assert(s.skip(m).skip(n) == s.skip(m + n));
    }
}

/// A source follows itself, with nothing spent.
pub proof fn lemma_follows_refl(source: &RandomSource)
    ensures
        source.follows(source),
        source.spent(source) == Seq::<Draw>::empty(),
{
    assert(source.drawn().take(source.drawn().len() as int) == source.drawn());
    if source.script() is Some {
        let s = source.script()->0;
        assert(s.skip(0) == s);
    }
}

} // verus!
