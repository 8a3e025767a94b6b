//! Procedural sound: graphs of small signal-processing nodes, evaluated one
//! sample at a time.
//!
//! A graph is a tree. Each node owns its inputs, and the only state in it is
//! the count of its [`Time`] sources, so a tick of the root is a tick of every
//! node below it.
//!
//! Samples are binary64 numbers, held by their bit patterns ([`sample`]).
//! Counting, comparing and taking signs is done on the patterns. Whatever
//! rounds is asked of an arithmetic [`Unit`](arithmetic::Unit) that the caller
//! brings, and a tick of a node is described by the requests that it makes,
//! in their order, and by what it puts out given the answers.

pub mod arithmetic;
pub mod math;
pub mod sample;
pub mod wave;

use vstd::prelude::*;
use crate::arithmetic::{single_valued, Arithmetic, Operation, Unit};
use crate::math::{Limit, Math};
use crate::sample::{Sample, COUNT_LIMIT};
use crate::wave::{SineWave, SquareWave};

verus! {

/// What every element of a graph can do: put out its next sample.
pub trait Node<T>: Sized {
    /// The node as one tick leaves it.
    spec fn advanced(&self) -> Self;

    /// Whether the next tick may ask `asked` of the unit, in this order, and
    /// put out `out`, where `answers` holds what the unit may answer.
    spec fn yields(
        &self,
        answers: spec_fn(Operation<T>, T) -> bool,
        asked: Seq<Operation<T>>,
        out: T,
    ) -> bool;

    /// Puts out the next sample and advances the node by one tick.
    fn process<A: Arithmetic<T>>(&mut self, unit: &mut Unit<T, A>) -> (out: T)
        ensures
            *final(self) == old(self).advanced(),
            final(unit).follows(old(unit)),
            old(self).yields(old(unit).answers(), final(unit).asked_since(old(unit)), out),
    ;
}

/// The node as `ticks` ticks leave it.
pub open spec fn after<T, N: Node<T>>(node: N, ticks: nat) -> N
    decreases ticks,
{
    if ticks == 0 {
        node
    } else {
        after::<T, N>(node, (ticks - 1) as nat).advanced()
    }
}

/// Whether as many ticks of a node as `outs` is long may ask `asked` of the
/// unit and put out `outs`, each tick going on where the one before ended.
pub open spec fn plays<T, N: Node<T>>(
    node: N,
    answers: spec_fn(Operation<T>, T) -> bool,
    asked: Seq<Operation<T>>,
    outs: Seq<T>,
) -> bool
    decreases outs.len(),
{
    if outs.len() == 0 {
        asked.len() == 0
    } else {
        exists|earlier: Seq<Operation<T>>, last: Seq<Operation<T>>|
            #![trigger earlier + last]
            {
                &&& asked == earlier + last
                &&& plays(node, answers, earlier, outs.drop_last())
                &&& after::<T, N>(node, (outs.len() - 1) as nat).yields(
                    answers,
                    last,
                    outs.last(),
                )
            }
    }
}

/// Ticks add up.
pub proof fn lemma_after_adds<T, N: Node<T>>(node: N, first: nat, then: nat)
    ensures
        after::<T, N>(after::<T, N>(node, first), then) == after::<T, N>(node, first + then),
    decreases then,
{
    if then > 0 {
        lemma_after_adds::<T, N>(node, first, (then - 1) as nat);
    }
}

/// Playing in two pieces is playing in one go: whoever stops a node and
/// goes on with it later misses nothing and hears nothing twice.
pub proof fn lemma_plays_in_pieces<T, N: Node<T>>(
    node: N,
    answers: spec_fn(Operation<T>, T) -> bool,
    asked: Seq<Operation<T>>,
    outs: Seq<T>,
    asked_later: Seq<Operation<T>>,
    outs_later: Seq<T>,
)
    requires
        plays(node, answers, asked, outs),
        plays(after::<T, N>(node, outs.len()), answers, asked_later, outs_later),
    ensures
        plays(node, answers, asked + asked_later, outs + outs_later),
    decreases outs_later.len(),
{
    if outs_later.len() == 0 {
        assert(asked + asked_later =~= asked);
        assert(outs + outs_later =~= outs);
    } else {
        let then = after::<T, N>(node, outs.len());
        let (earlier, last) = choose|earlier: Seq<Operation<T>>, last: Seq<Operation<T>>|
            #![trigger earlier + last]
            {
                &&& asked_later == earlier + last
                &&& plays(then, answers, earlier, outs_later.drop_last())
                &&& after::<T, N>(then, (outs_later.len() - 1) as nat).yields(
                    answers,
                    last,
                    outs_later.last(),
                )
            };
        lemma_plays_in_pieces(node, answers, asked, outs, earlier, outs_later.drop_last());
        lemma_after_adds::<T, N>(node, outs.len(), (outs_later.len() - 1) as nat);
        assert((outs + outs_later).drop_last() =~= outs + outs_later.drop_last());
        assert(asked + asked_later =~= (asked + earlier) + last);
    }
}

/// Puts out the next `count` samples of a node, in their order, and leaves
/// the node `count` ticks further. Played in pieces, a node puts out what it
/// would have put out in one go, so a caller may stop after any piece.
pub fn play<T, N: Node<T>, A: Arithmetic<T>>(
    node: &mut N,
    unit: &mut Unit<T, A>,
    count: usize,
) -> (outs: Vec<T>)
    ensures
        outs@.len() == count,
        *final(node) == after::<T, N>(*old(node), count as nat),
        final(unit).follows(old(unit)),
        plays(*old(node), old(unit).answers(), final(unit).asked_since(old(unit)), outs@),
{
    let mut outs: Vec<T> = Vec::new();
    while outs.len() < count
        invariant
            outs@.len() <= count,
            *node == after::<T, N>(*old(node), outs@.len()),
            unit.follows(old(unit)),
            plays(*old(node), old(unit).answers(), unit.asked_since(old(unit)), outs@),
        decreases count - outs.len(),
    {
        let ghost before = *unit;
        let ghost earlier = unit.asked_since(old(unit));
        let ghost seen = outs@;
        let out = node.process(unit);
        outs.push(out);
        proof {
            unit.lemma_asked_since_adds(&before, old(unit));
            assert(outs@.drop_last() == seen);
            assert(unit.asked_since(old(unit)) == earlier + unit.asked_since(&before));
        }
    }
    outs
}

/// The virtual clock of a graph: it counts its own ticks and puts the count
/// out, `1` at the first tick. The count is a sample index, not wall-clock
/// time, so what a graph puts out does not depend on when it is asked.
pub struct Time {
    ticks: u64,
}

impl Time {
    #[verifier::type_invariant]
    spec fn within_limit(&self) -> bool {
        self.ticks <= COUNT_LIMIT
    }

    /// The number of ticks so far. Counting stops at `2^53`, where a sample
    /// plus one is that sample again.
    pub closed spec fn count(&self) -> nat {
        self.ticks as nat
    }

    /// A clock that has not ticked yet.
    pub fn new() -> (time: Self)
        ensures
            time.count() == 0,
    {
        Time { ticks: 0 }
    }

    /// Each tick counts one, until the count stands at `2^53`.
    pub proof fn lemma_advanced_count(self)
        ensures
            self.advanced().count() == if self.count() < COUNT_LIMIT {
                self.count() + 1
            } else {
                self.count()
            },
    {
    }

    /// After `ticks` ticks the count is that much higher, or stands at `2^53`.
    pub proof fn lemma_after_count(self, ticks: nat)
        requires
            self.count() <= COUNT_LIMIT,
        ensures
            after::<Sample, Time>(self, ticks).count() == if self.count() + ticks <= COUNT_LIMIT {
                self.count() + ticks
            } else {
                COUNT_LIMIT as nat
            },
        decreases ticks,
    {
        if ticks > 0 {
            self.lemma_after_count((ticks - 1) as nat);
            after::<Sample, Time>(self, (ticks - 1) as nat).lemma_advanced_count();
        }
    }

    /// The `k`-th tick of a clock that started at zero puts out exactly `k`,
    /// for every `k` from one to `2^53`; no other sample is `k`; and the unit
    /// is not asked anything.
    pub proof fn lemma_kth_tick_puts_out_k(
        self,
        k: nat,
        answers: spec_fn(Operation<Sample>, Sample) -> bool,
        asked: Seq<Operation<Sample>>,
        out: Sample,
    )
        requires
            self.count() == 0,
            1 <= k <= COUNT_LIMIT,
            after::<Sample, Time>(self, (k - 1) as nat).yields(answers, asked, out),
        ensures
            out.is_count(k),
            forall|other: Sample| other.is_count(k) ==> other == out,
            asked.len() == 0,
    {
        self.lemma_after_count((k - 1) as nat);
        after::<Sample, Time>(self, (k - 1) as nat).lemma_advanced_count();
        assert forall|other: Sample| other.is_count(k) implies other == out by {
            other.lemma_count_is_one_sample(out, k);
        }
    }

    /// From the `2^53`-th tick on a clock puts out `2^53` again and again:
    /// there, one more is no new sample.
    pub proof fn lemma_late_ticks_put_out_the_limit(
        self,
        k: nat,
        answers: spec_fn(Operation<Sample>, Sample) -> bool,
        asked: Seq<Operation<Sample>>,
        out: Sample,
    )
        requires
            self.count() == 0,
            k >= COUNT_LIMIT,
            after::<Sample, Time>(self, (k - 1) as nat).yields(answers, asked, out),
        ensures
            out.is_count(COUNT_LIMIT as nat),
    {
        self.lemma_after_count((k - 1) as nat);
        after::<Sample, Time>(self, (k - 1) as nat).lemma_advanced_count();
    }

    /// A tick of a clock puts out one sample only.
    pub proof fn lemma_one_output(
        &self,
        answers: spec_fn(Operation<Sample>, Sample) -> bool,
        asked: Seq<Operation<Sample>>,
        out: Sample,
        other_asked: Seq<Operation<Sample>>,
        other: Sample,
    )
        requires
            self.yields(answers, asked, out),
            self.yields(answers, other_asked, other),
        ensures
            out == other,
            asked == other_asked,
    {
        out.lemma_count_is_one_sample(other, self.advanced().count());
    }
}

impl Node<Sample> for Time {
    closed spec fn advanced(&self) -> Self {
        Time { ticks: if self.ticks < COUNT_LIMIT { (self.ticks + 1) as u64 } else { self.ticks } }
    }

    open spec fn yields(
        &self,
        answers: spec_fn(Operation<Sample>, Sample) -> bool,
        asked: Seq<Operation<Sample>>,
        out: Sample,
    ) -> bool {
        asked.len() == 0 && out.is_count(self.advanced().count())
    }

    /// Counts one tick and puts out the new count.
    fn process<A: Arithmetic<Sample>>(&mut self, unit: &mut Unit<Sample, A>) -> (out: Sample)
        ensures
            final(self).count() == if old(self).count() < COUNT_LIMIT {
                old(self).count() + 1
            } else {
                old(self).count()
            },
            out.is_count(final(self).count()),
            final(unit).asked() == old(unit).asked(),
    {
        proof {
            use_type_invariant(&*self);
        }
        if self.ticks < COUNT_LIMIT {
            self.ticks = self.ticks + 1;
        }
        Sample::count(self.ticks)
    }
}

/// An input of a node: the node that feeds it, owned by the node it feeds.
pub type NodeInput = Box<Signal>;

/// Any node of a graph.
pub enum Signal {
    Time(Time),
    Value(Value),
    Math(Math),
    Limit(Limit),
    Sine(SineWave),
    Square(SquareWave),
}

impl Signal {
    /// After `ticks` ticks of a clock in a graph, the clock has made them.
    pub proof fn lemma_after_time(self, ticks: nat)
        requires
            self is Time,
        ensures
            after::<Sample, Signal>(self, ticks) == Signal::Time(
                after::<Sample, Time>(self->Time_0, ticks),
            ),
        decreases ticks,
    {
        if ticks > 0 {
            self.lemma_after_time((ticks - 1) as nat);
        }
    }

    /// With a unit that leaves no choice, a tick makes one list of requests
    /// and puts out one sample only: what a graph puts out is settled by the
    /// graph, the number of ticks before, and the unit.
    pub proof fn lemma_one_output(
        &self,
        answers: spec_fn(Operation<Sample>, Sample) -> bool,
        asked: Seq<Operation<Sample>>,
        out: Sample,
        other_asked: Seq<Operation<Sample>>,
        other: Sample,
    )
        requires
            single_valued(answers),
            self.yields(answers, asked, out),
            self.yields(answers, other_asked, other),
        ensures
            out == other,
            asked == other_asked,
        decreases self,
    {
        match self {
            Signal::Time(node) => node.lemma_one_output(answers, asked, out, other_asked, other),
            Signal::Value(node) => node.lemma_one_output(answers, asked, out, other_asked, other),
            Signal::Math(node) => node.lemma_one_output(answers, asked, out, other_asked, other),
            Signal::Limit(node) => node.lemma_one_output(answers, asked, out, other_asked, other),
            Signal::Sine(node) => node.lemma_one_output(answers, asked, out, other_asked, other),
            Signal::Square(node) => node.lemma_one_output(answers, asked, out, other_asked, other),
        }
    }
}

impl Node<Sample> for Signal {
    open spec fn advanced(&self) -> Self
        decreases self,
    {
        match self {
            Signal::Time(node) => Signal::Time(node.advanced()),
            Signal::Value(node) => Signal::Value(node.advanced()),
            Signal::Math(node) => Signal::Math(node.advanced()),
            Signal::Limit(node) => Signal::Limit(node.advanced()),
            Signal::Sine(node) => Signal::Sine(node.advanced()),
            Signal::Square(node) => Signal::Square(node.advanced()),
        }
    }

    open spec fn yields(
        &self,
        answers: spec_fn(Operation<Sample>, Sample) -> bool,
        asked: Seq<Operation<Sample>>,
        out: Sample,
    ) -> bool
        decreases self,
    {
        match self {
            Signal::Time(node) => node.yields(answers, asked, out),
            Signal::Value(node) => node.yields(answers, asked, out),
            Signal::Math(node) => node.yields(answers, asked, out),
            Signal::Limit(node) => node.yields(answers, asked, out),
            Signal::Sine(node) => node.yields(answers, asked, out),
            Signal::Square(node) => node.yields(answers, asked, out),
        }
    }

    /// Puts out the next sample of whichever node this is.
    fn process<A: Arithmetic<Sample>>(&mut self, unit: &mut Unit<Sample, A>) -> (out: Sample)
        decreases *old(self),
    {
        match self {
            Signal::Time(node) => node.process(unit),
            Signal::Value(node) => node.process(unit),
            Signal::Math(node) => node.process(unit),
            Signal::Limit(node) => node.process(unit),
            Signal::Sine(node) => node.process(unit),
            Signal::Square(node) => node.process(unit),
        }
    }
}

/// A parameter of a node: a constant, or the output of another node.
pub enum Value {
    Const(Sample),
    Node(NodeInput),
}

impl Value {
    /// A constant stays what it is.
    pub proof fn lemma_after_const(self, ticks: nat)
        requires
            self is Const,
        ensures
            after::<Sample, Value>(self, ticks) == self,
        decreases ticks,
    {
        if ticks > 0 {
            self.lemma_after_const((ticks - 1) as nat);
        }
    }

    /// With a unit that leaves no choice, a tick makes one list of requests
    /// and puts out one sample only.
    pub proof fn lemma_one_output(
        &self,
        answers: spec_fn(Operation<Sample>, Sample) -> bool,
        asked: Seq<Operation<Sample>>,
        out: Sample,
        other_asked: Seq<Operation<Sample>>,
        other: Sample,
    )
        requires
            single_valued(answers),
            self.yields(answers, asked, out),
            self.yields(answers, other_asked, other),
        ensures
            out == other,
            asked == other_asked,
        decreases self,
    {
        match self {
            Value::Const(_) => {
                assert(asked =~= other_asked);
            },
            Value::Node(node) => node.lemma_one_output(answers, asked, out, other_asked, other),
        }
    }
}

impl Node<Sample> for Value {
    open spec fn advanced(&self) -> Self
        decreases self,
    {
        match self {
            Value::Const(sample) => Value::Const(*sample),
            Value::Node(node) => Value::Node(Box::new(node.advanced())),
        }
    }

    open spec fn yields(
        &self,
        answers: spec_fn(Operation<Sample>, Sample) -> bool,
        asked: Seq<Operation<Sample>>,
        out: Sample,
    ) -> bool
        decreases self,
    {
        match self {
            Value::Const(sample) => asked.len() == 0 && out == *sample,
            Value::Node(node) => node.yields(answers, asked, out),
        }
    }

    /// Puts out the constant, or the next sample of the node.
    fn process<A: Arithmetic<Sample>>(&mut self, unit: &mut Unit<Sample, A>) -> (out: Sample)
        decreases *old(self),
    {
        match self {
            Value::Const(sample) => *sample,
            Value::Node(node) => node.process(unit),
        }
    }
}

impl From<Sample> for Value {
    fn from(sample: Sample) -> (value: Value) {
        Value::Const(sample)
    }
}

impl vstd::std_specs::convert::FromSpecImpl<Sample> for Value {
    open spec fn obeys_from_spec() -> bool {
        true
    }

    open spec fn from_spec(sample: Sample) -> Value {
        Value::Const(sample)
    }
}

} // verus!
