//! Arithmetic on signals, and the limiting of a signal to a range.

use vstd::prelude::*;
use crate::arithmetic::{gives, single_valued, Arithmetic, Operation, Unit};
use crate::sample::{Sample, LARGEST, LOWEST};
use crate::{Node, NodeInput, Value};

verus! {

/// Mathematical operations to combine inputs. The first input is evaluated
/// before the second.
pub enum Math {
    /// The first input plus the second.
    Add(NodeInput, NodeInput),
    /// The first input less the second.
    Subtract(NodeInput, NodeInput),
    /// The first input times the second.
    Multiply(NodeInput, NodeInput),
    /// The first input over the second. A zero below the line is no special
    /// case: what the unit answers comes out.
    Divide(NodeInput, NodeInput),
    /// The first input raised to the second.
    Pow(NodeInput, NodeInput),
    /// The square root of the input.
    Sqrt(NodeInput),
}

/// What the inputs of an operation come to at one tick: the sample that each
/// puts out, and what each asks of the unit.
pub struct MathTick {
    pub first: Sample,
    pub second: Sample,
    pub by_first: Seq<Operation<Sample>>,
    pub by_second: Seq<Operation<Sample>>,
}

impl MathTick {
    /// What the inputs ask, the first one first.
    pub open spec fn asked(self) -> Seq<Operation<Sample>> {
        self.by_first + self.by_second
    }
}

impl Math {
    /// The request that the node makes of the unit once its inputs have put
    /// out `first` and `second`. A square root has one input only and makes
    /// nothing of `second`.
    pub open spec fn request(&self, first: Sample, second: Sample) -> Operation<Sample> {
        match self {
            Math::Add(_, _) => Operation::Add(first, second),
            Math::Subtract(_, _) => Operation::Subtract(first, second),
            Math::Multiply(_, _) => Operation::Multiply(first, second),
            Math::Divide(_, _) => Operation::Divide(first, second),
            Math::Pow(_, _) => Operation::Pow(first, second),
            Math::Sqrt(_) => Operation::Sqrt(first),
        }
    }

    /// Whether the next tick may take the inputs through `tick`, ask `asked`
    /// in all and put out `out`: the first input makes its requests and puts
    /// out its sample, then the second does, and the last request is the
    /// node's own, whose answer comes out. With one input only, nothing is
    /// asked in the place of the second.
    pub open spec fn through(
        &self,
        answers: spec_fn(Operation<Sample>, Sample) -> bool,
        asked: Seq<Operation<Sample>>,
        out: Sample,
        tick: MathTick,
    ) -> bool
        decreases self, 0int,
    {
        &&& match self {
            Math::Add(first, second)
            | Math::Subtract(first, second)
            | Math::Multiply(first, second)
            | Math::Divide(first, second)
            | Math::Pow(first, second) => {
                &&& first.yields(answers, tick.by_first, tick.first)
                &&& second.yields(answers, tick.by_second, tick.second)
            },
            Math::Sqrt(first) => {
                &&& first.yields(answers, tick.by_first, tick.first)
                &&& tick.by_second.len() == 0
            },
        }
        &&& gives(answers, self.request(tick.first, tick.second), out)
        &&& asked == tick.asked().push(self.request(tick.first, tick.second))
    }

    /// With a unit that leaves no choice, a tick makes one list of requests
    /// and puts out one sample only.
    pub proof fn lemma_one_output(
        &self,
        answers: spec_fn(Operation<Sample>, Sample) -> bool,
        asked: Seq<Operation<Sample>>,
        out: Sample,
        other_asked: Seq<Operation<Sample>>,
        other: Sample,
    )
        requires
            single_valued(answers),
            self.yields(answers, asked, out),
            self.yields(answers, other_asked, other),
        ensures
            out == other,
            asked == other_asked,
        decreases self,
    {
        let one = choose|tick: MathTick|
            #![trigger tick.asked()]
            self.through(answers, asked, out, tick);
        let two = choose|tick: MathTick|
            #![trigger tick.asked()]
            self.through(answers, other_asked, other, tick);
        match self {
            Math::Add(first, second)
            | Math::Subtract(first, second)
            | Math::Multiply(first, second)
            | Math::Divide(first, second)
            | Math::Pow(first, second) => {
                first.lemma_one_output(answers, one.by_first, one.first, two.by_first, two.first);
                second.lemma_one_output(
                    answers,
                    one.by_second,
                    one.second,
                    two.by_second,
                    two.second,
                );
            },
            Math::Sqrt(first) => {
                first.lemma_one_output(answers, one.by_first, one.first, two.by_first, two.first);
                assert(one.by_second =~= two.by_second);
            },
        }
    }

    /// The journal of a tick in which the inputs put out `first` and
    /// `second`: what the first input asked, from `start` to `middle`, what
    /// the second asked, from there to `end`, and the node's own request.
    proof fn lemma_asked<A: Arithmetic<Sample>>(
        &self,
        start: &Unit<Sample, A>,
        middle: &Unit<Sample, A>,
        end: &Unit<Sample, A>,
        last: &Unit<Sample, A>,
        first: Sample,
        second: Sample,
    )
        requires
            middle.follows(start),
            end.follows(middle),
            last.follows(end),
            last.asked_since(end) == seq![self.request(first, second)],
        ensures
            last.follows(start),
            last.asked_since(start) == (MathTick {
                first,
                second,
                by_first: middle.asked_since(start),
                by_second: end.asked_since(middle),
            }).asked().push(self.request(first, second)),
            end.asked_since(end).len() == 0,
    {
        end.lemma_asked_since_adds(middle, start);
        last.lemma_asked_since_adds(end, start);
        assert(last.asked_since(start) =~= (middle.asked_since(start) + end.asked_since(
            middle,
        )).push(self.request(first, second)));
    }
}

impl Node<Sample> for Math {
    open spec fn advanced(&self) -> Self
        decreases self,
    {
        match self {
            Math::Add(first, second) => Math::Add(
                Box::new(first.advanced()),
                Box::new(second.advanced()),
            ),
            Math::Subtract(first, second) => Math::Subtract(
                Box::new(first.advanced()),
                Box::new(second.advanced()),
            ),
            Math::Multiply(first, second) => Math::Multiply(
                Box::new(first.advanced()),
                Box::new(second.advanced()),
            ),
            Math::Divide(first, second) => Math::Divide(
                Box::new(first.advanced()),
                Box::new(second.advanced()),
            ),
            Math::Pow(first, second) => Math::Pow(
                Box::new(first.advanced()),
                Box::new(second.advanced()),
            ),
            Math::Sqrt(first) => Math::Sqrt(Box::new(first.advanced())),
        }
    }

    open spec fn yields(
        &self,
        answers: spec_fn(Operation<Sample>, Sample) -> bool,
        asked: Seq<Operation<Sample>>,
        out: Sample,
    ) -> bool
        decreases self, 1int,
    {
        exists|tick: MathTick| #![trigger tick.asked()] self.through(answers, asked, out, tick)
    }

    /// Evaluates the inputs, the first one first, and puts out what the unit
    /// makes of them.
    fn process<A: Arithmetic<Sample>>(&mut self, unit: &mut Unit<Sample, A>) -> (out: Sample)
        decreases *old(self),
    {
        let ghost start = *unit;
        match self {
            Math::Add(first, second) => {
                let a = first.process(unit);
                let ghost middle = *unit;
                let b = second.process(unit);
                let ghost end = *unit;
                let out = unit.ask(Operation::Add(a, b));
                proof {
                    old(self).lemma_asked(&start, &middle, &end, unit, a, b);
                }
                out
            },
            Math::Subtract(first, second) => {
                let a = first.process(unit);
                let ghost middle = *unit;
                let b = second.process(unit);
                let ghost end = *unit;
                let out = unit.ask(Operation::Subtract(a, b));
                proof {
                    old(self).lemma_asked(&start, &middle, &end, unit, a, b);
                }
                out
            },
            Math::Multiply(first, second) => {
                let a = first.process(unit);
                let ghost middle = *unit;
                let b = second.process(unit);
                let ghost end = *unit;
                let out = unit.ask(Operation::Multiply(a, b));
                proof {
                    old(self).lemma_asked(&start, &middle, &end, unit, a, b);
                }
                out
            },
            Math::Divide(first, second) => {
                let a = first.process(unit);
                let ghost middle = *unit;
                let b = second.process(unit);
                let ghost end = *unit;
                let out = unit.ask(Operation::Divide(a, b));
                proof {
                    old(self).lemma_asked(&start, &middle, &end, unit, a, b);
                }
                out
            },
            Math::Pow(first, second) => {
                let a = first.process(unit);
                let ghost middle = *unit;
                let b = second.process(unit);
                let ghost end = *unit;
                let out = unit.ask(Operation::Pow(a, b));
                proof {
                    old(self).lemma_asked(&start, &middle, &end, unit, a, b);
                }
                out
            },
            Math::Sqrt(first) => {
                let a = first.process(unit);
                let ghost end = *unit;
                let out = unit.ask(Operation::Sqrt(a));
                proof {
                    old(self).lemma_asked(&start, &end, &end, unit, a, a);
                }
                out
            },
        }
    }
}

/// Cuts a signal off where it is above the maximum or below the minimum.
pub struct Limit {
    /// The signal to cut off.
    pub input: Value,
    /// The minimum. Where there is none, the lowest finite sample is it.
    pub min: Option<Value>,
    /// The maximum. Where there is none, the largest finite sample is it.
    pub max: Option<Value>,
}

/// What the input and the bounds of a limit come to at one tick: the sample
/// that each puts out, and what each asks of the unit.
pub struct LimitTick {
    pub sample: Sample,
    pub min: Sample,
    pub max: Sample,
    pub by_input: Seq<Operation<Sample>>,
    pub by_max: Seq<Operation<Sample>>,
    pub by_min: Seq<Operation<Sample>>,
}

impl LimitTick {
    /// What the three ask: the input first, then the maximum, then the
    /// minimum.
    pub open spec fn asked(self) -> Seq<Operation<Sample>> {
        self.by_input + self.by_max + self.by_min
    }
}

impl Limit {
    /// The bound as one tick leaves it.
    pub open spec fn bound_advanced(bound: Option<Value>) -> Option<Value>
        decreases bound,
    {
        match bound {
            Some(value) => Some(value.advanced()),
            None => None,
        }
    }

    /// Whether the next tick may ask `asked` and put `out` in the place of a
    /// bound: what the bound yields, or nothing asked and `absent` where
    /// there is none.
    pub open spec fn bound_yields(
        bound: Option<Value>,
        absent: Sample,
        answers: spec_fn(Operation<Sample>, Sample) -> bool,
        asked: Seq<Operation<Sample>>,
        out: Sample,
    ) -> bool
        decreases bound,
    {
        match bound {
            Some(value) => value.yields(answers, asked, out),
            None => asked.len() == 0 && out == absent,
        }
    }

    /// A sample cut off at `max` and then at `min`. The cut at `min` comes
    /// last, so it prevails where the two bounds cross.
    pub open spec fn limited(sample: Sample, min: Sample, max: Sample) -> Sample {
        sample.lesser(max).greater(min)
    }

    /// Whether the next tick may take the input and the bounds through
    /// `tick`, ask `asked` in all and put out `out`: the input makes its
    /// requests, then the maximum, then the minimum, and what comes out is
    /// the input's sample cut off at the two.
    pub open spec fn through(
        &self,
        answers: spec_fn(Operation<Sample>, Sample) -> bool,
        asked: Seq<Operation<Sample>>,
        out: Sample,
        tick: LimitTick,
    ) -> bool
        decreases self, 0int,
    {
        &&& self.input.yields(answers, tick.by_input, tick.sample)
        &&& Self::bound_yields(self.max, Sample { bits: LARGEST }, answers, tick.by_max, tick.max)
        &&& Self::bound_yields(self.min, Sample { bits: LOWEST }, answers, tick.by_min, tick.min)
        &&& out == Self::limited(tick.sample, tick.min, tick.max)
        &&& asked == tick.asked()
    }

    /// Cuts a sample off at `max` and then at `min`.
    pub fn limit(sample: Sample, min: Sample, max: Sample) -> (out: Sample)
        ensures
            out == Self::limited(sample, min, max),
    {
        sample.min(max).max(min)
    }

    /// A number between the bounds passes unchanged.
    pub proof fn lemma_within_bounds(sample: Sample, min: Sample, max: Sample)
        requires
            !sample.is_nan(),
            !min.is_nan(),
            !max.is_nan(),
            min.rank() <= sample.rank() <= max.rank(),
        ensures
            Self::limited(sample, min, max) == sample,
    {
    }

    /// Between bounds that do not cross, whatever goes in comes out within
    /// them.
    pub proof fn lemma_between_bounds(sample: Sample, min: Sample, max: Sample)
        requires
            !min.is_nan(),
            !max.is_nan(),
            min.rank() <= max.rank(),
        ensures
            !Self::limited(sample, min, max).is_nan(),
            min.rank() <= Self::limited(sample, min, max).rank() <= max.rank(),
    {
    }

    /// Where the maximum is below the minimum, the minimum comes out,
    /// whatever goes in.
    pub proof fn lemma_crossed_bounds(sample: Sample, min: Sample, max: Sample)
        requires
            !min.is_nan(),
            !max.is_nan(),
            max.rank() < min.rank(),
        ensures
            Self::limited(sample, min, max) == min,
    {
    }

    /// A limit with crossed bounds puts out what its minimum puts out,
    /// whatever its input does.
    pub proof fn lemma_crossed_limit(
        &self,
        answers: spec_fn(Operation<Sample>, Sample) -> bool,
        asked: Seq<Operation<Sample>>,
        out: Sample,
    )
        requires
            self.min is Some,
            self.max is Some,
            forall|
                min: Sample,
                max: Sample,
                by_min: Seq<Operation<Sample>>,
                by_max: Seq<Operation<Sample>>,
            |
                #![trigger
                    self.min->0.yields(answers, by_min, min),
                    self.max->0.yields(answers, by_max, max)]
                self.min->0.yields(answers, by_min, min) && self.max->0.yields(answers, by_max, max)
                    ==> !min.is_nan() && !max.is_nan() && max.rank() < min.rank(),
            self.yields(answers, asked, out),
        ensures
            exists|by_min: Seq<Operation<Sample>>| self.min->0.yields(answers, by_min, out),
    {
        let tick = choose|tick: LimitTick|
            #![trigger tick.asked()]
            self.through(answers, asked, out, tick);
        assert(self.min->0.yields(answers, tick.by_min, tick.min));
        assert(self.max->0.yields(answers, tick.by_max, tick.max));
        Self::lemma_crossed_bounds(tick.sample, tick.min, tick.max);
    }

    /// A limit without bounds asks what its input asks and puts out what its
    /// input puts out, as long as that is finite.
    pub proof fn lemma_open_limit(
        &self,
        answers: spec_fn(Operation<Sample>, Sample) -> bool,
        asked: Seq<Operation<Sample>>,
        out: Sample,
    )
        requires
            self.min is None,
            self.max is None,
            forall|sample: Sample, by_input: Seq<Operation<Sample>>| #[trigger]
                self.input.yields(answers, by_input, sample) ==> sample.is_finite(),
            self.yields(answers, asked, out),
        ensures
            self.input.yields(answers, asked, out),
    {
        let tick = choose|tick: LimitTick|
            #![trigger tick.asked()]
            self.through(answers, asked, out, tick);
        assert(self.input.yields(answers, tick.by_input, tick.sample));
        Self::lemma_within_bounds(tick.sample, tick.min, tick.max);
        assert(asked =~= tick.by_input);
    }

    /// With a unit that leaves no choice, a tick makes one list of requests
    /// and puts out one sample only.
    pub proof fn lemma_one_output(
        &self,
        answers: spec_fn(Operation<Sample>, Sample) -> bool,
        asked: Seq<Operation<Sample>>,
        out: Sample,
        other_asked: Seq<Operation<Sample>>,
        other: Sample,
    )
        requires
            single_valued(answers),
            self.yields(answers, asked, out),
            self.yields(answers, other_asked, other),
        ensures
            out == other,
            asked == other_asked,
        decreases self,
    {
        let one = choose|tick: LimitTick|
            #![trigger tick.asked()]
            self.through(answers, asked, out, tick);
        let two = choose|tick: LimitTick|
            #![trigger tick.asked()]
            self.through(answers, other_asked, other, tick);
        self.input.lemma_one_output(answers, one.by_input, one.sample, two.by_input, two.sample);
        match self.max {
            Some(max) => max.lemma_one_output(answers, one.by_max, one.max, two.by_max, two.max),
            None => assert(one.by_max =~= two.by_max),
        }
        match self.min {
            Some(min) => min.lemma_one_output(answers, one.by_min, one.min, two.by_min, two.min),
            None => assert(one.by_min =~= two.by_min),
        }
    }
}

impl Node<Sample> for Limit {
    open spec fn advanced(&self) -> Self
        decreases self,
    {
        Limit {
            input: self.input.advanced(),
            min: Self::bound_advanced(self.min),
            max: Self::bound_advanced(self.max),
        }
    }

    open spec fn yields(
        &self,
        answers: spec_fn(Operation<Sample>, Sample) -> bool,
        asked: Seq<Operation<Sample>>,
        out: Sample,
    ) -> bool
        decreases self, 1int,
    {
        exists|tick: LimitTick| #![trigger tick.asked()] self.through(answers, asked, out, tick)
    }

    /// Evaluates the input, then the maximum, then the minimum, and puts out
    /// the input's sample cut off at the two.
    fn process<A: Arithmetic<Sample>>(&mut self, unit: &mut Unit<Sample, A>) -> (out: Sample)
        decreases *old(self),
    {
        let ghost start = *unit;
        let sample = self.input.process(unit);
        let ghost after_input = *unit;
        let max = match &mut self.max {
            Some(value) => value.process(unit),
            None => Sample { bits: LARGEST },
        };
        let ghost after_max = *unit;
        let min = match &mut self.min {
            Some(value) => value.process(unit),
            None => Sample { bits: LOWEST },
        };
        let out = Self::limit(sample, min, max);
        proof {
            let tick = LimitTick {
                sample,
                min,
                max,
                by_input: after_input.asked_since(&start),
                by_max: after_max.asked_since(&after_input),
                by_min: unit.asked_since(&after_max),
            };
            after_max.lemma_asked_since_adds(&after_input, &start);
            unit.lemma_asked_since_adds(&after_max, &start);
            assert(old(self).through(start.answers(), unit.asked_since(&start), out, tick));
        }
        out
    }
}

} // verus!
