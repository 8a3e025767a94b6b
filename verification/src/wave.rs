//! Wave primitives: the oscillators that graphs are built from.

use vstd::prelude::*;
use crate::arithmetic::{gives, single_valued, Arithmetic, Operation, Unit};
use crate::sample::{Sample, COUNT_LIMIT, PI, TWO};
use crate::{after, Node, NodeInput, Signal, Value};

verus! {

/// Whether the phase of an oscillator may come out as `out`, with `asked`
/// asked of the unit: the time times the frequency, times two, times the
/// circle constant, over the sample rate, one request for each step.
pub open spec fn phase_yields(
    answers: spec_fn(Operation<Sample>, Sample) -> bool,
    time: Sample,
    frequency: Sample,
    sample_rate: Sample,
    asked: Seq<Operation<Sample>>,
    out: Sample,
) -> bool {
    exists|cycles: Sample, doubled: Sample, turned: Sample|
        #![trigger
            gives(answers, Operation::Multiply(time, frequency), cycles),
            gives(answers, Operation::Multiply(cycles, Sample { bits: TWO }), doubled),
            gives(answers, Operation::Multiply(doubled, Sample { bits: PI }), turned)]
        {
            &&& gives(answers, Operation::Multiply(time, frequency), cycles)
            &&& gives(answers, Operation::Multiply(cycles, Sample { bits: TWO }), doubled)
            &&& gives(answers, Operation::Multiply(doubled, Sample { bits: PI }), turned)
            &&& gives(answers, Operation::Divide(turned, sample_rate), out)
            &&& asked == seq![
                Operation::Multiply(time, frequency),
                Operation::Multiply(cycles, Sample { bits: TWO }),
                Operation::Multiply(doubled, Sample { bits: PI }),
                Operation::Divide(turned, sample_rate),
            ]
        }
}

/// Whether the sine of the phase of an oscillator may come out as `out`,
/// with `asked` asked of the unit: the steps of the phase, then its sine.
pub open spec fn sine_yields(
    answers: spec_fn(Operation<Sample>, Sample) -> bool,
    time: Sample,
    frequency: Sample,
    sample_rate: Sample,
    asked: Seq<Operation<Sample>>,
    out: Sample,
) -> bool {
    exists|angle: Sample|
        {
            &&& phase_yields(answers, time, frequency, sample_rate, asked.drop_last(), angle)
            &&& #[trigger] gives(answers, Operation::Sin(angle), out)
            &&& asked.len() > 0
            &&& asked.last() == Operation::Sin(angle)
        }
}

/// The phase of an oscillator at one tick.
pub fn phase<A: Arithmetic<Sample>>(
    unit: &mut Unit<Sample, A>,
    time: Sample,
    frequency: Sample,
    sample_rate: Sample,
) -> (out: Sample)
    ensures
        final(unit).follows(old(unit)),
        phase_yields(
            old(unit).answers(),
            time,
            frequency,
            sample_rate,
            final(unit).asked_since(old(unit)),
            out,
        ),
{
    let cycles = unit.ask(Operation::Multiply(time, frequency));
    let doubled = unit.ask(Operation::Multiply(cycles, Sample { bits: TWO }));
    let turned = unit.ask(Operation::Multiply(doubled, Sample { bits: PI }));
    let out = unit.ask(Operation::Divide(turned, sample_rate));
    proof {
        assert(unit.asked_since(old(unit)) =~= seq![
            Operation::Multiply(time, frequency),
            Operation::Multiply(cycles, Sample { bits: TWO }),
            Operation::Multiply(doubled, Sample { bits: PI }),
            Operation::Divide(turned, sample_rate),
        ]);
    }
    out
}

/// The sine of the phase of an oscillator at one tick.
pub fn sine<A: Arithmetic<Sample>>(
    unit: &mut Unit<Sample, A>,
    time: Sample,
    frequency: Sample,
    sample_rate: Sample,
) -> (out: Sample)
    ensures
        final(unit).follows(old(unit)),
        sine_yields(
            old(unit).answers(),
            time,
            frequency,
            sample_rate,
            final(unit).asked_since(old(unit)),
            out,
        ),
{
    let angle = phase(unit, time, frequency, sample_rate);
    let ghost middle = *unit;
    let out = unit.ask(Operation::Sin(angle));
    proof {
        unit.lemma_asked_since_adds(&middle, old(unit));
        assert(unit.asked_since(old(unit)).drop_last() =~= middle.asked_since(old(unit)));
    }
    out
}

/// With a unit that leaves no choice, there is one sine of the phase only,
/// and one list of requests for it.
pub proof fn lemma_one_sine(
    answers: spec_fn(Operation<Sample>, Sample) -> bool,
    time: Sample,
    frequency: Sample,
    sample_rate: Sample,
    asked: Seq<Operation<Sample>>,
    out: Sample,
    other_asked: Seq<Operation<Sample>>,
    other: Sample,
)
    requires
        single_valued(answers),
        sine_yields(answers, time, frequency, sample_rate, asked, out),
        sine_yields(answers, time, frequency, sample_rate, other_asked, other),
    ensures
        out == other,
        asked == other_asked,
{
    assert(asked =~= asked.drop_last().push(asked.last()));
    assert(other_asked =~= other_asked.drop_last().push(other_asked.last()));
}

/// The sine of the phase takes five requests.
pub proof fn lemma_sine_asks_five(
    answers: spec_fn(Operation<Sample>, Sample) -> bool,
    time: Sample,
    frequency: Sample,
    sample_rate: Sample,
    asked: Seq<Operation<Sample>>,
    out: Sample,
)
    requires
        sine_yields(answers, time, frequency, sample_rate, asked, out),
    ensures
        asked.len() == 5,
{
    let angle = choose|angle: Sample|
        {
            &&& phase_yields(answers, time, frequency, sample_rate, asked.drop_last(), angle)
            &&& #[trigger] gives(answers, Operation::Sin(angle), out)
            &&& asked.len() > 0
            &&& asked.last() == Operation::Sin(angle)
        };
    assert(asked.drop_last().len() == 4);
}

/// What the inputs of an oscillator come to at one tick: the sample that
/// each puts out, the sine of the phase made of them, and what is asked of
/// the unit for each.
pub struct WaveTick {
    pub time: Sample,
    pub frequency: Sample,
    pub sample_rate: Sample,
    pub sine: Sample,
    pub amplitude: Sample,
    pub by_time: Seq<Operation<Sample>>,
    pub by_frequency: Seq<Operation<Sample>>,
    pub by_rate: Seq<Operation<Sample>>,
    pub by_sine: Seq<Operation<Sample>>,
    pub by_amplitude: Seq<Operation<Sample>>,
}

impl WaveTick {
    /// What is asked in all: by the time, the frequency and the sample
    /// rate, then for the sine of the phase, then by the amplitude.
    pub open spec fn asked(self) -> Seq<Operation<Sample>> {
        self.by_time + self.by_frequency + self.by_rate + self.by_sine + self.by_amplitude
    }

    /// The request for the sine times the amplitude.
    pub open spec fn product(self) -> Operation<Sample> {
        Operation::Multiply(self.sine, self.amplitude)
    }

    /// The tick of inputs that ask nothing: of constants, and of a clock.
    pub proof fn lemma_silent_inputs(self)
        requires
            self.by_time.len() == 0,
            self.by_frequency.len() == 0,
            self.by_rate.len() == 0,
            self.by_amplitude.len() == 0,
        ensures
            self.asked() == self.by_sine,
    {
        assert(self.asked() =~= self.by_sine);
    }
}

/// A sine wave.
pub struct SineWave {
    /// Time input, though any node can be used here.
    pub time: NodeInput,
    /// The wave's amplitude. If in doubt, leave at `1`.
    pub amplitude: Value,
    /// The wave's frequency in Hz.
    pub frequency: Value,
    /// The sample rate of the output device.
    pub sample_rate: Value,
}

impl SineWave {
    /// Whether the next tick may take the inputs through `tick`, ask `asked`
    /// in all and put out `out`: the time, the frequency and the sample rate
    /// make their requests and put out their samples, the sine of the phase
    /// is asked for, the amplitude makes its requests, and the last request
    /// is for the sine times the amplitude, whose answer comes out.
    pub open spec fn through(
        &self,
        answers: spec_fn(Operation<Sample>, Sample) -> bool,
        asked: Seq<Operation<Sample>>,
        out: Sample,
        tick: WaveTick,
    ) -> bool
        decreases self, 0int,
    {
        &&& self.time.yields(answers, tick.by_time, tick.time)
        &&& self.frequency.yields(answers, tick.by_frequency, tick.frequency)
        &&& self.sample_rate.yields(answers, tick.by_rate, tick.sample_rate)
        &&& sine_yields(
            answers,
            tick.time,
            tick.frequency,
            tick.sample_rate,
            tick.by_sine,
            tick.sine,
        )
        &&& self.amplitude.yields(answers, tick.by_amplitude, tick.amplitude)
        &&& gives(answers, tick.product(), out)
        &&& asked == tick.asked().push(tick.product())
    }

    /// With a unit that leaves no choice, a tick makes one list of requests
    /// and puts out one sample only.
    pub proof fn lemma_one_output(
        &self,
        answers: spec_fn(Operation<Sample>, Sample) -> bool,
        asked: Seq<Operation<Sample>>,
        out: Sample,
        other_asked: Seq<Operation<Sample>>,
        other: Sample,
    )
        requires
            single_valued(answers),
            self.yields(answers, asked, out),
            self.yields(answers, other_asked, other),
        ensures
            out == other,
            asked == other_asked,
        decreases self,
    {
        let one = choose|tick: WaveTick|
            #![trigger tick.asked()]
            self.through(answers, asked, out, tick);
        let two = choose|tick: WaveTick|
            #![trigger tick.asked()]
            self.through(answers, other_asked, other, tick);
        self.time.lemma_one_output(answers, one.by_time, one.time, two.by_time, two.time);
        self.frequency.lemma_one_output(
            answers,
            one.by_frequency,
            one.frequency,
            two.by_frequency,
            two.frequency,
        );
        self.sample_rate.lemma_one_output(
            answers,
            one.by_rate,
            one.sample_rate,
            two.by_rate,
            two.sample_rate,
        );
        lemma_one_sine(
            answers,
            one.time,
            one.frequency,
            one.sample_rate,
            one.by_sine,
            one.sine,
            two.by_sine,
            two.sine,
        );
        self.amplitude.lemma_one_output(
            answers,
            one.by_amplitude,
            one.amplitude,
            two.by_amplitude,
            two.amplitude,
        );
    }

    /// After `ticks` ticks of a wave each of its inputs has made that many.
    pub proof fn lemma_after(self, ticks: nat)
        ensures
            after::<Sample, SineWave>(self, ticks) == (SineWave {
                time: Box::new(after::<Sample, Signal>(*self.time, ticks)),
                amplitude: after::<Sample, Value>(self.amplitude, ticks),
                frequency: after::<Sample, Value>(self.frequency, ticks),
                sample_rate: after::<Sample, Value>(self.sample_rate, ticks),
            }),
        decreases ticks,
    {
        if ticks > 0 {
            self.lemma_after((ticks - 1) as nat);
        }
    }

    /// With constant amplitude `A`, frequency `F` and sample rate `S`, and a
    /// clock of its own that starts at zero, the `k`-th tick puts out the
    /// sine of `k · F · 2 · π / S`, times `A`, as the unit computes them, for
    /// every `k` from one to `2^53`; and these six requests are all it makes.
    pub proof fn lemma_kth_tick(
        self,
        k: nat,
        answers: spec_fn(Operation<Sample>, Sample) -> bool,
        asked: Seq<Operation<Sample>>,
        out: Sample,
    )
        requires
            *self.time matches Signal::Time(time) && time.count() == 0,
            self.amplitude is Const,
            self.frequency is Const,
            self.sample_rate is Const,
            1 <= k <= COUNT_LIMIT,
            after::<Sample, SineWave>(self, (k - 1) as nat).yields(answers, asked, out),
        ensures
            exists|time: Sample, sine: Sample|
                {
                    &&& time.is_count(k)
                    &&& #[trigger] sine_yields(
                        answers,
                        time,
                        self.frequency->Const_0,
                        self.sample_rate->Const_0,
                        asked.drop_last(),
                        sine,
                    )
                    &&& gives(answers, Operation::Multiply(sine, self.amplitude->Const_0), out)
                    &&& asked.len() == 6
                    &&& asked.last() == Operation::Multiply(sine, self.amplitude->Const_0)
                },
    {
        let n = (k - 1) as nat;
        let then = after::<Sample, SineWave>(self, n);
        self.lemma_after(n);
        self.amplitude.lemma_after_const(n);
        self.frequency.lemma_after_const(n);
        self.sample_rate.lemma_after_const(n);
        self.time.lemma_after_time(n);
        let tick = choose|tick: WaveTick|
            #![trigger tick.asked()]
            then.through(answers, asked, out, tick);
        self.time->Time_0.lemma_kth_tick_puts_out_k(k, answers, tick.by_time, tick.time);
        tick.lemma_silent_inputs();
        assert(asked.drop_last() =~= tick.by_sine);
        lemma_sine_asks_five(
            answers,
            tick.time,
            tick.frequency,
            tick.sample_rate,
            tick.by_sine,
            tick.sine,
        );
    }
}

impl Node<Sample> for SineWave {
    open spec fn advanced(&self) -> Self
        decreases self,
    {
        SineWave {
            time: Box::new(self.time.advanced()),
            amplitude: self.amplitude.advanced(),
            frequency: self.frequency.advanced(),
            sample_rate: self.sample_rate.advanced(),
        }
    }

    open spec fn yields(
        &self,
        answers: spec_fn(Operation<Sample>, Sample) -> bool,
        asked: Seq<Operation<Sample>>,
        out: Sample,
    ) -> bool
        decreases self, 1int,
    {
        exists|tick: WaveTick| #![trigger tick.asked()] self.through(answers, asked, out, tick)
    }

    /// Evaluates the time, the frequency, the sample rate and the amplitude,
    /// in this order, and puts out the sine of the phase times the amplitude.
    fn process<A: Arithmetic<Sample>>(&mut self, unit: &mut Unit<Sample, A>) -> (out: Sample)
        decreases *old(self),
    {
        let ghost u0 = *unit;
        let time = self.time.process(unit);
        let ghost u1 = *unit;
        let frequency = self.frequency.process(unit);
        let ghost u2 = *unit;
        let sample_rate = self.sample_rate.process(unit);
        let ghost u3 = *unit;
        let sine = sine(unit, time, frequency, sample_rate);
        let ghost u4 = *unit;
        let amplitude = self.amplitude.process(unit);
        let ghost u5 = *unit;
        let out = unit.ask(Operation::Multiply(sine, amplitude));
        proof {
            let tick = WaveTick {
                time,
                frequency,
                sample_rate,
                sine,
                amplitude,
                by_time: u1.asked_since(&u0),
                by_frequency: u2.asked_since(&u1),
                by_rate: u3.asked_since(&u2),
                by_sine: u4.asked_since(&u3),
                by_amplitude: u5.asked_since(&u4),
            };
            u2.lemma_asked_since_adds(&u1, &u0);
            u3.lemma_asked_since_adds(&u2, &u0);
            u4.lemma_asked_since_adds(&u3, &u0);
            u5.lemma_asked_since_adds(&u4, &u0);
            unit.lemma_asked_since_adds(&u5, &u0);
            assert(unit.asked_since(&u0) =~= tick.asked().push(tick.product()));
            assert(old(self).through(u0.answers(), unit.asked_since(&u0), out, tick));
        }
        out
    }
}

/// A square wave.
pub struct SquareWave {
    /// Time input, though any node can be used here.
    pub time: NodeInput,
    /// The wave's amplitude. If in doubt, leave at `1`.
    pub amplitude: Value,
    /// The wave's frequency in Hz.
    pub frequency: Value,
    /// The sample rate of the output device.
    pub sample_rate: Value,
}

impl SquareWave {
    /// Whether the next tick may take the inputs through `tick`, ask `asked`
    /// in all and put out `out`: the time, the frequency and the sample rate
    /// make their requests and put out their samples, the sine of the phase
    /// is asked for, the amplitude makes its requests, and what comes out is
    /// the amplitude times the sign of the sine. The sign of a zero is that
    /// zero, not `1`, and the product with a sign is exact, so the unit is
    /// not asked for it.
    pub open spec fn through(
        &self,
        answers: spec_fn(Operation<Sample>, Sample) -> bool,
        asked: Seq<Operation<Sample>>,
        out: Sample,
        tick: WaveTick,
    ) -> bool
        decreases self, 0int,
    {
        &&& self.time.yields(answers, tick.by_time, tick.time)
        &&& self.frequency.yields(answers, tick.by_frequency, tick.frequency)
        &&& self.sample_rate.yields(answers, tick.by_rate, tick.sample_rate)
        &&& sine_yields(
            answers,
            tick.time,
            tick.frequency,
            tick.sample_rate,
            tick.by_sine,
            tick.sine,
        )
        &&& self.amplitude.yields(answers, tick.by_amplitude, tick.amplitude)
        &&& out == tick.amplitude.times_sign(tick.sine)
        &&& asked == tick.asked()
    }

    /// With a unit that leaves no choice, a tick makes one list of requests
    /// and puts out one sample only.
    pub proof fn lemma_one_output(
        &self,
        answers: spec_fn(Operation<Sample>, Sample) -> bool,
        asked: Seq<Operation<Sample>>,
        out: Sample,
        other_asked: Seq<Operation<Sample>>,
        other: Sample,
    )
        requires
            single_valued(answers),
            self.yields(answers, asked, out),
            self.yields(answers, other_asked, other),
        ensures
            out == other,
            asked == other_asked,
        decreases self,
    {
        let one = choose|tick: WaveTick|
            #![trigger tick.asked()]
            self.through(answers, asked, out, tick);
        let two = choose|tick: WaveTick|
            #![trigger tick.asked()]
            self.through(answers, other_asked, other, tick);
        self.time.lemma_one_output(answers, one.by_time, one.time, two.by_time, two.time);
        self.frequency.lemma_one_output(
            answers,
            one.by_frequency,
            one.frequency,
            two.by_frequency,
            two.frequency,
        );
        self.sample_rate.lemma_one_output(
            answers,
            one.by_rate,
            one.sample_rate,
            two.by_rate,
            two.sample_rate,
        );
        lemma_one_sine(
            answers,
            one.time,
            one.frequency,
            one.sample_rate,
            one.by_sine,
            one.sine,
            two.by_sine,
            two.sine,
        );
        self.amplitude.lemma_one_output(
            answers,
            one.by_amplitude,
            one.amplitude,
            two.by_amplitude,
            two.amplitude,
        );
    }

    /// After `ticks` ticks of a wave each of its inputs has made that many.
    pub proof fn lemma_after(self, ticks: nat)
        ensures
            after::<Sample, SquareWave>(self, ticks) == (SquareWave {
                time: Box::new(after::<Sample, Signal>(*self.time, ticks)),
                amplitude: after::<Sample, Value>(self.amplitude, ticks),
                frequency: after::<Sample, Value>(self.frequency, ticks),
                sample_rate: after::<Sample, Value>(self.sample_rate, ticks),
            }),
        decreases ticks,
    {
        if ticks > 0 {
            self.lemma_after((ticks - 1) as nat);
        }
    }

    /// With constant amplitude `A`, frequency `F` and sample rate `S`, and a
    /// clock of its own that starts at zero, the `k`-th tick puts out `A`
    /// times the sign of the sine of `k · F · 2 · π / S`, as the unit computes
    /// that sine, for every `k` from one to `2^53`. Where the sine is a zero
    /// and `A` is finite, a zero comes out.
    pub proof fn lemma_kth_tick(
        self,
        k: nat,
        answers: spec_fn(Operation<Sample>, Sample) -> bool,
        asked: Seq<Operation<Sample>>,
        out: Sample,
    )
        requires
            *self.time matches Signal::Time(time) && time.count() == 0,
            self.amplitude is Const,
            self.frequency is Const,
            self.sample_rate is Const,
            1 <= k <= COUNT_LIMIT,
            after::<Sample, SquareWave>(self, (k - 1) as nat).yields(answers, asked, out),
        ensures
            exists|time: Sample, sine: Sample|
                {
                    &&& time.is_count(k)
                    &&& #[trigger] sine_yields(
                        answers,
                        time,
                        self.frequency->Const_0,
                        self.sample_rate->Const_0,
                        asked,
                        sine,
                    )
                    &&& out == self.amplitude->Const_0.times_sign(sine)
                    &&& sine.is_zero() && self.amplitude->Const_0.is_finite() ==> out.is_zero()
                },
    {
        let n = (k - 1) as nat;
        let then = after::<Sample, SquareWave>(self, n);
        self.lemma_after(n);
        self.amplitude.lemma_after_const(n);
        self.frequency.lemma_after_const(n);
        self.sample_rate.lemma_after_const(n);
        self.time.lemma_after_time(n);
        let tick = choose|tick: WaveTick|
            #![trigger tick.asked()]
            then.through(answers, asked, out, tick);
        self.time->Time_0.lemma_kth_tick_puts_out_k(k, answers, tick.by_time, tick.time);
        tick.lemma_silent_inputs();
        if tick.sine.is_zero() && tick.amplitude.is_finite() {
            tick.amplitude.lemma_zero_sign_is_flat(tick.sine);
        }
    }
}

impl Node<Sample> for SquareWave {
    open spec fn advanced(&self) -> Self
        decreases self,
    {
        SquareWave {
            time: Box::new(self.time.advanced()),
            amplitude: self.amplitude.advanced(),
            frequency: self.frequency.advanced(),
            sample_rate: self.sample_rate.advanced(),
        }
    }

    open spec fn yields(
        &self,
        answers: spec_fn(Operation<Sample>, Sample) -> bool,
        asked: Seq<Operation<Sample>>,
        out: Sample,
    ) -> bool
        decreases self, 1int,
    {
        exists|tick: WaveTick| #![trigger tick.asked()] self.through(answers, asked, out, tick)
    }

    /// Evaluates the time, the frequency, the sample rate and the amplitude,
    /// in this order, and puts out the sign of the sine of the phase times the
    /// amplitude. Where the sine is a zero, the sign is that zero, and what
    /// comes out of a finite amplitude is a zero.
    fn process<A: Arithmetic<Sample>>(&mut self, unit: &mut Unit<Sample, A>) -> (out: Sample)
        decreases *old(self),
    {
        let ghost u0 = *unit;
        let time = self.time.process(unit);
        let ghost u1 = *unit;
        let frequency = self.frequency.process(unit);
        let ghost u2 = *unit;
        let sample_rate = self.sample_rate.process(unit);
        let ghost u3 = *unit;
        let sine = sine(unit, time, frequency, sample_rate);
        let ghost u4 = *unit;
        let amplitude = self.amplitude.process(unit);
        let out = amplitude.mul_signum(sine);
        proof {
            let tick = WaveTick {
                time,
                frequency,
                sample_rate,
                sine,
                amplitude,
                by_time: u1.asked_since(&u0),
                by_frequency: u2.asked_since(&u1),
                by_rate: u3.asked_since(&u2),
                by_sine: u4.asked_since(&u3),
                by_amplitude: unit.asked_since(&u4),
            };
            u2.lemma_asked_since_adds(&u1, &u0);
            u3.lemma_asked_since_adds(&u2, &u0);
            u4.lemma_asked_since_adds(&u3, &u0);
            unit.lemma_asked_since_adds(&u4, &u0);
            assert(old(self).through(u0.answers(), unit.asked_since(&u0), out, tick));
        }
        out
    }
}

} // verus!
