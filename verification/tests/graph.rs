use std::cell::RefCell;

use sonic_nodes::arithmetic::{Arithmetic, Operation, Unit};
use sonic_nodes::math::{Limit, Math};
use sonic_nodes::sample::Sample;
use sonic_nodes::wave::{phase, sine, SineWave, SquareWave};
use sonic_nodes::{play, Node, NodeInput, Signal, Time, Value};

/// The machine's own floating-point arithmetic.
struct Native;

/// The machine's arithmetic, with a record of what was asked of it.
struct Recording {
    asked: RefCell<Vec<String>>,
}

fn number(sample: Sample) -> f64 {
    f64::from_bits(sample.to_bits())
}

fn sample(number: f64) -> Sample {
    Sample::from_bits(number.to_bits())
}

fn compute(operation: Operation<Sample>) -> Sample {
    sample(match operation {
        Operation::Add(a, b) => number(a) + number(b),
        Operation::Subtract(a, b) => number(a) - number(b),
        Operation::Multiply(a, b) => number(a) * number(b),
        Operation::Divide(a, b) => number(a) / number(b),
        Operation::Pow(a, b) => number(a).powf(number(b)),
        Operation::Sqrt(a) => number(a).sqrt(),
        Operation::Sin(a) => number(a).sin(),
    })
}

impl Arithmetic<Sample> for Native {
    fn perform(&self, operation: Operation<Sample>) -> Sample {
        compute(operation)
    }
}

impl Arithmetic<Sample> for Recording {
    fn perform(&self, operation: Operation<Sample>) -> Sample {
        let line = match &operation {
            Operation::Add(a, b) => format!("{} + {}", number(*a), number(*b)),
            Operation::Subtract(a, b) => format!("{} - {}", number(*a), number(*b)),
            Operation::Multiply(a, b) => format!("{} * {}", number(*a), number(*b)),
            Operation::Divide(a, b) => format!("{} / {}", number(*a), number(*b)),
            Operation::Pow(a, b) => format!("{} ^ {}", number(*a), number(*b)),
            Operation::Sqrt(a) => format!("sqrt {}", number(*a)),
            Operation::Sin(a) => format!("sin {}", number(*a)),
        };
        self.asked.borrow_mut().push(line);
        compute(operation)
    }
}

fn native() -> Unit<Sample, Native> {
    Unit::new(Native)
}

fn recording() -> Unit<Sample, Recording> {
    Unit::new(Recording { asked: RefCell::new(Vec::new()) })
}

fn asked(unit: Unit<Sample, Recording>) -> Vec<String> {
    unit.into_arithmetic().asked.into_inner()
}

fn constant(number: f64) -> NodeInput {
    Box::new(Signal::Value(Value::Const(sample(number))))
}

fn clock() -> NodeInput {
    Box::new(Signal::Time(Time::new()))
}

fn formula(k: f64, amplitude: f64, frequency: f64, sample_rate: f64) -> f64 {
    (k * frequency * 2.0 * std::f64::consts::PI / sample_rate).sin() * amplitude
}

#[test]
fn time_first_call_is_one_not_zero() {
    let mut time = Time::new();
    assert_eq!(time.process(&mut native()), sample(1.0));
}

#[test]
fn time_kth_call_is_exactly_k() {
    let mut time = Time::new();
    for k in 1..=70_000u32 {
        assert_eq!(time.process(&mut native()).to_bits(), f64::from(k).to_bits());
    }
}

#[test]
fn time_asks_nothing_of_the_unit() {
    let mut unit = recording();
    let mut time = Time::new();
    assert_eq!(number(time.process(&mut unit)), 1.0);
    assert_eq!(number(time.process(&mut unit)), 2.0);
    assert!(asked(unit).is_empty());
}

#[test]
fn value_const_is_passed_through() {
    let mut value = Value::Const(sample(0.75));
    for _ in 0..3 {
        assert_eq!(value.process(&mut native()), sample(0.75));
    }
    let mut nan = Value::Const(sample(f64::NAN));
    assert!(number(nan.process(&mut native())).is_nan());
}

#[test]
fn value_node_is_its_node() {
    let mut value = Value::Node(clock());
    assert_eq!(number(value.process(&mut native())), 1.0);
    assert_eq!(number(value.process(&mut native())), 2.0);
}

#[test]
fn value_from_a_sample_is_a_constant() {
    let mut value: Value = sample(4.0).into();
    assert!(matches!(value, Value::Const(_)));
    assert_eq!(number(value.process(&mut native())), 4.0);
    let mut other = Value::from(sample(-1.5));
    assert_eq!(number(other.process(&mut native())), -1.5);
}

#[test]
fn math_operations_on_constants() {
    assert_eq!(number(Math::Add(constant(2.0), constant(3.0)).process(&mut native())), 5.0);
    assert_eq!(number(Math::Subtract(constant(2.0), constant(3.0)).process(&mut native())), -1.0);
    assert_eq!(number(Math::Multiply(constant(2.0), constant(3.0)).process(&mut native())), 6.0);
    assert_eq!(number(Math::Divide(constant(3.0), constant(2.0)).process(&mut native())), 1.5);
    assert_eq!(number(Math::Pow(constant(2.0), constant(10.0)).process(&mut native())), 1024.0);
    assert_eq!(number(Math::Sqrt(constant(9.0)).process(&mut native())), 3.0);
}

#[test]
fn math_takes_its_operands_in_their_order() {
    assert_eq!(number(Math::Subtract(constant(10.0), constant(4.0)).process(&mut native())), 6.0);
    assert_eq!(number(Math::Divide(constant(10.0), constant(4.0)).process(&mut native())), 2.5);
    assert_eq!(number(Math::Pow(constant(3.0), constant(2.0)).process(&mut native())), 9.0);
}

#[test]
fn math_evaluates_the_first_input_first() {
    let mut unit = recording();
    let mut sum = Math::Add(
        Box::new(Signal::Math(Math::Multiply(constant(2.0), constant(3.0)))),
        Box::new(Signal::Math(Math::Divide(constant(8.0), constant(4.0)))),
    );
    assert_eq!(number(sum.process(&mut unit)), 8.0);
    assert_eq!(asked(unit), vec!["2 * 3", "8 / 4", "6 + 2"]);
}

#[test]
fn math_inputs_keep_their_own_clocks() {
    let mut difference = Math::Subtract(clock(), clock());
    let mut sum = Math::Add(clock(), clock());
    for k in 1..=5u32 {
        assert_eq!(number(difference.process(&mut native())), 0.0);
        assert_eq!(number(sum.process(&mut native())), 2.0 * f64::from(k));
    }
}

#[test]
fn divide_by_zero_is_infinite_or_nan() {
    assert_eq!(
        number(Math::Divide(constant(1.0), constant(0.0)).process(&mut native())),
        f64::INFINITY
    );
    assert_eq!(
        number(Math::Divide(constant(-1.0), constant(0.0)).process(&mut native())),
        f64::NEG_INFINITY
    );
    assert!(number(Math::Divide(constant(0.0), constant(0.0)).process(&mut native())).is_nan());
}

#[test]
fn divide_by_negative_zero_turns_the_sign() {
    assert_eq!(
        number(Math::Divide(constant(1.0), constant(-0.0)).process(&mut native())),
        f64::NEG_INFINITY
    );
}

#[test]
fn pow_and_sqrt_of_negative_numbers_are_nan() {
    assert!(number(Math::Pow(constant(-8.0), constant(0.5)).process(&mut native())).is_nan());
    assert!(number(Math::Sqrt(constant(-4.0)).process(&mut native())).is_nan());
    assert_eq!(number(Math::Pow(constant(-2.0), constant(3.0)).process(&mut native())), -8.0);
}

#[test]
fn nan_and_infinity_pass_through_math() {
    assert!(number(Math::Add(constant(f64::NAN), constant(1.0)).process(&mut native())).is_nan());
    assert_eq!(
        number(Math::Multiply(constant(f64::INFINITY), constant(-2.0)).process(&mut native())),
        f64::NEG_INFINITY
    );
}

#[test]
fn limit_with_crossed_bounds_puts_out_the_minimum() {
    let inputs = [
        0.0,
        1.0,
        2.0,
        3.0,
        5.0,
        10.0,
        -10.0,
        f64::MAX,
        f64::MIN,
        f64::INFINITY,
        f64::NEG_INFINITY,
        f64::NAN,
    ];
    for input in inputs {
        let mut limit = Limit {
            input: Value::Const(sample(input)),
            min: Some(Value::Const(sample(5.0))),
            max: Some(Value::Const(sample(2.0))),
        };
        assert_eq!(limit.process(&mut native()), sample(5.0));
    }
}

#[test]
fn limit_without_bounds_leaves_finite_samples_alone() {
    let inputs = [0.0, -0.0, 1.0, -1.0, 1e-310, -1e-310, 1e300, -1e300, f64::MAX, f64::MIN];
    for input in inputs {
        let mut limit = Limit { input: Value::Const(sample(input)), min: None, max: None };
        assert_eq!(limit.process(&mut native()), sample(input));
    }
}

#[test]
fn limit_without_bounds_cuts_infinities_to_the_finite_range() {
    let mut above = Limit { input: Value::Const(sample(f64::INFINITY)), min: None, max: None };
    assert_eq!(number(above.process(&mut native())), f64::MAX);
    let mut below = Limit { input: Value::Const(sample(f64::NEG_INFINITY)), min: None, max: None };
    assert_eq!(number(below.process(&mut native())), f64::MIN);
    let mut nan = Limit { input: Value::Const(sample(f64::NAN)), min: None, max: None };
    assert_eq!(number(nan.process(&mut native())), f64::MAX);
}

#[test]
fn limit_cuts_off_at_both_bounds() {
    let mut limit = Limit {
        input: Value::Node(clock()),
        min: Some(Value::Const(sample(3.0))),
        max: Some(Value::Const(sample(6.0))),
    };
    let outs: Vec<f64> = play(&mut limit, &mut native(), 8).into_iter().map(number).collect();
    assert_eq!(outs, vec![3.0, 3.0, 3.0, 4.0, 5.0, 6.0, 6.0, 6.0]);
}

#[test]
fn limit_with_one_bound_only() {
    let mut floor = Limit {
        input: Value::Node(clock()),
        min: Some(Value::Const(sample(2.5))),
        max: None,
    };
    let outs: Vec<f64> = play(&mut floor, &mut native(), 4).into_iter().map(number).collect();
    assert_eq!(outs, vec![2.5, 2.5, 3.0, 4.0]);
    let mut ceiling = Limit {
        input: Value::Node(clock()),
        min: None,
        max: Some(Value::Const(sample(2.5))),
    };
    let outs: Vec<f64> = play(&mut ceiling, &mut native(), 4).into_iter().map(number).collect();
    assert_eq!(outs, vec![1.0, 2.0, 2.5, 2.5]);
}

#[test]
fn limit_agrees_with_the_machine() {
    let values = [-3.0, -0.5, 0.0, 0.5, 3.0, f64::INFINITY, f64::NEG_INFINITY, f64::NAN];
    for input in values {
        for min in values {
            for max in values {
                let got = number(Limit::limit(sample(input), sample(min), sample(max)));
                let expected = input.min(max).max(min);
                assert!(
                    (got.is_nan() && expected.is_nan()) || got == expected,
                    "{input} within {min}..{max}: {got}"
                );
            }
        }
    }
}

#[test]
fn limit_evaluates_input_then_max_then_min() {
    let mut unit = recording();
    let mut limit = Limit {
        input: Value::Node(Box::new(Signal::Math(Math::Add(constant(1.0), constant(1.0))))),
        min: Some(Value::Node(Box::new(Signal::Math(Math::Sqrt(constant(16.0)))))),
        max: Some(Value::Node(Box::new(Signal::Math(Math::Multiply(
            constant(3.0),
            constant(3.0),
        ))))),
    };
    assert_eq!(number(limit.process(&mut unit)), 4.0);
    assert_eq!(asked(unit), vec!["1 + 1", "3 * 3", "sqrt 16"]);
}

#[test]
fn limit_bounds_tick_on_every_call() {
    let mut limit = Limit {
        input: Value::Const(sample(100.0)),
        min: None,
        max: Some(Value::Node(clock())),
    };
    let outs: Vec<f64> = play(&mut limit, &mut native(), 3).into_iter().map(number).collect();
    assert_eq!(outs, vec![1.0, 2.0, 3.0]);
}

#[test]
fn phase_is_time_times_frequency_times_two_pi_over_rate() {
    let got = number(phase(&mut native(), sample(3.0), sample(440.0), sample(44100.0)));
    assert_eq!(got, 3.0 * 440.0 * 2.0 * std::f64::consts::PI / 44100.0);
    let quarter = number(phase(&mut native(), sample(1.0), sample(0.25), sample(1.0)));
    assert_eq!(quarter, std::f64::consts::PI / 2.0);
}

#[test]
fn phase_asks_for_its_steps_in_order() {
    let mut unit = recording();
    phase(&mut unit, sample(3.0), sample(5.0), sample(4.0));
    assert_eq!(
        asked(unit),
        vec!["3 * 5", "15 * 2", "30 * 3.141592653589793", "94.24777960769379 / 4"]
    );
}

#[test]
fn sine_is_the_sine_of_the_phase() {
    let got = number(sine(&mut native(), sample(1.0), sample(0.25), sample(1.0)));
    assert_eq!(got, 1.0);
    let mut unit = recording();
    assert_eq!(number(sine(&mut unit, sample(2.0), sample(0.0), sample(8.0))), 0.0);
    assert_eq!(asked(unit), vec!["2 * 0", "0 * 2", "0 * 3.141592653589793", "0 / 8", "sin 0"]);
}

#[test]
fn unit_passes_requests_on_and_answers_back() {
    let mut unit = recording();
    assert_eq!(number(unit.ask(Operation::Add(sample(1.5), sample(2.0)))), 3.5);
    assert_eq!(number(unit.ask(Operation::Sqrt(sample(2.25)))), 1.5);
    assert_eq!(number(unit.ask(Operation::Pow(sample(2.0), sample(-1.0)))), 0.5);
    assert_eq!(asked(unit), vec!["1.5 + 2", "sqrt 2.25", "2 ^ -1"]);
}

#[test]
fn sine_wave_follows_the_formula() {
    let mut wave = SineWave {
        time: clock(),
        amplitude: sample(0.5).into(),
        frequency: sample(440.0).into(),
        sample_rate: sample(44100.0).into(),
    };
    for k in 1..=500u32 {
        let out = number(wave.process(&mut native()));
        let expected = formula(f64::from(k), 0.5, 440.0, 44100.0);
        assert_eq!(out, expected);
        let turns = f64::from(k) * 440.0 / 44100.0;
        assert!((out - 0.5 * (turns * std::f64::consts::TAU).sin()).abs() < 1e-12);
    }
}

#[test]
fn sine_wave_quarter_period_is_the_amplitude() {
    let mut wave = SineWave {
        time: clock(),
        amplitude: sample(3.0).into(),
        frequency: sample(1.0).into(),
        sample_rate: sample(4.0).into(),
    };
    let outs: Vec<f64> = play(&mut wave, &mut native(), 4).into_iter().map(number).collect();
    assert_eq!(outs[0], 3.0);
    assert!(outs[1].abs() < 1e-15);
    assert_eq!(outs[2], -3.0);
    assert!(outs[3].abs() < 1e-15);
}

#[test]
fn sine_wave_evaluates_time_frequency_rate_then_amplitude() {
    let mut unit = recording();
    let mut wave = SineWave {
        time: Box::new(Signal::Math(Math::Add(constant(0.0), constant(0.0)))),
        amplitude: Value::Node(Box::new(Signal::Math(Math::Add(constant(1.0), constant(1.0))))),
        frequency: Value::Node(Box::new(Signal::Math(Math::Add(constant(2.0), constant(2.0))))),
        sample_rate: Value::Node(Box::new(Signal::Math(Math::Add(constant(3.0), constant(3.0))))),
    };
    assert_eq!(number(wave.process(&mut unit)), 0.0);
    assert_eq!(
        asked(unit),
        vec![
            "0 + 0",
            "2 + 2",
            "3 + 3",
            "0 * 4",
            "0 * 2",
            "0 * 3.141592653589793",
            "0 / 6",
            "sin 0",
            "1 + 1",
            "0 * 2"
        ]
    );
}

#[test]
fn square_wave_is_the_amplitude_with_the_sign_of_the_sine() {
    let mut wave = SquareWave {
        time: clock(),
        amplitude: sample(0.8).into(),
        frequency: sample(440.0).into(),
        sample_rate: sample(44100.0).into(),
    };
    for k in 1..=500u32 {
        let out = number(wave.process(&mut native()));
        let sine = formula(f64::from(k), 1.0, 440.0, 44100.0);
        assert!(sine != 0.0);
        assert_eq!(out, if sine > 0.0 { 0.8 } else { -0.8 });
    }
}

#[test]
fn square_wave_is_flat_where_the_sine_is_zero() {
    let mut still = SquareWave {
        time: clock(),
        amplitude: sample(3.0).into(),
        frequency: sample(0.0).into(),
        sample_rate: sample(44100.0).into(),
    };
    for _ in 0..4 {
        assert_eq!(still.process(&mut native()).to_bits(), 0);
    }
    let mut at_the_start = SquareWave {
        time: constant(0.0),
        amplitude: sample(-3.0).into(),
        frequency: sample(440.0).into(),
        sample_rate: sample(44100.0).into(),
    };
    assert_eq!(number(at_the_start.process(&mut native())), 0.0);
}

#[test]
fn square_wave_of_a_nan_phase_is_nan() {
    let mut wave = SquareWave {
        time: clock(),
        amplitude: sample(1.0).into(),
        frequency: sample(440.0).into(),
        sample_rate: sample(0.0).into(),
    };
    assert!(number(wave.process(&mut native())).is_nan());
}

#[test]
fn square_wave_asks_for_no_last_product() {
    let mut unit = recording();
    let mut wave = SquareWave {
        time: constant(1.0),
        amplitude: sample(7.0).into(),
        frequency: sample(0.25).into(),
        sample_rate: sample(1.0).into(),
    };
    assert_eq!(number(wave.process(&mut unit)), 7.0);
    assert_eq!(
        asked(unit),
        vec![
            "1 * 0.25",
            "0.25 * 2",
            "0.5 * 3.141592653589793",
            "1.5707963267948966 / 1",
            "sin 1.5707963267948966"
        ]
    );
}

#[test]
fn wave_parameters_are_evaluated_on_every_call() {
    let mut wave = SineWave {
        time: clock(),
        amplitude: Value::Node(clock()),
        frequency: sample(1.0).into(),
        sample_rate: sample(4.0).into(),
    };
    let outs: Vec<f64> = play(&mut wave, &mut native(), 3).into_iter().map(number).collect();
    assert_eq!(outs[0], 1.0);
    assert_eq!(outs[2], -3.0);
}

#[test]
fn two_oscillators_do_not_share_a_clock() {
    let tone = |frequency: f64| {
        Box::new(Signal::Sine(SineWave {
            time: clock(),
            amplitude: sample(1.0).into(),
            frequency: sample(frequency).into(),
            sample_rate: sample(48000.0).into(),
        }))
    };
    let mut chord = Math::Add(tone(440.0), tone(200.0));
    for k in 1..=100u32 {
        let k = f64::from(k);
        let expected = formula(k, 1.0, 440.0, 48000.0) + formula(k, 1.0, 200.0, 48000.0);
        assert_eq!(number(chord.process(&mut native())), expected);
    }
}

#[test]
fn play_puts_out_what_process_would() {
    let wave = || SquareWave {
        time: clock(),
        amplitude: sample(1.0).into(),
        frequency: sample(440.0).into(),
        sample_rate: sample(8000.0).into(),
    };
    let mut played = wave();
    let mut stepped = wave();
    let outs = play(&mut played, &mut native(), 50);
    assert_eq!(outs.len(), 50);
    for out in outs {
        assert_eq!(out, stepped.process(&mut native()));
    }
    assert_eq!(played.process(&mut native()), stepped.process(&mut native()));
}

#[test]
fn play_can_stop_and_go_on() {
    let mut whole = Time::new();
    let mut pieces = Time::new();
    let all = play(&mut whole, &mut native(), 10);
    let mut joined = play(&mut pieces, &mut native(), 4);
    assert!(play(&mut pieces, &mut native(), 0).is_empty());
    joined.extend(play(&mut pieces, &mut native(), 6));
    assert_eq!(all, joined);
    assert_eq!(number(all[9]), 10.0);
}

#[test]
fn signal_is_whatever_node_it_holds() {
    let mut nodes = vec![
        Signal::Time(Time::new()),
        Signal::Value(Value::Const(sample(2.0))),
        Signal::Math(Math::Sqrt(constant(49.0))),
        Signal::Limit(Limit {
            input: Value::Const(sample(9.0)),
            min: None,
            max: Some(Value::Const(sample(4.0))),
        }),
        Signal::Sine(SineWave {
            time: constant(1.0),
            amplitude: sample(2.0).into(),
            frequency: sample(0.25).into(),
            sample_rate: sample(1.0).into(),
        }),
        Signal::Square(SquareWave {
            time: constant(1.0),
            amplitude: sample(2.0).into(),
            frequency: sample(0.75).into(),
            sample_rate: sample(1.0).into(),
        }),
    ];
    let outs: Vec<f64> = nodes.iter_mut().map(|node| number(node.process(&mut native()))).collect();
    assert_eq!(outs, vec![1.0, 2.0, 7.0, 4.0, 2.0, -2.0]);
}

fn handed_over<T: Send + Sync>(value: T) -> T {
    value
}

#[test]
fn graph_can_be_handed_to_another_thread() {
    let mut graph = handed_over(Signal::Math(Math::Add(clock(), constant(1.0))));
    let mut unit = handed_over(native());
    assert_eq!(number(graph.process(&mut unit)), 2.0);
}

#[test]
fn graph_is_built_played_and_dropped() {
    let mut graph = Math::Multiply(
        Box::new(Signal::Sine(SineWave {
            time: clock(),
            amplitude: Value::Node(Box::new(Signal::Limit(Limit {
                input: Value::Node(clock()),
                min: None,
                max: Some(Value::Const(sample(3.0))),
            }))),
            frequency: sample(1.0).into(),
            sample_rate: sample(4.0).into(),
        })),
        Box::new(Signal::Square(SquareWave {
            time: clock(),
            amplitude: sample(2.0).into(),
            frequency: sample(1.0).into(),
            sample_rate: sample(8.0).into(),
        })),
    );
    let outs = play(&mut graph, &mut native(), 1000);
    assert_eq!(outs.len(), 1000);
    assert_eq!(number(outs[0]), 2.0);
    drop(graph);
}
