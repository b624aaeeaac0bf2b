//! The mapping from control events to parameter values.
//!
//! A control event names a parameter and carries a normalized value between
//! zero and one as decimal text. The text is parsed, the value is mapped to
//! the parameter's own domain, and the result goes onto the parameter's input
//! endpoint. Attack, decay and release are times: the normalized value, raised
//! to the power of three and a half, is scaled into the range from a hundredth
//! of a second to two seconds, and the time is turned into the amplitude step
//! per sample that the envelope wants. Malformed text changes nothing.

use vstd::prelude::*;
use crate::fixed::{add_raw, clamp_raw, mul_raw, sqrt_raw, sub_raw, Fixed, MAX_RAW, ONE_RAW};
use crate::graph::{Change, GraphView, SignalGraph};
use crate::processor::Processor;
use crate::synth::SynthParams;

verus! {

/// Whether a byte is an ASCII digit.
pub open spec fn is_digit(byte: u8) -> bool {
    48 <= byte <= 57
}

/// The byte of the decimal point.
pub const POINT: u8 = 46;

/// The most fractional digits that count; further ones are read and ignored.
pub const FRACTION_DIGITS: usize = 19;

/// The end of the run of digits that starts at `from`.
pub open spec fn digit_run(text: Seq<u8>, from: int) -> int
    decreases text.len() - from,
{
    if 0 <= from < text.len() && is_digit(text[from]) {
        digit_run(text, from + 1)
    } else {
        from
    }
}

/// The number that a run of digits spells.
pub open spec fn digits_value(digits: Seq<u8>) -> nat
    decreases digits.len(),
{
    if digits.len() == 0 {
        0
    } else {
        digits_value(digits.drop_last()) * 10 + (digits.last() - 48) as nat
    }
}

/// Ten to the power of `n`.
pub open spec fn pow10(n: nat) -> nat
    decreases n,
{
    if n == 0 {
        1
    } else {
        10 * pow10((n - 1) as nat)
    }
}

/// The digits before the point.
pub open spec fn whole_digits(text: Seq<u8>) -> Seq<u8> {
    text.take(digit_run(text, 0))
}

/// The digits behind the point; none if there is no point.
pub open spec fn fraction_digits(text: Seq<u8>) -> Seq<u8> {
    let point = digit_run(text, 0);
    if point < text.len() {
        text.skip(point + 1)
    } else {
        Seq::empty()
    }
}

/// The text is a decimal number: digits, then possibly a point and more
/// digits, with at least one digit in all and nothing else.
pub open spec fn is_decimal(text: Seq<u8>) -> bool {
    let point = digit_run(text, 0);
    &&& point < text.len() ==> text[point] == POINT && digit_run(text, point + 1) == text.len()
    &&& whole_digits(text).len() + fraction_digits(text).len() >= 1
}

/// The raw encoding of the fraction that the digits behind the point spell,
/// of which the first nineteen count: rounded toward zero.
pub open spec fn fraction_raw(digits: Seq<u8>) -> int {
    let counted = if digits.len() > FRACTION_DIGITS {
        digits.take(FRACTION_DIGITS as int)
    } else {
        digits
    };
    (digits_value(counted) * ONE_RAW) / (pow10(counted.len()) as int)
}

/// The raw encoding of the number that a decimal text spells, saturated.
pub open spec fn decimal_raw(text: Seq<u8>) -> int {
    clamp_raw(digits_value(whole_digits(text)) * ONE_RAW + fraction_raw(fraction_digits(text)))
}

/// Why a control event was refused.
#[derive(Clone, Copy, PartialEq, Eq, Structural, Debug)]
pub enum ControlError {
    /// The event names no parameter of the voice.
    UnknownParameter,
    /// The value is not a decimal number.
    ParseError,
}

/// Powers of ten grow with the exponent.
proof fn lemma_pow10_grows(n: nat, m: nat)
    requires
        n <= m,
    ensures
        1 <= pow10(n) <= pow10(m),
    decreases m,
{
    if n < m {
        lemma_pow10_grows(n, (m - 1) as nat);
    } else if n > 0 {
        lemma_pow10_grows((n - 1) as nat, (n - 1) as nat);
    }
}

/// Ten to the power of nineteen fits in 64 bits, and smaller powers are
/// smaller.
proof fn lemma_pow10_bound(n: nat)
    requires
        n <= 19,
    ensures
        1 <= pow10(n) <= 10_000_000_000_000_000_000,
        n < 19 ==> pow10(n) <= 1_000_000_000_000_000_000,
{
    assert(pow10(18) == 1_000_000_000_000_000_000 && pow10(19) == 10_000_000_000_000_000_000) by {
        reveal_with_fuel(pow10, 20);
    }
    lemma_pow10_grows(n, 19);
    if n < 19 {
        lemma_pow10_grows(n, 18);
    }
}

/// A run of digits spells a number below ten to the power of its length.
proof fn lemma_digits_value_bound(digits: Seq<u8>)
    requires
        forall|i: int| 0 <= i < digits.len() ==> is_digit(#[trigger] digits[i]),
    ensures
        digits_value(digits) < pow10(digits.len()),
    decreases digits.len(),
{
    if digits.len() > 0 {
        lemma_digits_value_bound(digits.drop_last());
    }
}

/// The run of digits from `from` ends where the run from any place inside it
/// ends.
proof fn lemma_digit_run_from(text: Seq<u8>, from: int, inside: int)
    requires
        0 <= from <= inside <= text.len(),
        forall|i: int| from <= i < inside ==> is_digit(#[trigger] text[i]),
    ensures
        digit_run(text, from) == digit_run(text, inside),
    decreases inside - from,
{
    if from < inside {
        lemma_digit_run_from(text, from + 1, inside);
    }
}

/// Parses a decimal number: digits, then possibly a point and more digits.
pub fn parse_decimal(text: &[u8]) -> (r: Result<Fixed, ControlError>)
    ensures
        match r {
            Ok(value) => is_decimal(text@) && value@ == decimal_raw(text@),
            Err(error) => !is_decimal(text@) && error == ControlError::ParseError,
        },
{
    let len: usize = text.len();
    let cap: u64 = 4294967296;
    let mut whole: u64 = 0;
    let mut i: usize = 0;
    while i < len && 48 <= text[i] && text[i] <= 57
        invariant
            i <= len,
            len == text@.len(),
            cap == 4294967296,
            forall|k: int| 0 <= k < i ==> is_digit(#[trigger] text@[k]),
            whole <= cap,
            whole == (if digits_value(text@.take(i as int)) < cap {
                digits_value(text@.take(i as int))
            } else {
                cap as nat
            }),
        decreases len - i,
    {
        let digit: u64 = (text[i] - 48) as u64;
        proof {
            assert(text@.take(i + 1).drop_last() =~= text@.take(i as int));
            assert(text@.take(i + 1).last() == text@[i as int]);
        }
        let next: u64 = whole * 10 + digit;
        whole = if next < cap { next } else { cap };
        i = i + 1;
    }
    let point: usize = i;
    proof {
        lemma_digit_run_from(text@, 0, point as int);
        assert(digit_run(text@, 0) == point);
    }
    let mut fraction: u64 = 0;
    let mut scale: u64 = 1;
    let mut counted: usize = 0;
    if i < len {
        if text[i] != POINT {
            return Err(ControlError::ParseError);
        }
        i = i + 1;
        let ghost behind = text@.skip(point + 1);
        while i < len && 48 <= text[i] && text[i] <= 57
            invariant
                point + 1 <= i <= len,
                len == text@.len(),
                behind == text@.skip(point + 1),
                forall|k: int| point + 1 <= k < i ==> is_digit(#[trigger] text@[k]),
                counted <= FRACTION_DIGITS,
                counted == (if i - point - 1 < FRACTION_DIGITS {
                    i - point - 1
                } else {
                    FRACTION_DIGITS as int
                }),
                scale == pow10(counted as nat),
                fraction == digits_value(behind.take(counted as int)),
                fraction < scale,
                scale <= 10_000_000_000_000_000_000,
            decreases len - i,
        {
            if counted < FRACTION_DIGITS {
                let digit: u64 = (text[i] - 48) as u64;
                proof {
                    lemma_pow10_bound(counted as nat);
                    assert(behind.take(counted + 1).drop_last() =~= behind.take(counted as int));
                    assert(behind.take(counted + 1).last() == text@[i as int]);
                }
                fraction = fraction * 10 + digit;
                scale = scale * 10;
                counted = counted + 1;
            }
            i = i + 1;
        }
        proof {
            lemma_digit_run_from(text@, point + 1, i as int);
        }
        if i < len {
            return Err(ControlError::ParseError);
        }
    }
    if len == 0 || (len == 1 && point == 0) {
        return Err(ControlError::ParseError);
    }
    proof {
        let behind = fraction_digits(text@);
        if behind.len() <= FRACTION_DIGITS {
            assert(behind.take(counted as int) =~= behind);
        }
        assert(fraction_raw(behind) == (fraction * ONE_RAW) / (scale as int));
    }
    let product: u128 = (fraction as u128) * 4294967296u128;
    let part: u128 = product / (scale as u128);
    assert(part < 4294967296) by (nonlinear_arith)
        requires
            part == (fraction * 4294967296) / (scale as int),
            0 <= fraction < scale,
    ;
    if whole >= 2147483648 {
        assert(digits_value(whole_digits(text@)) * ONE_RAW >= 2147483648 * ONE_RAW) by (nonlinear_arith)
            requires
                digits_value(whole_digits(text@)) >= 2147483648,
        ;
        Ok(Fixed::from_raw(MAX_RAW))
    } else {
        let raw: u128 = (whole as u128) * 4294967296u128 + part;
        Ok(Fixed::from_raw(raw as i64))
    }
}


/// The raw encoding of the length of the range of times, 1.99 seconds.
pub const TIME_RANGE_RAW: i64 = 8546984919;

/// The raw encoding of the shortest time, a hundredth of a second.
pub const TIME_FLOOR_RAW: i64 = 42949673;

/// A raw encoding brought into the range from zero to one.
pub open spec fn unit_clamped(x: int) -> int {
    if x < 0 {
        0
    } else if x > ONE_RAW {
        ONE_RAW as int
    } else {
        x
    }
}

/// The raw encoding of a normalized value raised to the power of three and a
/// half: its cube times its square root.
pub open spec fn curved_raw(x: int) -> int {
    let u = unit_clamped(x);
    mul_raw(mul_raw(mul_raw(u, u), u), sqrt_raw(u))
}

/// The raw encoding of the time in seconds that a normalized value stands
/// for: between a hundredth of a second and two seconds.
pub open spec fn time_raw(x: int) -> int {
    add_raw(mul_raw(curved_raw(x), TIME_RANGE_RAW as int), TIME_FLOOR_RAW as int)
}

/// The raw encoding of the amplitude step per sample for a ramp that takes
/// `time` (a raw encoding of seconds) at `sample_rate`: one over their
/// product, rounded down. Where the product is not positive the step is the
/// largest there is.
pub open spec fn delta_raw(time: int, sample_rate: u32) -> int {
    if time <= 0 || sample_rate == 0 {
        MAX_RAW as int
    } else {
        clamp_raw(0x1_0000_0000_0000_0000int / (time * sample_rate))
    }
}

/// A parameter of the voice that control events can set.
#[derive(Clone, Copy, PartialEq, Eq, Structural, Debug)]
pub enum Parameter {
    Attack,
    Decay,
    Sustain,
    Release,
    DistAmount,
    FmAmount,
}

/// The parameter that a name names.
pub open spec fn parameter_of(name: Seq<char>) -> Option<Parameter> {
    if name == "attack"@ {
        Some(Parameter::Attack)
    } else if name == "decay"@ {
        Some(Parameter::Decay)
    } else if name == "sustain"@ {
        Some(Parameter::Sustain)
    } else if name == "release"@ {
        Some(Parameter::Release)
    } else if name == "distAmount"@ {
        Some(Parameter::DistAmount)
    } else if name == "fmAmount"@ {
        Some(Parameter::FmAmount)
    } else {
        None
    }
}

/// The raw encoding of the value that goes onto a parameter's endpoint for
/// the normalized value `x`. Attack and release take the step per sample for
/// the time that `x` stands for; decay takes it for the time that `1 - x`
/// stands for; the sustain level and the two amounts are `x` itself.
pub open spec fn native_raw(parameter: Parameter, x: int, sample_rate: u32) -> int {
    match parameter {
        Parameter::Attack => delta_raw(time_raw(x), sample_rate),
        Parameter::Release => delta_raw(time_raw(x), sample_rate),
        Parameter::Decay => delta_raw(time_raw(sub_raw(ONE_RAW as int, x)), sample_rate),
        Parameter::Sustain => x,
        Parameter::DistAmount => x,
        Parameter::FmAmount => x,
    }
}

/// The endpoint of a parameter.
pub open spec fn endpoint_of(params: SynthParams, parameter: Parameter) -> usize {
    match parameter {
        Parameter::Attack => params.attack,
        Parameter::Decay => params.decay,
        Parameter::Sustain => params.sustain,
        Parameter::Release => params.release,
        Parameter::DistAmount => params.dist_amount,
        Parameter::FmAmount => params.fm_amount,
    }
}

/// The time in seconds that a normalized value stands for.
pub fn time_constant(x: Fixed) -> (r: Fixed)
    ensures
        r@ == time_raw(x@),
{
    let u = if x.raw < 0 {
        Fixed::zero()
    } else if x.raw > ONE_RAW {
        Fixed::one()
    } else {
        x
    };
    let curved = u.mul(u).mul(u).mul(u.sqrt());
    curved.mul(Fixed::from_raw(TIME_RANGE_RAW)).saturating_add(Fixed::from_raw(TIME_FLOOR_RAW))
}

/// The amplitude step per sample for a ramp that takes `time` seconds at
/// `sample_rate`.
pub fn delta_for(time: Fixed, sample_rate: u32) -> (r: Fixed)
    ensures
        r@ == delta_raw(time@, sample_rate),
{
    if time.raw <= 0 || sample_rate == 0 {
        return Fixed::from_raw(MAX_RAW);
    }
    let t: u128 = time.raw as u128;
    let rate: u128 = sample_rate as u128;
    assert(0 < t * rate <= 0x8000_0000_0000_0000 * 0x1_0000_0000) by (nonlinear_arith)
        requires
            0 < t <= 0x8000_0000_0000_0000,
            0 < rate <= 0x1_0000_0000,
    ;
    let product: u128 = t * rate;
    let quotient: u128 = 0x1_0000_0000_0000_0000u128 / product;
    if quotient > MAX_RAW as u128 {
        Fixed::from_raw(MAX_RAW)
    } else {
        Fixed::from_raw(quotient as i64)
    }
}

/// The parameter that a name names, if it names one.
pub fn parameter_named(name: &String) -> (r: Option<Parameter>)
    ensures
        r == parameter_of(name@),
{
    if *name == "attack".to_owned() {
        Some(Parameter::Attack)
    } else if *name == "decay".to_owned() {
        Some(Parameter::Decay)
    } else if *name == "sustain".to_owned() {
        Some(Parameter::Sustain)
    } else if *name == "release".to_owned() {
        Some(Parameter::Release)
    } else if *name == "distAmount".to_owned() {
        Some(Parameter::DistAmount)
    } else if *name == "fmAmount".to_owned() {
        Some(Parameter::FmAmount)
    } else {
        None
    }
}

/// The value that goes onto a parameter's endpoint for the normalized value
/// `x`.
pub fn native_value(parameter: Parameter, x: Fixed, sample_rate: u32) -> (r: Fixed)
    ensures
        r@ == native_raw(parameter, x@, sample_rate),
{
    match parameter {
        Parameter::Attack => delta_for(time_constant(x), sample_rate),
        Parameter::Release => delta_for(time_constant(x), sample_rate),
        Parameter::Decay => delta_for(
            time_constant(Fixed::one().saturating_sub(x)),
            sample_rate,
        ),
        Parameter::Sustain => x,
        Parameter::DistAmount => x,
        Parameter::FmAmount => x,
    }
}

/// The endpoint of a parameter.
pub fn endpoint_for(params: &SynthParams, parameter: Parameter) -> (r: usize)
    ensures
        r == endpoint_of(*params, parameter),
{
    match parameter {
        Parameter::Attack => params.attack,
        Parameter::Decay => params.decay,
        Parameter::Sustain => params.sustain,
        Parameter::Release => params.release,
        Parameter::DistAmount => params.dist_amount,
        Parameter::FmAmount => params.fm_amount,
    }
}

/// The error of a control event, if it has one: the name is looked at first.
pub open spec fn control_refusal(name: Seq<char>, text: Seq<u8>) -> Option<ControlError> {
    if parameter_of(name) is None {
        Some(ControlError::UnknownParameter)
    } else if !is_decimal(text) {
        Some(ControlError::ParseError)
    } else {
        None
    }
}

/// The change that a control event makes: the value of its text, mapped to
/// the domain of the parameter it names, for that parameter's endpoint.
pub open spec fn control_change_of(
    params: SynthParams,
    name: Seq<char>,
    text: Seq<u8>,
    sample_rate: u32,
) -> Change {
    let parameter = parameter_of(name)->Some_0;
    Change {
        input: endpoint_of(params, parameter),
        value: Fixed { raw: native_raw(parameter, decimal_raw(text), sample_rate) as i64 },
    }
}

/// The change that a control event makes, or why it is refused.
pub fn control_change(params: &SynthParams, name: &String, text: &[u8], sample_rate: u32) -> (r:
    Result<Change, ControlError>)
    ensures
        match r {
            Ok(change) => control_refusal(name@, text@) is None && change == control_change_of(
                *params,
                name@,
                text@,
                sample_rate,
            ),
            Err(error) => control_refusal(name@, text@) == Some(error),
        },
{
    let parameter = match parameter_named(name) {
        Some(parameter) => parameter,
        None => {
            return Err(ControlError::UnknownParameter);
        },
    };
    let x = match parse_decimal(text) {
        Ok(x) => x,
        Err(error) => {
            return Err(error);
        },
    };
    Ok(
        Change {
            input: endpoint_for(params, parameter),
            value: native_value(parameter, x, sample_rate),
        },
    )
}

/// What a control event does to a graph: nothing if it is refused; else its
/// change arrives.
pub open spec fn after_control<P: Processor>(
    graph: GraphView<P>,
    params: SynthParams,
    name: Seq<char>,
    text: Seq<u8>,
    sample_rate: u32,
) -> GraphView<P> {
    if control_refusal(name, text) is None {
        graph.with_change(control_change_of(params, name, text, sample_rate))
    } else {
        graph
    }
}

/// Hands a control event to the voice. A refused event leaves the graph as it
/// was.
pub fn handle_control<P: Processor>(
    graph: &mut SignalGraph<P>,
    params: &SynthParams,
    name: &String,
    text: &[u8],
    sample_rate: u32,
) -> (r: Result<(), ControlError>)
    requires
        old(graph).wf(),
    ensures
        final(graph).wf(),
        final(graph)@ == after_control(old(graph)@, *params, name@, text@, sample_rate),
        match r {
            Ok(_) => control_refusal(name@, text@) is None,
            Err(error) => control_refusal(name@, text@) == Some(error),
        },
{
    match control_change(params, name, text, sample_rate) {
        Ok(change) => {
            if change.input < graph.input_count() {
                graph.enqueue(change.input, change.value);
            }
            Ok(())
        },
        Err(error) => Err(error),
    }
}

} // verus!
